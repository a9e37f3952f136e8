//! A parsed command: action name, optional attributes, optional payload, and
//! the canonical tag rendering used for logging and repeat detection.
use vstd::prelude::*;

verus! {

/// An attribute list as plain character sequences, in order.
pub type AttrsModel = Seq<(Seq<char>, Seq<char>)>;

/// The abstract content of an [`Invocation`].
pub struct InvocationView {
    pub action: Seq<char>,
    pub attributes: Option<AttrsModel>,
    pub payload: Option<Seq<char>>,
}

/// The character view of an attribute list.
pub open spec fn attrs_view(a: Seq<(String, String)>) -> AttrsModel {
    a.map_values(|p: (String, String)| (p.0@, p.1@))
}

/// The character view of an optional attribute list.
pub open spec fn opt_attrs_view(a: Option<Vec<(String, String)>>) -> Option<AttrsModel> {
    match a {
        Some(v) => Some(attrs_view(v@)),
        None => None,
    }
}

/// The character view of an optional string.
pub open spec fn opt_str_view(s: Option<String>) -> Option<Seq<char>> {
    match s {
        Some(v) => Some(v@),
        None => None,
    }
}

/// The key-ordered view of an optional attribute list.
pub open spec fn sorted_attrs_view(a: Option<Vec<(String, String)>>) -> Option<AttrsModel> {
    match a {
        Some(v) => Some(crate::attrs::sort_attrs(attrs_view(v@))),
        None => None,
    }
}

/// ` k1="v1" k2="v2"` for the pairs of `a`, in order.
pub open spec fn render_attrs(a: AttrsModel) -> Seq<char>
    decreases a.len(),
{
    if a.len() == 0 {
        Seq::empty()
    } else {
        render_attrs(a.drop_last()) + seq![' '] + a.last().0 + seq!['=', '"'] + a.last().1
            + seq!['"']
    }
}

/// The closing tag `</action>`.
pub open spec fn closing_tag(action: Seq<char>) -> Seq<char> {
    seq!['<', '/'] + action + seq!['>']
}

/// The canonical form `<action k="v">payload</action>`: no attribute text when
/// none were supplied, an empty body when there is no payload.
pub open spec fn canonical(v: InvocationView) -> Seq<char> {
    seq!['<'] + v.action + match v.attributes {
        Some(a) => render_attrs(a),
        None => Seq::empty(),
    } + seq!['>'] + match v.payload {
        Some(p) => p,
        None => Seq::empty(),
    } + closing_tag(v.action)
}

/// The canonical form of the invocation with these parts.
pub fn render_canonical(
    action: &str,
    attributes: &Option<Vec<(String, String)>>,
    payload: &Option<String>,
) -> (r: String)
    ensures
        r@ == canonical(
            InvocationView {
                action: action@,
                attributes: opt_attrs_view(*attributes),
                payload: opt_str_view(*payload),
            },
        ),
{
        let ghost v = InvocationView {
            action: action@,
            attributes: opt_attrs_view(*attributes),
            payload: opt_str_view(*payload),
        };
        proof {
            reveal_strlit("<");
            reveal_strlit(">");
            reveal_strlit(" ");
            reveal_strlit("=\"");
            reveal_strlit("\"");
            reveal_strlit("</");
        }
        let mut xml = String::from_str("<");
        xml.append(action);
        let ghost head = xml@;
        match attributes {
            Some(attrs) => {
                let mut i: usize = 0;
                while i < attrs.len()
                    invariant
                        i <= attrs@.len(),
                        xml@ == head + render_attrs(attrs_view(attrs@).subrange(0, i as int)),
                    decreases attrs@.len() - i,
                {
                    let ghost prev = attrs_view(attrs@).subrange(0, i as int);
                    let ghost x0 = xml@;
                    proof {
                        reveal_strlit(" ");
                        reveal_strlit("=\"");
                        reveal_strlit("\"");
                        assert(" "@ =~= seq![' ']);
                        assert("=\""@ =~= seq!['=', '"']);
                        assert("\""@ =~= seq!['"']);
                    }
                    xml.append(" ");
                    xml.append(attrs[i].0.as_str());
                    xml.append("=\"");
                    xml.append(attrs[i].1.as_str());
                    xml.append("\"");
                    proof {
                        let next = attrs_view(attrs@).subrange(0, i + 1);
                        assert(next.drop_last() =~= prev);
                        assert(xml@ =~= x0 + seq![' '] + attrs@[i as int].0@ + seq!['=', '"']
                            + attrs@[i as int].1@ + seq!['"']);
                        assert(next.last() == (attrs@[i as int].0@, attrs@[i as int].1@));
                        assert(render_attrs(next) == render_attrs(prev) + seq![' '] + next.last().0
                            + seq!['=', '"'] + next.last().1 + seq!['"']);
                        assert(xml@ =~= head + render_attrs(next));
                    }
                    i = i + 1;
                }
                assert(attrs_view(attrs@).subrange(0, i as int) =~= attrs_view(attrs@));
            },
            None => {
                assert(xml@ =~= head + Seq::<char>::empty());
            },
        }
        xml.append(">");
        match payload {
            Some(p) => {
                xml.append(p.as_str());
            },
            None => {},
        }
        xml.append("</");
        xml.append(action);
        xml.append(">");
        assert(xml@ =~= canonical(v));
        xml
}

/// One command issued by the model. It cannot be changed once built, so its
/// canonical form always matches its parts.
pub struct Invocation {
    action: String,
    attributes: Option<Vec<(String, String)>>,
    payload: Option<String>,
    xml: String,
}

impl View for Invocation {
    type V = InvocationView;

    closed spec fn view(&self) -> InvocationView {
        InvocationView {
            action: self.action@,
            attributes: opt_attrs_view(self.attributes),
            payload: opt_str_view(self.payload),
        }
    }
}

impl Invocation {
    #[verifier::type_invariant]
    closed spec fn well_formed(&self) -> bool {
        self.xml@ == canonical(self@)
    }

    /// Builds an invocation and its canonical form. The attributes, a
    /// mapping, are kept in key order, so that equal mappings give equal
    /// invocations.
    pub fn new(
        action: String,
        attributes: Option<Vec<(String, String)>>,
        payload: Option<String>,
    ) -> (r: Self)
        requires
            attributes matches Some(a) ==> crate::attrs::unique_keys(attrs_view(a@)),
        ensures
            r@ == (InvocationView {
                action: action@,
                attributes: sorted_attrs_view(attributes),
                payload: opt_str_view(payload),
            }),
    {
        let attributes = match attributes {
            Some(a) => Some(crate::attrs::sort_pairs(a)),
            None => None,
        };
        let xml = render_canonical(action.as_str(), &attributes, &payload);
        Invocation { action, attributes, payload, xml }
    }

    /// The canonical form of this invocation.
    pub fn to_structured_string(&self) -> (r: &str)
        ensures
            r@ == canonical(self@),
    {
        proof {
            use_type_invariant(self);
        }
        self.xml.as_str()
    }

    /// The action name.
    pub fn action(&self) -> (r: &str)
        ensures
            r@ == self@.action,
    {
        self.action.as_str()
    }

    /// Whether the action name is `name`.
    pub fn action_is(&self, name: &String) -> (r: bool)
        ensures
            r == (self@.action == name@),
    {
        self.action == *name
    }

    /// The attributes, when an attribute block was supplied.
    pub fn attributes(&self) -> (r: &Option<Vec<(String, String)>>)
        ensures
            opt_attrs_view(*r) == self@.attributes,
    {
        &self.attributes
    }

    /// The payload, when one was supplied.
    pub fn payload(&self) -> (r: &Option<String>)
        ensures
            opt_str_view(*r) == self@.payload,
    {
        &self.payload
    }
}

} // verus!

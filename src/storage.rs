//! Named memory slots that actions fill and prompts display.
use vstd::prelude::*;

verus! {

/// How a slot keeps its values.
#[derive(Clone, Copy, Debug, PartialEq, Eq, Structural)]
pub enum StorageKind {
    /// One current value, replaced on each write.
    Single,
    /// Every value written, in insertion order.
    List,
}

/// A namespace's demand for a slot.
pub struct StorageSpec {
    pub name: String,
    pub kind: StorageKind,
}

/// A named memory slot.
pub struct Storage {
    name: String,
    kind: StorageKind,
    items: Vec<String>,
}

/// The character views of a list of strings.
pub open spec fn strs_view(v: Seq<String>) -> Seq<Seq<char>> {
    v.map_values(|s: String| s@)
}

/// The abstract content of a slot.
pub struct StorageView {
    pub name: Seq<char>,
    pub kind: StorageKind,
    pub items: Seq<Seq<char>>,
}

/// The rank that orders slots for display: single-valued slots come first.
pub open spec fn kind_rank(k: StorageKind) -> nat {
    match k {
        StorageKind::Single => 0,
        StorageKind::List => 1,
    }
}

/// `- item` lines, one per value.
pub open spec fn render_list(items: Seq<Seq<char>>) -> Seq<char>
    decreases items.len(),
{
    if items.len() == 0 {
        Seq::empty()
    } else {
        render_list(items.drop_last()) + seq!['-', ' '] + items.last() + seq!['\n']
    }
}

/// The text block of a slot: a `## name` heading, then its values.
pub open spec fn render_storage(s: StorageView) -> Seq<char> {
    seq!['#', '#', ' '] + s.name + seq!['\n', '\n'] + match s.kind {
        StorageKind::Single => if s.items.len() == 0 {
            Seq::empty()
        } else {
            s.items[0] + seq!['\n']
        },
        StorageKind::List => render_list(s.items),
    }
}

impl View for Storage {
    type V = StorageView;

    closed spec fn view(&self) -> StorageView {
        StorageView { name: self.name@, kind: self.kind, items: strs_view(self.items@) }
    }
}

impl Storage {
    /// An empty slot.
    pub fn new(name: &str, kind: StorageKind) -> (r: Self)
        ensures
            r@ == (StorageView { name: name@, kind, items: Seq::empty() }),
    {
        let r = Storage { name: name.to_owned(), kind, items: Vec::new() };
        assert(strs_view(r.items@) =~= Seq::<Seq<char>>::empty());
        r
    }

    /// The slot's name.
    pub fn name(&self) -> (r: &str)
        ensures
            r@ == self@.name,
    {
        self.name.as_str()
    }

    /// Whether the slot is called `name`.
    pub fn name_is(&self, name: &String) -> (r: bool)
        ensures
            r == (self@.name == name@),
    {
        self.name == *name
    }

    /// The slot's kind.
    pub fn kind(&self) -> (r: StorageKind)
        ensures
            r == self@.kind,
    {
        self.kind
    }

    /// The values held, oldest first.
    pub fn items(&self) -> (r: &Vec<String>)
        ensures
            strs_view(r@) == self@.items,
    {
        &self.items
    }

    /// Makes `value` the only value of the slot.
    pub fn set_current(&mut self, value: &str)
        ensures
            final(self)@ == (StorageView { items: seq![value@], ..old(self)@ }),
    {
        self.items = Vec::new();
        self.items.push(value.to_owned());
        assert(strs_view(self.items@) =~= seq![value@]);
    }

    /// Stores `value`: it replaces the value of a single-valued slot and is
    /// appended to a list.
    pub fn add(&mut self, value: &str)
        ensures
            final(self)@.name == old(self)@.name,
            final(self)@.kind == old(self)@.kind,
            final(self)@.items == match old(self)@.kind {
                StorageKind::Single => seq![value@],
                StorageKind::List => old(self)@.items.push(value@),
            },
    {
        match self.kind {
            StorageKind::Single => {
                self.set_current(value);
            },
            StorageKind::List => {
                self.items.push(value.to_owned());
                assert(strs_view(self.items@) =~= strs_view(old(self).items@).push(value@));
            },
        }
    }

    /// The display rank of the slot's kind.
    pub fn get_type_int(&self) -> (r: u32)
        ensures
            r as nat == kind_rank(self@.kind),
    {
        match self.kind {
            StorageKind::Single => 0,
            StorageKind::List => 1,
        }
    }

    /// The slot as a text block for the prompt.
    pub fn to_structured_string(&self) -> (r: String)
        ensures
            r@ == render_storage(self@),
    {
        proof {
            reveal_strlit("## ");
            reveal_strlit("\n\n");
            reveal_strlit("\n");
        }
        let mut r = String::from_str("## ");
        r.append(self.name.as_str());
        r.append("\n\n");
        let ghost head = r@;
        match self.kind {
            StorageKind::Single => {
                if self.items.len() > 0 {
                    r.append(self.items[0].as_str());
                    r.append("\n");
                }
            },
            StorageKind::List => {
                let mut i: usize = 0;
                while i < self.items.len()
                    invariant
                        i <= self.items@.len(),
                        r@ == head + render_list(strs_view(self.items@).subrange(0, i as int)),
                    decreases self.items@.len() - i,
                {
                    proof {
                        reveal_strlit("- ");
                        reveal_strlit("\n");
                    }
                    let ghost before = r@;
                    r.append("- ");
                    r.append(self.items[i].as_str());
                    r.append("\n");
                    proof {
                        let next = strs_view(self.items@).subrange(0, i + 1);
                        assert(next.drop_last() =~= strs_view(self.items@).subrange(0, i as int));
                        assert(r@ =~= before + seq!['-', ' '] + next.last() + seq!['\n']);
                    }
                    i = i + 1;
                }
                assert(strs_view(self.items@).subrange(0, i as int) =~= strs_view(self.items@));
            },
        }
        assert(r@ =~= render_storage(self@));
        r
    }
}

} // verus!

//! Parsing the canonical form of an invocation gives the invocation back.
use crate::invocation::{canonical, closing_tag, render_attrs, AttrsModel, InvocationView};
use crate::parser::{
    collect_attrs, find_char, find_name_end, find_seq, key_index, matches_at, parse_from,
    parse_spec, payload_of, scan_attrs, tag_at,
};
use crate::text::{blank, trim, trim_end, trim_start, whitespace};
use crate::attrs::{lemma_sort_attrs, lemma_sorted_unique, sort_attrs, sorted_strict, unique_keys};
use vstd::prelude::*;

verus! {

/// Whether `s` is non-empty and neither starts nor ends with whitespace.
pub open spec fn is_trimmed(s: Seq<char>) -> bool {
    s.len() > 0 && !blank(s[0]) && !blank(s.last())
}

/// Whether `name` can stand as a tag name: no space and no `>` in it.
pub open spec fn valid_action(name: Seq<char>) -> bool {
    forall|i: int| 0 <= i < name.len() ==> name[i] != ' ' && name[i] != '>'
}

/// Whether `p` can stand as the payload of `name`: trimmed, not opening with
/// `<`, and holding no closing tag of `name` before its own end.
pub open spec fn valid_payload(name: Seq<char>, p: Seq<char>) -> bool {
    &&& is_trimmed(p)
    &&& p[0] != '<'
    &&& forall|j: int| 0 <= j < p.len() ==> !matches_at(p + closing_tag(name), closing_tag(name), j)
}

proof fn lemma_find_char_at(s: Seq<char>, c: char, from: int, end: int, i: int)
    requires
        0 <= from <= i < end <= s.len(),
        s[i] == c,
        forall|j: int| from <= j < i ==> s[j] != c,
    ensures
        find_char(s, c, from, end) == Some(i),
    decreases i - from,
{
    if from < i {
        lemma_find_char_at(s, c, from + 1, end, i);
    }
}

proof fn lemma_find_name_end_at(s: Seq<char>, from: int, i: int)
    requires
        0 <= from <= i < s.len(),
        s[i] == ' ' || s[i] == '>',
        forall|j: int| from <= j < i ==> s[j] != ' ' && s[j] != '>',
    ensures
        find_name_end(s, from) == Some(i),
    decreases i - from,
{
    if from < i {
        lemma_find_name_end_at(s, from + 1, i);
    }
}

proof fn lemma_find_seq_at(s: Seq<char>, pat: Seq<char>, from: int, i: int)
    requires
        0 <= from <= i,
        pat.len() > 0,
        matches_at(s, pat, i),
        forall|j: int| from <= j < i ==> !matches_at(s, pat, j),
    ensures
        find_seq(s, pat, from) == Some(i),
    decreases i - from,
{
    if from < i {
        lemma_find_seq_at(s, pat, from + 1, i);
    }
}

proof fn lemma_trim_trimmed(s: Seq<char>)
    requires
        is_trimmed(s),
    ensures
        trim(s) == s,
{
    assert(trim_start(s) == s);
    assert(trim_end(s) == s);
}

/// An invocation comes back unchanged from parsing its canonical form, when
/// its name holds no space or `>`; its attributes, if supplied, are a
/// non-empty key-ordered list, as `Invocation::new` keeps them, of unique
/// trimmed keys without `=` or `>` and trimmed values
/// without `"` or `>`; and its payload, if any, is trimmed, does not open with
/// `<` and holds no closing tag of the invocation.
#[verifier::rlimit(40)]
pub proof fn lemma_round_trip(
    action: Seq<char>,
    attributes: Option<AttrsModel>,
    payload: Option<Seq<char>>,
)
    requires
        valid_action(action),
        attributes matches Some(a) ==> a.len() > 0 && valid_attrs(a) && sorted_strict(a),
        payload matches Some(p) ==> valid_payload(action, p),
    ensures
        parse_spec(canonical(InvocationView { action, attributes, payload })) == seq![
            InvocationView { action, attributes, payload },
        ],
{
    let v = InvocationView { action, attributes, payload };
    let s = canonical(v);
    let n = action.len() as int;
    let rendered = match attributes {
        Some(a) => render_attrs(a),
        None => Seq::<char>::empty(),
    };
    let m = rendered.len() as int;
    let body = match payload {
        Some(p) => p,
        None => Seq::<char>::empty(),
    };
    let pat = closing_tag(action);
    let head = seq!['<'] + action + rendered + seq!['>'];
    assert(s =~= head + body + pat);
    let b = body.len() as int;
    let t = 1 + n;
    let gt = 1 + n + m;
    assert(s.len() == n + m + 2 + b + n + 3);
    lemma_find_char_at(s, '<', 0, s.len() as int, 0);
    assert forall|j: int| 1 <= j < t implies s[j] != ' ' && s[j] != '>' by {
        assert(s[j] == action[j - 1]);
    }
    match attributes {
        Some(a) => {
            lemma_render_front(a);
            lemma_render_no_gt(a);
            assert(s[t] == rendered[0]);
            assert forall|j: int| t <= j < gt implies s[j] != '>' by {
                assert(s[j] == rendered[j - t]);
            }
            assert(s[gt] == '>');
            assert(s.subrange(t + 1, gt) =~= pair_text(a[0]) + render_attrs(a.drop_first()));
            assert(Seq::<char>::empty() + pair_text(a[0]) =~= pair_text(a[0]));
            lemma_scan_rendered(s, t + 1, gt, a, Seq::<char>::empty());
            lemma_collect_unique(a);
            assert(unique_keys(a));
            lemma_sort_attrs(a);
            lemma_sorted_unique(sort_attrs(a), a);
            assert(sort_attrs(collect_attrs(scan_attrs(s, t + 1, gt))) == a);
        },
        None => {
            assert(s[t] == '>');
        },
    }
    lemma_find_name_end_at(s, 1, t);
    assert(s.subrange(1, t) =~= action);
    lemma_find_char_at(s, '>', t, s.len() as int, gt);
    let c = gt + 1 + b;
    assert(s.subrange(c, c + pat.len()) =~= pat);
    assert forall|j: int| gt + 1 <= j < c implies !matches_at(s, pat, j) by {
        let q = body + pat;
        assert(!matches_at(q, pat, j - (gt + 1)));
        if j + pat.len() <= s.len() {
            assert(s.subrange(j, j + pat.len()) =~= q.subrange(
                j - (gt + 1),
                j - (gt + 1) + pat.len(),
            ));
        }
    }
    lemma_find_seq_at(s, pat, gt + 1, c);
    assert(s.subrange(gt + 1, c) =~= body);
    match payload {
        Some(p) => {
            lemma_trim_trimmed(p);
            assert(payload_of(body) == Some(p));
        },
        None => {},
    }
    assert(tag_at(s, 0) == Some((v, c + n + 3)));
    assert(parse_from(s, s.len() as int) =~= Seq::<InvocationView>::empty());
    assert(parse_from(s, 0) =~= seq![v] + parse_from(s, s.len() as int));
}

} // verus!

verus! {

/// Whether `k` can stand as an attribute key: trimmed, without `=` or `>`.
pub open spec fn valid_key(k: Seq<char>) -> bool {
    is_trimmed(k) && forall|i: int| 0 <= i < k.len() ==> k[i] != '=' && k[i] != '>'
}

/// Whether `v` can stand as an attribute value: trimmed, without `"` or `>`.
pub open spec fn valid_value(v: Seq<char>) -> bool {
    is_trimmed(v) && forall|i: int| 0 <= i < v.len() ==> v[i] != '"' && v[i] != '>'
}

/// Whether every pair of `a` renders and parses back, keys being unique.
pub open spec fn valid_attrs(a: AttrsModel) -> bool {
    &&& forall|i: int| 0 <= i < a.len() ==> valid_key(#[trigger] a[i].0) && valid_value(a[i].1)
    &&& forall|i: int, j: int| 0 <= i < j < a.len() ==> (#[trigger] a[i].0) != (#[trigger] a[j].0)
}

/// `k="v"` for one pair.
pub open spec fn pair_text(p: (Seq<char>, Seq<char>)) -> Seq<char> {
    p.0 + seq!['=', '"'] + p.1 + seq!['"']
}

proof fn lemma_render_front(a: AttrsModel)
    requires
        a.len() > 0,
    ensures
        render_attrs(a) == seq![' '] + pair_text(a[0]) + render_attrs(a.drop_first()),
    decreases a.len(),
{
    if a.len() == 1 {
        assert(a.drop_last() =~= Seq::<(Seq<char>, Seq<char>)>::empty());
        assert(a.drop_first() =~= Seq::<(Seq<char>, Seq<char>)>::empty());
        assert(render_attrs(a) =~= seq![' '] + pair_text(a[0]) + render_attrs(a.drop_first()));
    } else {
        lemma_render_front(a.drop_last());
        assert(a.drop_last().drop_first() =~= a.drop_first().drop_last());
        assert(a.drop_first().last() == a.last());
        assert(render_attrs(a) =~= seq![' '] + pair_text(a[0]) + render_attrs(a.drop_first()));
    }
}

proof fn lemma_render_no_gt(a: AttrsModel)
    requires
        valid_attrs(a),
    ensures
        forall|i: int| 0 <= i < render_attrs(a).len() ==> render_attrs(a)[i] != '>',
    decreases a.len(),
{
    if a.len() > 0 {
        let r = a.drop_last();
        assert(valid_attrs(r)) by {
            assert forall|i: int| 0 <= i < r.len() implies valid_key(#[trigger] r[i].0)
                && valid_value(r[i].1) by {
                assert(r[i] == a[i]);
            }
            assert forall|i: int, j: int| 0 <= i < j < r.len() implies (#[trigger] r[i].0) != (
            #[trigger] r[j].0) by {
                assert(r[i] == a[i] && r[j] == a[j]);
            }
        }
        lemma_render_no_gt(r);
        let k = a.last().0;
        let v = a.last().1;
        assert(valid_key(a[a.len() - 1].0));
        let x = render_attrs(r) + seq![' '] + k + seq!['=', '"'] + v + seq!['"'];
        assert(render_attrs(a) == x);
        assert forall|i: int| 0 <= i < x.len() implies x[i] != '>' by {
            let l0 = render_attrs(r).len() as int;
            if i < l0 {
                assert(x[i] == render_attrs(r)[i]);
            } else if i == l0 {
            } else if i < l0 + 1 + k.len() {
                assert(x[i] == k[i - l0 - 1]);
            } else if i < l0 + 3 + k.len() {
            } else if i < l0 + 3 + k.len() + v.len() {
                assert(x[i] == v[i - l0 - 3 - k.len()]);
            }
        }
    }
}

proof fn lemma_trim_lead(pre: Seq<char>, k: Seq<char>)
    requires
        is_trimmed(k),
        pre == Seq::<char>::empty() || pre == seq![' '],
    ensures
        trim(pre + k) == k,
{
    lemma_trim_trimmed(k);
    if pre.len() == 1 {
        reveal(whitespace);
        assert(blank(' '));
        assert((pre + k).drop_first() =~= k);
        assert(trim_start(pre + k) == trim_start(k));
    } else {
        assert(pre + k =~= k);
    }
}

#[verifier::rlimit(40)]
proof fn lemma_scan_rendered(s: Seq<char>, p: int, end: int, a: AttrsModel, pre: Seq<char>)
    requires
        0 <= p <= end <= s.len(),
        valid_attrs(a),
        pre == Seq::<char>::empty() || pre == seq![' '],
        a.len() == 0 ==> p == end,
        a.len() > 0 ==> s.subrange(p, end) == pre + pair_text(a[0]) + render_attrs(
            a.drop_first(),
        ),
    ensures
        scan_attrs(s, p, end) == a,
    decreases a.len(),
{
    if a.len() == 0 {
        assert(scan_attrs(s, p, end) =~= a);
    } else {
        let k = a[0].0;
        let v = a[0].1;
        assert(valid_key(a[0].0) && valid_value(a[0].1));
        let rest = a.drop_first();
        let region = pre + pair_text(a[0]) + render_attrs(rest);
        let e = p + pre.len() + k.len();
        let q = e + 2 + v.len();
        assert(s.subrange(p, end).len() == end - p);
        assert(region.len() == end - p);
        assert(region.len() == pre.len() + k.len() + 3 + v.len() + render_attrs(rest).len());
        assert forall|j: int| 0 <= j < region.len() implies s[p + j] == region[j] by {
            assert(s.subrange(p, end)[j] == s[p + j]);
        }
        assert forall|j: int| p <= j < e implies s[j] != '=' by {
            assert(s[j] == region[j - p]);
            if j - p >= pre.len() {
                assert(region[j - p] == k[j - p - pre.len()]);
            }
        }
        assert(s[e] == region[e - p]);
        assert(s[e] == '=');
        lemma_find_char_at(s, '=', p, end, e);
        assert(s[p] == region[0]);
        assert(s[p] != '=') by {
            if pre.len() == 0 {
                assert(region[0] == k[0]);
            }
        }
        assert(s[e + 1] == region[e + 1 - p]);
        assert(s[e + 1] == '"');
        assert forall|j: int| e + 2 <= j < q implies s[j] != '"' by {
            assert(s[j] == region[j - p]);
            assert(region[j - p] == v[j - e - 2]);
        }
        assert(s[q] == region[q - p]);
        assert(s[q] == '"');
        lemma_find_char_at(s, '"', e + 2, end, q);
        assert(s.subrange(p, e) =~= pre + k);
        assert forall|i: int| 0 <= i < v.len() implies s.subrange(e + 2, q)[i] == v[i] by {
            assert(s[e + 2 + i] == region[e + 2 + i - p]);
            assert(region[e + 2 + i - p] == v[i]);
        }
        assert(s.subrange(e + 2, q) =~= v);
        let tail = render_attrs(rest);
        assert(region.len() == q + 1 - p + tail.len());
        assert forall|i: int| 0 <= i < tail.len() implies s.subrange(q + 1, end)[i] == tail[i] by {
            assert(s[q + 1 + i] == region[q + 1 + i - p]);
            assert(region[q + 1 + i - p] == tail[i]);
        }
        assert(s.subrange(q + 1, end) =~= tail);
        lemma_trim_lead(pre, k);
        lemma_trim_trimmed(v);
        let ra = rest;
        assert(valid_attrs(ra)) by {
            assert forall|i: int| 0 <= i < ra.len() implies valid_key(#[trigger] ra[i].0)
                && valid_value(ra[i].1) by {
                assert(ra[i] == a[i + 1]);
            }
            assert forall|i: int, j: int| 0 <= i < j < ra.len() implies (#[trigger] ra[i].0) != (
            #[trigger] ra[j].0) by {
                assert(ra[i] == a[i + 1] && ra[j] == a[j + 1]);
            }
        }
        if ra.len() > 0 {
            lemma_render_front(ra);
            assert(s.subrange(q + 1, end) =~= seq![' '] + pair_text(ra[0]) + render_attrs(
                ra.drop_first(),
            ));
        } else {
            assert(render_attrs(ra) =~= Seq::<char>::empty());
            assert(region.len() == q + 1 - p);
        }
        lemma_scan_rendered(s, q + 1, end, ra, seq![' ']);
        assert(scan_attrs(s, p, end) == seq![(k, v)] + scan_attrs(s, q + 1, end));
        assert(seq![(k, v)] + ra =~= a);
    }
}

proof fn lemma_collect_unique(a: AttrsModel)
    requires
        forall|i: int, j: int| 0 <= i < j < a.len() ==> (#[trigger] a[i].0) != (#[trigger] a[j].0),
    ensures
        collect_attrs(a) == a,
    decreases a.len(),
{
    if a.len() > 0 {
        let r = a.drop_last();
        assert forall|i: int, j: int| 0 <= i < j < r.len() implies (#[trigger] r[i].0) != (
        #[trigger] r[j].0) by {
            assert(r[i] == a[i] && r[j] == a[j]);
        }
        lemma_collect_unique(r);
        lemma_key_absent(r, a.last().0, 0);
        assert(r.push(a.last()) =~= a);
    }
}

proof fn lemma_key_absent(m: AttrsModel, k: Seq<char>, from: int)
    requires
        0 <= from,
        forall|i: int| from <= i < m.len() ==> m[i].0 != k,
    ensures
        key_index(m, k, from) is None,
    decreases m.len() - from,
{
    if from < m.len() {
        lemma_key_absent(m, k, from + 1);
    }
}

} // verus!

//! Attribute lists kept in key order, so that equal mappings are equal lists.
use crate::invocation::{attrs_view, AttrsModel};
use crate::text::chars_of;
use vstd::prelude::*;

verus! {

/// Lexicographic order of keys, by code point.
pub open spec fn key_lt(a: Seq<char>, b: Seq<char>) -> bool
    decreases a.len(),
{
    if a.len() == 0 {
        b.len() > 0
    } else if b.len() == 0 {
        false
    } else if a[0] != b[0] {
        a[0] < b[0]
    } else {
        key_lt(a.drop_first(), b.drop_first())
    }
}

/// Whether the keys of `s` strictly increase.
pub open spec fn sorted_strict(s: AttrsModel) -> bool {
    forall|i: int, j: int| 0 <= i < j < s.len() ==> key_lt(#[trigger] s[i].0, #[trigger] s[j].0)
}

/// Whether no key occurs twice in `s`.
pub open spec fn unique_keys(s: AttrsModel) -> bool {
    forall|i: int, j: int| 0 <= i < j < s.len() ==> (#[trigger] s[i].0) != (#[trigger] s[j].0)
}

/// Whether two attribute lists hold the same pairs.
pub open spec fn same_entries(a: AttrsModel, b: AttrsModel) -> bool {
    &&& forall|i: int| 0 <= i < a.len() ==> b.contains(#[trigger] a[i])
    &&& forall|j: int| 0 <= j < b.len() ==> a.contains(#[trigger] b[j])
}

/// Index of the first pair of `m` whose key comes after `k`, or `m.len()`.
pub open spec fn insert_pos(m: AttrsModel, k: Seq<char>, from: int) -> int
    decreases m.len() - from,
{
    if from < 0 || from >= m.len() {
        m.len() as int
    } else if key_lt(k, m[from].0) {
        from
    } else {
        insert_pos(m, k, from + 1)
    }
}

/// The pairs of `a` in key order.
pub open spec fn sort_attrs(a: AttrsModel) -> AttrsModel
    decreases a.len(),
{
    if a.len() == 0 {
        Seq::empty()
    } else {
        let m = sort_attrs(a.drop_last());
        m.insert(insert_pos(m, a.last().0, 0), a.last())
    }
}

proof fn lemma_lt_irreflexive(a: Seq<char>)
    ensures
        !key_lt(a, a),
    decreases a.len(),
{
    if a.len() > 0 {
        lemma_lt_irreflexive(a.drop_first());
    }
}

proof fn lemma_lt_asymmetric(a: Seq<char>, b: Seq<char>)
    ensures
        !(key_lt(a, b) && key_lt(b, a)),
    decreases a.len(),
{
    if a.len() > 0 && b.len() > 0 && a[0] == b[0] {
        lemma_lt_asymmetric(a.drop_first(), b.drop_first());
    }
}

proof fn lemma_lt_total(a: Seq<char>, b: Seq<char>)
    requires
        a != b,
    ensures
        key_lt(a, b) || key_lt(b, a),
    decreases a.len(),
{
    if a.len() > 0 && b.len() > 0 && a[0] == b[0] {
        if a.drop_first() == b.drop_first() {
            assert(a =~= seq![a[0]] + a.drop_first());
            assert(b =~= seq![b[0]] + b.drop_first());
        }
        lemma_lt_total(a.drop_first(), b.drop_first());
    } else if a.len() == 0 && b.len() == 0 {
        assert(a =~= b);
    } else if a.len() > 0 && b.len() > 0 {
        assert(a[0] != b[0]);
    }
}

proof fn lemma_lt_transitive(a: Seq<char>, b: Seq<char>, c: Seq<char>)
    requires
        key_lt(a, b),
        key_lt(b, c),
    ensures
        key_lt(a, c),
    decreases a.len(),
{
    if a.len() > 0 && b.len() > 0 && c.len() > 0 && a[0] == b[0] && b[0] == c[0] {
        lemma_lt_transitive(a.drop_first(), b.drop_first(), c.drop_first());
    }
}

proof fn lemma_insert_pos(m: AttrsModel, k: Seq<char>, from: int)
    requires
        0 <= from <= m.len(),
    ensures
        from <= insert_pos(m, k, from) <= m.len(),
        forall|j: int| from <= j < insert_pos(m, k, from) ==> !key_lt(k, #[trigger] m[j].0),
        insert_pos(m, k, from) < m.len() ==> key_lt(k, m[insert_pos(m, k, from)].0),
    decreases m.len() - from,
{
    if from < m.len() && !key_lt(k, m[from].0) {
        lemma_insert_pos(m, k, from + 1);
    }
}

/// Sorting keeps the pairs, and orders the keys when they are unique.
pub proof fn lemma_sort_attrs(a: AttrsModel)
    requires
        unique_keys(a),
    ensures
        sorted_strict(sort_attrs(a)),
        same_entries(sort_attrs(a), a),
        sort_attrs(a).len() == a.len(),
    decreases a.len(),
{
    if a.len() > 0 {
        let r = a.drop_last();
        assert(unique_keys(r)) by {
            assert forall|i: int, j: int| 0 <= i < j < r.len() implies (#[trigger] r[i].0) != (
            #[trigger] r[j].0) by {
                assert(r[i] == a[i] && r[j] == a[j]);
            }
        }
        lemma_sort_attrs(r);
        let m = sort_attrs(r);
        let p = a.last();
        lemma_insert_pos(m, p.0, 0);
        let pos = insert_pos(m, p.0, 0);
        let s = m.insert(pos, p);
        assert(s == sort_attrs(a));
        assert forall|j: int| 0 <= j < m.len() implies m[j].0 != p.0 by {
            assert(r.contains(m[j]));
            let x = choose|x: int| 0 <= x < r.len() && r[x] == m[j];
            assert(a[x] == r[x]);
            assert(a[a.len() - 1] == p);
        }
        assert forall|i: int, j: int| 0 <= i < j < s.len() implies key_lt(
            #[trigger] s[i].0,
            #[trigger] s[j].0,
        ) by {
            if j < pos {
                assert(s[i] == m[i] && s[j] == m[j]);
            } else if j == pos {
                assert(s[i] == m[i] && s[j] == p);
                assert(!key_lt(p.0, m[i].0));
                lemma_lt_total(p.0, m[i].0);
            } else if i == pos {
                assert(s[j] == m[j - 1]);
                if j - 1 > pos {
                    assert(key_lt(m[pos].0, m[j - 1].0));
                    lemma_lt_transitive(p.0, m[pos].0, m[j - 1].0);
                }
            } else if i < pos {
                assert(s[i] == m[i] && s[j] == m[j - 1]);
            } else {
                assert(s[i] == m[i - 1] && s[j] == m[j - 1]);
            }
        }
        assert forall|i: int| 0 <= i < s.len() implies a.contains(#[trigger] s[i]) by {
            if i < pos {
                assert(s[i] == m[i]);
                assert(r.contains(m[i]));
                let x = choose|x: int| 0 <= x < r.len() && r[x] == m[i];
                assert(a[x] == r[x]);
            } else if i == pos {
                assert(a[a.len() - 1] == s[i]);
            } else {
                assert(s[i] == m[i - 1]);
                assert(r.contains(m[i - 1]));
                let x = choose|x: int| 0 <= x < r.len() && r[x] == m[i - 1];
                assert(a[x] == r[x]);
            }
        }
        assert forall|j: int| 0 <= j < a.len() implies s.contains(#[trigger] a[j]) by {
            if j == a.len() - 1 {
                assert(s[pos] == a[j]);
            } else {
                assert(a[j] == r[j]);
                assert(m.contains(r[j]));
                let x = choose|x: int| 0 <= x < m.len() && m[x] == r[j];
                if x < pos {
                    assert(s[x] == m[x]);
                } else {
                    assert(s[x + 1] == m[x]);
                }
            }
        }
    }
}

/// Two key-ordered lists with the same pairs are the same list.
pub proof fn lemma_sorted_unique(s1: AttrsModel, s2: AttrsModel)
    requires
        sorted_strict(s1),
        sorted_strict(s2),
        same_entries(s1, s2),
    ensures
        s1 == s2,
    decreases s1.len(),
{
    if s1.len() == 0 {
        if s2.len() > 0 {
            assert(s1.contains(s2[0]));
        }
        assert(s1 =~= s2);
    } else {
        assert(s2.contains(s1[0]));
        let j = choose|j: int| 0 <= j < s2.len() && s2[j] == s1[0];
        assert(s1.contains(s2[0]));
        let i = choose|i: int| 0 <= i < s1.len() && s1[i] == s2[0];
        lemma_lt_irreflexive(s1[0].0);
        if i > 0 && j > 0 {
            assert(key_lt(s1[0].0, s1[i].0));
            assert(key_lt(s2[0].0, s2[j].0));
            lemma_lt_asymmetric(s1[0].0, s2[0].0);
        } else if i > 0 {
            assert(key_lt(s1[0].0, s1[i].0));
        } else if j > 0 {
            assert(key_lt(s2[0].0, s2[j].0));
            lemma_lt_irreflexive(s2[0].0);
        }
        assert(s1[0] == s2[0]);
        let t1 = s1.drop_first();
        let t2 = s2.drop_first();
        assert forall|m: int| 0 <= m < t1.len() implies t2.contains(#[trigger] t1[m]) by {
            assert(s1[m + 1] == t1[m]);
            assert(s2.contains(s1[m + 1]));
            let n = choose|n: int| 0 <= n < s2.len() && s2[n] == s1[m + 1];
            assert(key_lt(s1[0].0, s1[m + 1].0));
            if n == 0 {
                lemma_lt_irreflexive(s1[0].0);
            } else {
                assert(t2[n - 1] == s2[n]);
            }
        }
        assert forall|m: int| 0 <= m < t2.len() implies t1.contains(#[trigger] t2[m]) by {
            assert(s2[m + 1] == t2[m]);
            assert(s1.contains(s2[m + 1]));
            let n = choose|n: int| 0 <= n < s1.len() && s1[n] == s2[m + 1];
            assert(key_lt(s2[0].0, s2[m + 1].0));
            if n == 0 {
                lemma_lt_irreflexive(s2[0].0);
            } else {
                assert(t1[n - 1] == s1[n]);
            }
        }
        assert(sorted_strict(t1)) by {
            assert forall|x: int, y: int| 0 <= x < y < t1.len() implies key_lt(
                #[trigger] t1[x].0,
                #[trigger] t1[y].0,
            ) by {
                assert(t1[x] == s1[x + 1] && t1[y] == s1[y + 1]);
            }
        }
        assert(sorted_strict(t2)) by {
            assert forall|x: int, y: int| 0 <= x < y < t2.len() implies key_lt(
                #[trigger] t2[x].0,
                #[trigger] t2[y].0,
            ) by {
                assert(t2[x] == s2[x + 1] && t2[y] == s2[y + 1]);
            }
        }
        lemma_sorted_unique(t1, t2);
        assert(s1 =~= seq![s1[0]] + t1);
        assert(s2 =~= seq![s2[0]] + t2);
    }
}

} // verus!

verus! {

fn key_less(a: &String, b: &String) -> (r: bool)
    ensures
        r == key_lt(a@, b@),
{
    let x = chars_of(a.as_str());
    let y = chars_of(b.as_str());
    let mut k: usize = 0;
    assert(x@.subrange(0, x@.len() as int) =~= x@);
    assert(y@.subrange(0, y@.len() as int) =~= y@);
    while k < x.len() && k < y.len() && x[k] == y[k]
        invariant
            k <= x@.len(),
            k <= y@.len(),
            key_lt(a@, b@) == key_lt(
                x@.subrange(k as int, x@.len() as int),
                y@.subrange(k as int, y@.len() as int),
            ),
        decreases x@.len() - k,
    {
        assert(x@.subrange(k as int, x@.len() as int).drop_first() =~= x@.subrange(
            k + 1,
            x@.len() as int,
        ));
        assert(y@.subrange(k as int, y@.len() as int).drop_first() =~= y@.subrange(
            k + 1,
            y@.len() as int,
        ));
        k = k + 1;
    }
    if k == x.len() {
        k < y.len()
    } else if k == y.len() {
        false
    } else {
        x[k] < y[k]
    }
}

/// The pairs of `v` in key order.
pub fn sort_pairs(v: Vec<(String, String)>) -> (r: Vec<(String, String)>)
    ensures
        attrs_view(r@) == sort_attrs(attrs_view(v@)),
{
    let ghost a = attrs_view(v@);
    let total = v.len();
    let mut rest = v;
    let mut out: Vec<(String, String)> = Vec::new();
    let mut k: usize = 0;
    assert(a.subrange(0, 0) =~= Seq::<(Seq<char>, Seq<char>)>::empty());
    assert(attrs_view(rest@) =~= a.subrange(0, total as int));
    while k < total
        invariant
            total == a.len(),
            k <= total,
            rest@.len() == total - k,
            attrs_view(rest@) == a.subrange(k as int, total as int),
            attrs_view(out@) == sort_attrs(a.subrange(0, k as int)),
        decreases total - k,
    {
        let ghost before = rest@;
        let p = rest.remove(0);
        assert(attrs_view(before)[0] == (p.0@, p.1@));
        assert(attrs_view(rest@) =~= a.subrange(k + 1, total as int)) by {
            assert forall|j: int| 0 <= j < rest@.len() implies attrs_view(rest@)[j] == a.subrange(
                k + 1,
                total as int,
            )[j] by {
                assert(rest@[j] == before[j + 1]);
                assert(attrs_view(before)[j + 1] == a.subrange(k as int, total as int)[j + 1]);
            }
        }
        let ghost m = attrs_view(out@);
        let mut pos: usize = 0;
        while pos < out.len() && !key_less(&p.0, &out[pos].0)
            invariant
                pos <= out@.len(),
                m == attrs_view(out@),
                insert_pos(m, p.0@, 0) == insert_pos(m, p.0@, pos as int),
            decreases out@.len() - pos,
        {
            pos = pos + 1;
        }
        let ghost pv = (p.0@, p.1@);
        out.insert(pos, p);
        proof {
            let next = a.subrange(0, k + 1);
            assert(next.drop_last() =~= a.subrange(0, k as int));
            assert(next.last() == pv);
            assert(attrs_view(out@) =~= m.insert(pos as int, pv));
        }
        k = k + 1;
    }
    assert(a.subrange(0, total as int) =~= a);
    out
}

} // verus!

verus! {

/// Invocations built from the same action, payload and attribute mapping
/// have the same canonical form, in whatever order the pairs were listed.
pub proof fn lemma_canonical_by_mapping(
    action: Seq<char>,
    a1: AttrsModel,
    a2: AttrsModel,
    payload: Option<Seq<char>>,
)
    requires
        unique_keys(a1),
        unique_keys(a2),
        same_entries(a1, a2),
    ensures
        crate::invocation::canonical(
            crate::invocation::InvocationView {
                action,
                attributes: Some(sort_attrs(a1)),
                payload,
            },
        ) == crate::invocation::canonical(
            crate::invocation::InvocationView {
                action,
                attributes: Some(sort_attrs(a2)),
                payload,
            },
        ),
{
    lemma_sort_attrs(a1);
    lemma_sort_attrs(a2);
    let s1 = sort_attrs(a1);
    let s2 = sort_attrs(a2);
    assert forall|i: int| 0 <= i < s1.len() implies s2.contains(#[trigger] s1[i]) by {
        assert(a1.contains(s1[i]));
        let x = choose|x: int| 0 <= x < a1.len() && a1[x] == s1[i];
        assert(a2.contains(a1[x]));
        let y = choose|y: int| 0 <= y < a2.len() && a2[y] == a1[x];
        assert(s2.contains(a2[y]));
    }
    assert forall|i: int| 0 <= i < s2.len() implies s1.contains(#[trigger] s2[i]) by {
        assert(a2.contains(s2[i]));
        let x = choose|x: int| 0 <= x < a2.len() && a2[x] == s2[i];
        assert(a1.contains(a2[x]));
        let y = choose|y: int| 0 <= y < a1.len() && a1[y] == a2[x];
        assert(s1.contains(a1[y]));
    }
    lemma_sorted_unique(s1, s2);
}

} // verus!

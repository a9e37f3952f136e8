//! Tolerant recovery of tagged commands from free-form model output.
//!
//! The grammar is a narrow subset of tag markup: `<name k="v">payload</name>`,
//! one level deep. A fragment that does not fit is skipped, never reported.
use crate::invocation::{
    attrs_view,
    canonical, closing_tag, opt_attrs_view, opt_str_view, AttrsModel, Invocation, InvocationView,
};
use crate::text::{chars_of, trim, trim_bounds};
use vstd::prelude::*;

verus! {

/// First index `i` in `from..end` with `s[i] == c`.
pub open spec fn find_char(s: Seq<char>, c: char, from: int, end: int) -> Option<int>
    decreases end - from,
{
    if from < 0 || from >= end || end > s.len() {
        None
    } else if s[from] == c {
        Some(from)
    } else {
        find_char(s, c, from + 1, end)
    }
}

/// First index at or after `from` that holds a space or `>`: where a tag name ends.
pub open spec fn find_name_end(s: Seq<char>, from: int) -> Option<int>
    decreases s.len() - from,
{
    if from < 0 || from >= s.len() {
        None
    } else if s[from] == ' ' || s[from] == '>' {
        Some(from)
    } else {
        find_name_end(s, from + 1)
    }
}

/// Whether `pat` occurs in `s` at index `i`.
pub open spec fn matches_at(s: Seq<char>, pat: Seq<char>, i: int) -> bool {
    0 <= i && i + pat.len() <= s.len() && s.subrange(i, i + pat.len()) == pat
}

/// First index at or after `from` where `pat` occurs in `s`.
pub open spec fn find_seq(s: Seq<char>, pat: Seq<char>, from: int) -> Option<int>
    decreases s.len() - from,
{
    if from < 0 || from >= s.len() || from + pat.len() > s.len() {
        None
    } else if matches_at(s, pat, from) {
        Some(from)
    } else {
        find_seq(s, pat, from + 1)
    }
}

/// The `key="value"` pairs found in `s[p..end]`, in order, each trimmed.
/// A key is a run of characters other than `=`; a value is a non-empty run of
/// characters other than `"` between quotes. Text that fits no pair is skipped.
pub open spec fn scan_attrs(s: Seq<char>, p: int, end: int) -> AttrsModel
    decreases end - p,
{
    if p < 0 || p >= end || end > s.len() {
        Seq::empty()
    } else if s[p] == '=' {
        scan_attrs(s, p + 1, end)
    } else {
        match find_char(s, '=', p, end) {
            None => Seq::empty(),
            Some(e) => {
                if e < p || e >= end {
                    Seq::empty()
                } else if e + 1 < end && s[e + 1] == '"' {
                    match find_char(s, '"', e + 2, end) {
                        Some(q) => {
                            if q > e + 2 && q < end {
                                seq![(trim(s.subrange(p, e)), trim(s.subrange(e + 2, q)))]
                                    + scan_attrs(s, q + 1, end)
                            } else {
                                scan_attrs(s, e + 1, end)
                            }
                        },
                        None => scan_attrs(s, e + 1, end),
                    }
                } else {
                    scan_attrs(s, e + 1, end)
                }
            },
        }
    }
}

/// First index in `m` whose key is `k`, at or after `from`.
pub open spec fn key_index(m: AttrsModel, k: Seq<char>, from: int) -> Option<int>
    decreases m.len() - from,
{
    if from < 0 || from >= m.len() {
        None
    } else if m[from].0 == k {
        Some(from)
    } else {
        key_index(m, k, from + 1)
    }
}

/// `m` with `k` set to `v`: an existing key keeps its place, a new one goes last.
pub open spec fn attr_insert(m: AttrsModel, k: Seq<char>, v: Seq<char>) -> AttrsModel {
    match key_index(m, k, 0) {
        Some(i) => m.update(i, (k, v)),
        None => m.push((k, v)),
    }
}

/// The mapping that the pairs build, the last occurrence of a key winning.
pub open spec fn collect_attrs(pairs: AttrsModel) -> AttrsModel
    decreases pairs.len(),
{
    if pairs.len() == 0 {
        Seq::empty()
    } else {
        attr_insert(collect_attrs(pairs.drop_last()), pairs.last().0, pairs.last().1)
    }
}

/// The payload of a tag body: absent when empty or when it opens with `<`.
pub open spec fn payload_of(body: Seq<char>) -> Option<Seq<char>> {
    if body.len() > 0 && body[0] != '<' {
        Some(trim(body))
    } else {
        None
    }
}

proof fn lemma_key_index_none(m: AttrsModel, k: Seq<char>, from: int)
    requires
        0 <= from,
        key_index(m, k, from) is None,
    ensures
        forall|j: int| from <= j < m.len() ==> m[j].0 != k,
    decreases m.len() - from,
{
    if from < m.len() {
        lemma_key_index_none(m, k, from + 1);
    }
}

proof fn lemma_key_index_some(m: AttrsModel, k: Seq<char>, from: int)
    requires
        0 <= from,
        key_index(m, k, from) is Some,
    ensures
        0 <= key_index(m, k, from)->0 < m.len(),
        m[key_index(m, k, from)->0].0 == k,
    decreases m.len() - from,
{
    if from < m.len() && m[from].0 != k {
        lemma_key_index_some(m, k, from + 1);
    }
}

/// The mapping built from any pairs has unique keys.
proof fn lemma_collect_unique_keys(pairs: AttrsModel)
    ensures
        crate::attrs::unique_keys(collect_attrs(pairs)),
    decreases pairs.len(),
{
    if pairs.len() > 0 {
        lemma_collect_unique_keys(pairs.drop_last());
        let m = collect_attrs(pairs.drop_last());
        let k = pairs.last().0;
        let r = collect_attrs(pairs);
        match key_index(m, k, 0) {
            Some(i) => {
                lemma_key_index_some(m, k, 0);
                assert forall|x: int, y: int| 0 <= x < y < r.len() implies (#[trigger] r[x].0) != (
                #[trigger] r[y].0) by {
                    assert(r[x].0 == m[x].0 && r[y].0 == m[y].0);
                }
            },
            None => {
                lemma_key_index_none(m, k, 0);
                assert forall|x: int, y: int| 0 <= x < y < r.len() implies (#[trigger] r[x].0) != (
                #[trigger] r[y].0) by {
                    if y < m.len() {
                        assert(r[x] == m[x] && r[y] == m[y]);
                    } else {
                        assert(r[x] == m[x]);
                    }
                }
            },
        }
    }
}

/// The tag whose `<` stands at `lt`, and the index just past its closing tag.
pub open spec fn tag_at(s: Seq<char>, lt: int) -> Option<(InvocationView, int)> {
    match find_name_end(s, lt + 1) {
        None => None,
        Some(t) => {
            let name = s.subrange(lt + 1, t);
            match find_char(s, '>', t, s.len() as int) {
                None => None,
                Some(gt) => match find_seq(s, closing_tag(name), gt + 1) {
                    None => None,
                    Some(c) => {
                        let attributes = if s[t] == ' ' {
                            Some(crate::attrs::sort_attrs(collect_attrs(scan_attrs(s, t + 1, gt))))
                        } else {
                            None
                        };
                        Some(
                            (
                                InvocationView {
                                    action: name,
                                    attributes,
                                    payload: payload_of(s.subrange(gt + 1, c)),
                                },
                                c + name.len() + 3,
                            ),
                        )
                    },
                },
            }
        },
    }
}

/// The invocations found in `s` from index `p` on, left to right.
pub open spec fn parse_from(s: Seq<char>, p: int) -> Seq<InvocationView>
    decreases s.len() - p,
{
    if p < 0 || p >= s.len() {
        Seq::empty()
    } else {
        match find_char(s, '<', p, s.len() as int) {
            None => Seq::empty(),
            Some(lt) => {
                if lt < p || lt >= s.len() {
                    Seq::empty()
                } else {
                    match tag_at(s, lt) {
                        Some(found) => {
                            if lt < found.1 <= s.len() {
                                seq![found.0] + parse_from(s, found.1)
                            } else {
                                Seq::empty()
                            }
                        },
                        None => parse_from(s, lt + 1),
                    }
                }
            },
        }
    }
}

/// The invocations found in `s`.
pub open spec fn parse_spec(s: Seq<char>) -> Seq<InvocationView> {
    parse_from(s, 0)
}

/// The views of a sequence of invocations.
pub open spec fn views(v: Seq<Invocation>) -> Seq<InvocationView> {
    v.map_values(|i: Invocation| i@)
}

fn find_char_exec(v: &Vec<char>, c: char, from: usize, end: usize) -> (r: Option<usize>)
    requires
        from <= end <= v@.len(),
    ensures
        match r {
            Some(i) => find_char(v@, c, from as int, end as int) == Some(i as int) && from <= i
                < end && v@[i as int] == c,
            None => find_char(v@, c, from as int, end as int) is None,
        },
{
    let mut i = from;
    while i < end
        invariant
            from <= i <= end <= v@.len(),
            find_char(v@, c, from as int, end as int) == find_char(v@, c, i as int, end as int),
        decreases end - i,
    {
        if v[i] == c {
            return Some(i);
        }
        i = i + 1;
    }
    None
}

fn find_name_end_exec(v: &Vec<char>, from: usize) -> (r: Option<usize>)
    requires
        from <= v@.len(),
    ensures
        match r {
            Some(i) => find_name_end(v@, from as int) == Some(i as int) && from <= i < v@.len()
                && (v@[i as int] == ' ' || v@[i as int] == '>'),
            None => find_name_end(v@, from as int) is None,
        },
{
    let mut i = from;
    while i < v.len()
        invariant
            from <= i <= v@.len(),
            find_name_end(v@, from as int) == find_name_end(v@, i as int),
        decreases v@.len() - i,
    {
        if v[i] == ' ' || v[i] == '>' {
            return Some(i);
        }
        i = i + 1;
    }
    None
}

/// Whether `</name>` occurs at `i`, where `name` is `v[a..b]`.
fn closing_at(v: &Vec<char>, i: usize, a: usize, b: usize) -> (r: bool)
    requires
        a <= b <= v@.len(),
    ensures
        r == matches_at(v@, closing_tag(v@.subrange(a as int, b as int)), i as int),
{
    let ghost pat = closing_tag(v@.subrange(a as int, b as int));
    let n = b - a;
    assert(pat.len() == n + 3);
    if i >= v.len() || v.len() - i < 3 || v.len() - i - 3 < n {
        return false;
    }
    if v[i] != '<' || v[i + 1] != '/' || v[i + n + 2] != '>' {
        proof {
            if matches_at(v@, pat, i as int) {
                assert(v@.subrange(i as int, i + pat.len())[0] == pat[0]);
                assert(v@.subrange(i as int, i + pat.len())[1] == pat[1]);
                assert(v@.subrange(i as int, i + pat.len())[n + 2] == pat[n + 2]);
            }
        }
        return false;
    }
    let len = v.len();
    let mut k: usize = 0;
    while k < n
        invariant
            len == v@.len(),
            n == b - a,
            a <= b <= v@.len(),
            i + n + 3 <= v@.len(),
            k <= n,
            pat == closing_tag(v@.subrange(a as int, b as int)),
            pat.len() == n + 3,
            v@[i as int] == '<',
            v@[i + 1] == '/',
            v@[i + n + 2] == '>',
            forall|j: int| 0 <= j < k ==> #[trigger] v@[i + 2 + j] == v@[a + j],
        decreases n - k,
    {
        if v[i + 2 + k] != v[a + k] {
            proof {
                if matches_at(v@, pat, i as int) {
                    assert(v@.subrange(i as int, i + pat.len())[k + 2] == pat[k + 2]);
                }
            }
            return false;
        }
        k = k + 1;
    }
    assert forall|j: int| 0 <= j < pat.len() implies #[trigger] v@.subrange(
        i as int,
        i + pat.len(),
    )[j] == pat[j] by {
        if 2 <= j < n + 2 {
            assert(v@[i + 2 + (j - 2)] == v@[a + (j - 2)]);
        }
    }
    assert(v@.subrange(i as int, i + pat.len()) =~= pat);
    true
}

fn find_closing_exec(v: &Vec<char>, from: usize, a: usize, b: usize) -> (r: Option<usize>)
    requires
        from <= v@.len(),
        a <= b <= v@.len(),
    ensures
        match r {
            Some(i) => find_seq(v@, closing_tag(v@.subrange(a as int, b as int)), from as int)
                == Some(i as int) && from <= i && i + (b - a) + 3 <= v@.len(),
            None => find_seq(v@, closing_tag(v@.subrange(a as int, b as int)), from as int) is None,
        },
{
    let ghost pat = closing_tag(v@.subrange(a as int, b as int));
    let mut i = from;
    while i < v.len()
        invariant
            from <= i <= v@.len(),
            a <= b <= v@.len(),
            pat == closing_tag(v@.subrange(a as int, b as int)),
            find_seq(v@, pat, from as int) == find_seq(v@, pat, i as int),
        decreases v@.len() - i,
    {
        if v.len() - i < 3 || v.len() - i - 3 < b - a {
            return None;
        }
        if closing_at(v, i, a, b) {
            return Some(i);
        }
        i = i + 1;
    }
    None
}

} // verus!

verus! {

fn attr_insert_exec(m: &mut Vec<(String, String)>, k: String, val: String)
    ensures
        attrs_view(final(m)@) == attr_insert(attrs_view(old(m)@), k@, val@),
{
    let ghost mv = attrs_view(m@);
    let mut i: usize = 0;
    while i < m.len()
        invariant
            i <= m@.len(),
            mv == attrs_view(m@),
            mv == attrs_view(old(m)@),
            key_index(mv, k@, 0) == key_index(mv, k@, i as int),
        decreases m@.len() - i,
    {
        if m[i].0 == k {
            let ghost pair = (k@, val@);
            m.remove(i);
            m.insert(i, (k, val));
            assert(attrs_view(m@) =~= mv.update(i as int, pair));
            return;
        }
        i = i + 1;
    }
    let ghost pair = (k@, val@);
    m.push((k, val));
    assert(attrs_view(m@) =~= mv.push(pair));
}

} // verus!

verus! {

/// The trimmed text of `v[lo..hi]` as a string.
fn trimmed_piece(text: &str, v: &Vec<char>, lo: usize, hi: usize) -> (r: String)
    requires
        v@ == text@,
        lo <= hi <= v@.len(),
    ensures
        r@ == trim(v@.subrange(lo as int, hi as int)),
{
    let (a, b) = trim_bounds(v, lo, hi);
    text.substring_char(a, b).to_owned()
}

fn parse_attrs(text: &str, v: &Vec<char>, start: usize, end: usize) -> (r: Vec<(String, String)>)
    requires
        v@ == text@,
        start <= end <= v@.len(),
    ensures
        attrs_view(r@) == collect_attrs(scan_attrs(v@, start as int, end as int)),
{
    let mut m: Vec<(String, String)> = Vec::new();
    let ghost mut done: AttrsModel = Seq::empty();
    let mut p = start;
    assert(attrs_view(m@) =~= collect_attrs(done));
    assert(scan_attrs(v@, start as int, end as int) =~= done + scan_attrs(v@, p as int, end as int));
    while p < end
        invariant
            v@ == text@,
            start <= p <= end <= v@.len(),
            scan_attrs(v@, start as int, end as int) == done + scan_attrs(v@, p as int, end as int),
            attrs_view(m@) == collect_attrs(done),
        decreases end - p,
    {
        if v[p] == '=' {
            p = p + 1;
        } else {
            match find_char_exec(v, '=', p, end) {
                None => {
                    assert(scan_attrs(v@, p as int, end as int) =~= Seq::<(Seq<char>, Seq<char>)>::empty());
                    p = end;
                },
                Some(e) => {
                    let mut quoted: Option<usize> = None;
                    if e + 1 < end && v[e + 1] == '"' {
                        match find_char_exec(v, '"', e + 2, end) {
                            Some(q) => {
                                if q > e + 2 {
                                    quoted = Some(q);
                                }
                            },
                            None => {},
                        }
                    }
                    match quoted {
                        Some(q) => {
                            let key = trimmed_piece(text, v, p, e);
                            let value = trimmed_piece(text, v, e + 2, q);
                            let ghost pair = (key@, value@);
                            attr_insert_exec(&mut m, key, value);
                            proof {
                                let nd = done.push(pair);
                                assert(nd.drop_last() =~= done);
                                assert(done + scan_attrs(v@, p as int, end as int) =~= nd
                                    + scan_attrs(v@, q + 1, end as int));
                                done = nd;
                            }
                            p = q + 1;
                        },
                        None => {
                            p = e + 1;
                        },
                    }
                },
            }
        }
    }
    m
}

fn tag_at_exec(text: &str, v: &Vec<char>, lt: usize) -> (r: Option<(Invocation, usize)>)
    requires
        v@ == text@,
        lt < v@.len(),
    ensures
        match r {
            Some(found) => tag_at(v@, lt as int) == Some((found.0@, found.1 as int)),
            None => tag_at(v@, lt as int) is None,
        },
{
    let n = v.len();
    assert(lt < n);
    let t = match find_name_end_exec(v, lt + 1) {
        Some(t) => t,
        None => {
            return None;
        },
    };
    let gt = match find_char_exec(v, '>', t, v.len()) {
        Some(gt) => gt,
        None => {
            return None;
        },
    };
    let c = match find_closing_exec(v, gt + 1, lt + 1, t) {
        Some(c) => c,
        None => {
            return None;
        },
    };
    let action = text.substring_char(lt + 1, t).to_owned();
    let attributes = if v[t] == ' ' {
        let a = parse_attrs(text, v, t + 1, gt);
        proof {
            lemma_collect_unique_keys(scan_attrs(v@, t + 1, gt as int));
        }
        Some(a)
    } else {
        None
    };
    let payload = if gt + 1 < c && v[gt + 1] != '<' {
        Some(trimmed_piece(text, v, gt + 1, c))
    } else {
        None
    };
    let inv = Invocation::new(action, attributes, payload);
    Some((inv, c + (t - lt - 1) + 3))
}

/// Scans model output left to right and returns every well-formed tag found,
/// in order. Malformed or unterminated fragments are skipped.
pub fn parse_model_response(text: &str) -> (r: Vec<Invocation>)
    ensures
        views(r@) == parse_spec(text@),
{
    let v = chars_of(text);
    let mut out: Vec<Invocation> = Vec::new();
    let mut p: usize = 0;
    assert(views(out@) =~= Seq::<InvocationView>::empty());
    while p < v.len()
        invariant
            v@ == text@,
            p <= v@.len(),
            parse_from(v@, 0) == views(out@) + parse_from(v@, p as int),
        decreases v@.len() - p,
    {
        match find_char_exec(&v, '<', p, v.len()) {
            None => {
                p = v.len();
            },
            Some(lt) => {
                match tag_at_exec(text, &v, lt) {
                    Some(found) => {
                        let (inv, next) = found;
                        if lt < next && next <= v.len() {
                            let ghost iv = inv@;
                            let ghost old_out = views(out@);
                            out.push(inv);
                            assert(views(out@) =~= old_out.push(iv));
                            assert(old_out + parse_from(v@, p as int) =~= views(out@)
                                + parse_from(v@, next as int));
                            p = next;
                        } else {
                            p = v.len();
                        }
                    },
                    None => {
                        p = lt + 1;
                    },
                }
            },
        }
    }
    assert(parse_from(v@, p as int) =~= Seq::<InvocationView>::empty());
    assert(views(out@) =~= views(out@) + Seq::<InvocationView>::empty());
    out
}

} // verus!

verus! {

/// The number of `c` in `s[p..]`.
pub open spec fn count_char(s: Seq<char>, c: char, p: int) -> nat
    decreases s.len() - p,
{
    if p < 0 || p >= s.len() {
        0
    } else {
        (if s[p] == c {
            1nat
        } else {
            0nat
        }) + count_char(s, c, p + 1)
    }
}

proof fn lemma_find_char(s: Seq<char>, c: char, from: int, end: int)
    requires
        0 <= from,
        end <= s.len(),
    ensures
        match find_char(s, c, from, end) {
            Some(i) => from <= i < end && s[i] == c && forall|j: int|
                from <= j < i ==> s[j] != c,
            None => forall|j: int| from <= j < end ==> s[j] != c,
        },
    decreases end - from,
{
    if from < end {
        lemma_find_char(s, c, from + 1, end);
    }
}

proof fn lemma_count_mono(s: Seq<char>, c: char, a: int, b: int)
    requires
        0 <= a <= b,
    ensures
        count_char(s, c, b) <= count_char(s, c, a),
    decreases b - a,
{
    if a < b {
        lemma_count_mono(s, c, a + 1, b);
    }
}

proof fn lemma_count_skip(s: Seq<char>, c: char, a: int, b: int)
    requires
        0 <= a <= b,
        forall|j: int| a <= j < b ==> s[j] != c,
    ensures
        count_char(s, c, b) == count_char(s, c, a),
    decreases b - a,
{
    if a < b {
        lemma_count_skip(s, c, a + 1, b);
    }
}

proof fn lemma_parse_bound(s: Seq<char>, p: int)
    requires
        0 <= p,
    ensures
        parse_from(s, p).len() <= count_char(s, '<', p),
    decreases s.len() - p,
{
    if p < s.len() {
        lemma_find_char(s, '<', p, s.len() as int);
        match find_char(s, '<', p, s.len() as int) {
            None => {},
            Some(lt) => {
                lemma_count_skip(s, '<', p, lt);
                match tag_at(s, lt) {
                    Some(found) => {
                        if lt < found.1 <= s.len() {
                            lemma_parse_bound(s, found.1);
                            lemma_count_mono(s, '<', lt + 1, found.1);
                        }
                    },
                    None => {
                        lemma_parse_bound(s, lt + 1);
                    },
                }
            },
        }
    }
}

/// Parsing never fails, and finds at most one invocation per `<` of the input.
pub proof fn lemma_parse_total(s: Seq<char>)
    ensures
        parse_spec(s).len() <= count_char(s, '<', 0),
{
    lemma_parse_bound(s, 0);
}

} // verus!

//! Unix paths as byte strings.
//!
//! A path is split into components in the way of `std::path`: repeated and
//! trailing separators are ignored, and `.` is ignored except where it opens a
//! relative path.

use vstd::prelude::*;

verus! {

pub const SLASH: u8 = 47;

pub const DOT: u8 = 46;

/// Where the run of non-separator bytes that starts at `i` ends.
pub open spec fn segment_end(p: Seq<u8>, i: int) -> int
    decreases p.len() - i,
{
    if i >= p.len() || p[i] == SLASH {
        i
    } else {
        segment_end(p, i + 1)
    }
}

/// Whether the bytes from `i` to `e` are a lone `.`.
pub open spec fn is_dot(p: Seq<u8>, i: int, e: int) -> bool {
    e == i + 1 && p[i] == DOT
}

/// The half-open ranges of the components at or after position `i`, for a
/// position at which neither a root nor a leading `.` can stand.
pub open spec fn spans_from(p: Seq<u8>, i: int) -> Seq<(int, int)>
    decreases p.len() - i,
{
    if i >= p.len() {
        seq![]
    } else if p[i] == SLASH {
        spans_from(p, i + 1)
    } else {
        proof {
            lemma_segment_end(p, i);
        }
        let e = segment_end(p, i);
        if is_dot(p, i, e) {
            spans_from(p, e)
        } else {
            seq![(i, e)] + spans_from(p, e)
        }
    }
}

/// How many leading bytes hold the root or the leading `.`: one or none.
pub open spec fn body_start(p: Seq<u8>) -> int {
    if p.len() > 0 && (p[0] == SLASH || is_dot(p, 0, segment_end(p, 0))) {
        1
    } else {
        0
    }
}

/// The half-open byte ranges of all components of `p`, in order.
pub open spec fn spans(p: Seq<u8>) -> Seq<(int, int)> {
    if body_start(p) == 1 {
        seq![(0int, 1int)] + spans_from(p, 1)
    } else {
        spans_from(p, 0)
    }
}

/// The bytes of `p` that each range covers.
pub open spec fn pieces(p: Seq<u8>, s: Seq<(int, int)>) -> Seq<Seq<u8>> {
    Seq::new(s.len(), |k: int| p.subrange(s[k].0, s[k].1))
}

/// The components of `p`; the root is the component `/`.
pub open spec fn components(p: Seq<u8>) -> Seq<Seq<u8>> {
    pieces(p, spans(p))
}

pub open spec fn is_absolute(p: Seq<u8>) -> bool {
    p.len() > 0 && p[0] == SLASH
}

/// `rel` seen from `base`: an absolute `rel` stands for itself.
#[verifier::opaque]
pub open spec fn joined(base: Seq<u8>, rel: Seq<u8>) -> Seq<u8> {
    if is_absolute(rel) {
        rel
    } else if base.len() == 0 || base.last() == SLASH {
        base + rel
    } else {
        base.push(SLASH) + rel
    }
}

/// Whether the components of `base` open those of `p`.
pub open spec fn within(p: Seq<u8>, base: Seq<u8>) -> bool {
    components(base).is_prefix_of(components(p))
}

/// What is left of `p` behind its first `n` components.
pub open spec fn skip_components(p: Seq<u8>, n: int) -> Seq<u8> {
    let s = spans(p);
    if n >= s.len() {
        seq![]
    } else {
        p.subrange(s[n].0, s.last().1)
    }
}

/// `p` without its last component; the root and the empty path have no parent.
pub open spec fn parent_of(p: Seq<u8>) -> Option<Seq<u8>> {
    let s = spans(p);
    if s.len() == 0 || (s.len() == 1 && is_absolute(p)) {
        None
    } else if s.len() == 1 {
        Some(seq![])
    } else {
        Some(p.take(s[s.len() - 2].1))
    }
}

pub proof fn lemma_segment_end(p: Seq<u8>, i: int)
    requires
        i <= p.len(),
    ensures
        i <= segment_end(p, i) <= p.len(),
        i < p.len() && p[i] != SLASH ==> i < segment_end(p, i),
        segment_end(p, i) < p.len() ==> p[segment_end(p, i)] == SLASH,
        forall|k: int| i <= k < segment_end(p, i) ==> p[k] != SLASH,
    decreases p.len() - i,
{
    if i < p.len() && p[i] != SLASH {
        lemma_segment_end(p, i + 1);
    }
}


/// The ranges are in order and lie at or after `i`.
pub open spec fn ordered(s: Seq<(int, int)>, i: int, len: int) -> bool {
    &&& forall|k: int| 0 <= k < s.len() ==> i <= (#[trigger] s[k]).0 < s[k].1 <= len
    &&& forall|j: int, k: int| 0 <= j < k < s.len() ==> (#[trigger] s[j]).1 <= (#[trigger] s[k]).0
}

proof fn lemma_spans_from_ordered(p: Seq<u8>, i: int)
    requires
        0 <= i <= p.len(),
    ensures
        ordered(spans_from(p, i), i, p.len() as int),
    decreases p.len() - i,
{
    if i < p.len() {
        if p[i] == SLASH {
            lemma_spans_from_ordered(p, i + 1);
        } else {
            lemma_segment_end(p, i);
            lemma_spans_from_ordered(p, segment_end(p, i));
        }
    }
}

proof fn lemma_spans_ordered(p: Seq<u8>)
    ensures
        ordered(spans(p), 0, p.len() as int),
{
    lemma_spans_from_ordered(p, body_start(p));
}

fn find_segment_end(p: &Vec<u8>, i: usize) -> (e: usize)
    requires
        i <= p@.len(),
    ensures
        e == segment_end(p@, i as int),
        i <= e <= p@.len(),
{
    let mut e: usize = i;
    while e < p.len() && p[e] != SLASH
        invariant
            i <= e <= p@.len(),
            segment_end(p@, i as int) == segment_end(p@, e as int),
        decreases p@.len() - e,
    {
        e = e + 1;
    }
    e
}

/// Ranges as mathematical integers.
pub open spec fn as_spans(v: Seq<(usize, usize)>) -> Seq<(int, int)> {
    Seq::new(v.len(), |k: int| (v[k].0 as int, v[k].1 as int))
}

/// Finds the ranges of the components of `p`.
pub fn find_components(p: &Vec<u8>) -> (r: Vec<(usize, usize)>)
    ensures
        as_spans(r@) == spans(p@),
{
    let mut r: Vec<(usize, usize)> = Vec::new();
    let mut i: usize = 0;
    if p.len() > 0 {
        let e = find_segment_end(p, 0);
        if p[0] == SLASH || (e == 1 && p[0] == DOT) {
            r.push((0, 1));
            i = 1;
        }
    }
    proof {
        assert(as_spans(r@) + spans_from(p@, i as int) =~= spans(p@));
    }
    while i < p.len()
        invariant
            i <= p@.len(),
            as_spans(r@) + spans_from(p@, i as int) == spans(p@),
        decreases p@.len() - i,
    {
        if p[i] == SLASH {
            i = i + 1;
        } else {
            proof {
                lemma_segment_end(p@, i as int);
            }
            let ghost before = as_spans(r@);
            let e = find_segment_end(p, i);
            if !(e == i + 1 && p[i] == DOT) {
                r.push((i, e));
                proof {
                    assert(as_spans(r@) =~= before.push((i as int, e as int)));
                    assert(as_spans(r@) + spans_from(p@, e as int) =~= before + (seq![
                        (i as int, e as int),
                    ] + spans_from(p@, e as int)));
                }
            }
            i = e;
        }
    }
    proof {
        assert(as_spans(r@) =~= as_spans(r@) + spans_from(p@, i as int));
    }
    r
}

/// Copies the bytes from `i` to `e`.
pub fn copy_range(p: &Vec<u8>, i: usize, e: usize) -> (r: Vec<u8>)
    requires
        i <= e <= p@.len(),
    ensures
        r@ == p@.subrange(i as int, e as int),
{
    vstd::slice::slice_to_vec(vstd::slice::slice_subrange(p.as_slice(), i, e))
}

/// Whether two byte ranges hold the same bytes.
fn same_ranges(p: &Vec<u8>, a: (usize, usize), q: &Vec<u8>, b: (usize, usize)) -> (r: bool)
    requires
        a.0 <= a.1 <= p@.len(),
        b.0 <= b.1 <= q@.len(),
    ensures
        r == (p@.subrange(a.0 as int, a.1 as int) == q@.subrange(b.0 as int, b.1 as int)),
{
    let ghost x = p@.subrange(a.0 as int, a.1 as int);
    let ghost y = q@.subrange(b.0 as int, b.1 as int);
    let n: usize = a.1 - a.0;
    if n != b.1 - b.0 {
        assert(x.len() != y.len());
        return false;
    }
    let mut k: usize = 0;
    while k < n
        invariant
            k <= n,
            n == a.1 - a.0,
            n == b.1 - b.0,
            a.0 <= a.1 <= p@.len(),
            b.0 <= b.1 <= q@.len(),
            x == p@.subrange(a.0 as int, a.1 as int),
            y == q@.subrange(b.0 as int, b.1 as int),
            forall|m: int| 0 <= m < k ==> x[m] == y[m],
        decreases n - k,
    {
        if p[a.0 + k] != q[b.0 + k] {
            assert(x[k as int] != y[k as int]);
            return false;
        }
        k = k + 1;
    }
    assert(x =~= y);
    true
}

/// Whether two byte strings hold the same bytes.
pub fn same_bytes(p: &Vec<u8>, q: &Vec<u8>) -> (r: bool)
    ensures
        r == (p@ == q@),
{
    assert(p@.subrange(0, p@.len() as int) =~= p@);
    assert(q@.subrange(0, q@.len() as int) =~= q@);
    same_ranges(p, (0, p.len()), q, (0, q.len()))
}

/// `base` with `rel` behind it.
pub fn join(base: &Vec<u8>, rel: &Vec<u8>) -> (r: Vec<u8>)
    ensures
        r@ == joined(base@, rel@),
{
    reveal(joined);
    if rel.len() > 0 && rel[0] == SLASH {
        return copy_range(rel, 0, rel.len());
    }
    let mut r = copy_range(base, 0, base.len());
    if base.len() > 0 && base[base.len() - 1] != SLASH {
        r.push(SLASH);
    }
    let mut tail = copy_range(rel, 0, rel.len());
    r.append(&mut tail);
    assert(r@ =~= joined(base@, rel@));
    r
}

/// Whether `p` is `base` or lies below it, component by component.
pub fn starts_with(p: &Vec<u8>, base: &Vec<u8>) -> (r: bool)
    ensures
        r == within(p@, base@),
{
    let a = find_components(p);
    let b = find_components(base);
    proof {
        lemma_spans_ordered(p@);
        lemma_spans_ordered(base@);
        assert(forall|k: int| 0 <= k < a@.len() ==> spans(p@)[k] == as_spans(a@)[k]);
        assert(forall|k: int| 0 <= k < b@.len() ==> spans(base@)[k] == as_spans(b@)[k]);
        assert(components(p@).len() == a@.len());
        assert(components(base@).len() == b@.len());
    }
    if b.len() > a.len() {
        return false;
    }
    let mut k: usize = 0;
    while k < b.len()
        invariant
            k <= b@.len() <= a@.len(),
            as_spans(a@) == spans(p@),
            as_spans(b@) == spans(base@),
            ordered(spans(p@), 0, p@.len() as int),
            ordered(spans(base@), 0, base@.len() as int),
            forall|m: int| 0 <= m < k ==> components(p@)[m] == components(base@)[m],
        decreases b@.len() - k,
    {
        assert(spans(p@)[k as int] == as_spans(a@)[k as int]);
        assert(spans(base@)[k as int] == as_spans(b@)[k as int]);
        if !same_ranges(p, a[k], base, b[k]) {
            assert(components(p@)[k as int] != components(base@)[k as int]);
            return false;
        }
        assert(components(p@)[k as int] == components(base@)[k as int]);
        k = k + 1;
    }
    assert(components(p@).take(b@.len() as int) =~= components(base@));
    true
}


/// What is left of `p` behind `base`, where `p` lies within it.
pub fn strip_prefix(p: &Vec<u8>, base: &Vec<u8>) -> (r: Option<Vec<u8>>)
    ensures
        match r {
            Some(rest) => within(p@, base@) && rest@ == skip_components(
                p@,
                components(base@).len() as int,
            ),
            None => !within(p@, base@),
        },
{
    if !starts_with(p, base) {
        return None;
    }
    let a = find_components(p);
    let n = find_components(base).len();
    proof {
        lemma_spans_ordered(p@);
        assert(forall|k: int| 0 <= k < a@.len() ==> spans(p@)[k] == as_spans(a@)[k]);
        assert(as_spans(a@).len() == a@.len());
    }
    if n >= a.len() {
        Some(Vec::new())
    } else {
        proof {
            assert(spans(p@)[n as int] == as_spans(a@)[n as int]);
            assert(spans(p@)[a@.len() - 1] == as_spans(a@)[a@.len() - 1]);
        }
        Some(copy_range(p, a[n].0, a[a.len() - 1].1))
    }
}

/// The path without its last component.
pub fn parent(p: &Vec<u8>) -> (r: Option<Vec<u8>>)
    ensures
        match r {
            Some(dir) => parent_of(p@) == Some(dir@),
            None => parent_of(p@) is None,
        },
{
    let a = find_components(p);
    proof {
        lemma_spans_ordered(p@);
        assert(forall|k: int| 0 <= k < a@.len() ==> spans(p@)[k] == as_spans(a@)[k]);
        assert(as_spans(a@).len() == a@.len());
    }
    if a.len() == 0 || (a.len() == 1 && p[0] == SLASH) {
        return None;
    }
    if a.len() == 1 {
        let dir: Vec<u8> = Vec::new();
        assert(dir@ =~= seq![]);
        return Some(dir);
    }
    let dir = copy_range(p, 0, a[a.len() - 2].1);
    Some(dir)
}

/// Whether two paths have the same components.
pub fn same_path(p: &Vec<u8>, q: &Vec<u8>) -> (r: bool)
    ensures
        r == (components(p@) == components(q@)),
{
    let r = starts_with(p, q) && starts_with(q, p);
    proof {
        let a = components(p@);
        let b = components(q@);
        if r {
            assert(a =~= b);
        } else if a == b {
            assert(a.take(b.len() as int) =~= b);
        }
    }
    r
}

/// The components that `rel` adds where it does not open a path: a leading `.`
/// is none of them.
pub open spec fn names(rel: Seq<u8>) -> Seq<Seq<u8>> {
    pieces(rel, spans_from(rel, 0))
}

spec fn shifted(s: Seq<(int, int)>, n: int) -> Seq<(int, int)> {
    Seq::new(s.len(), |k: int| (s[k].0 + n, s[k].1 + n))
}

proof fn lemma_segment_end_shift(x: Seq<u8>, b: Seq<u8>, j: int)
    requires
        0 <= j <= b.len(),
    ensures
        segment_end(x + b, x.len() + j) == x.len() + segment_end(b, j),
    decreases b.len() - j,
{
    if j < b.len() && b[j] != SLASH {
        lemma_segment_end_shift(x, b, j + 1);
    }
}

proof fn lemma_spans_shift(x: Seq<u8>, b: Seq<u8>, j: int)
    requires
        0 <= j <= b.len(),
    ensures
        spans_from(x + b, x.len() + j) == shifted(spans_from(b, j), x.len() as int),
    decreases b.len() - j,
{
    let n = x.len() as int;
    if j < b.len() {
        if b[j] == SLASH {
            lemma_spans_shift(x, b, j + 1);
        } else {
            let e = segment_end(b, j);
            lemma_segment_end(b, j);
            lemma_segment_end_shift(x, b, j);
            lemma_spans_shift(x, b, e);
            if !is_dot(b, j, e) {
                assert(shifted(spans_from(b, j), n) =~= seq![(n + j, n + e)] + shifted(
                    spans_from(b, e),
                    n,
                ));
            }
        }
    }
}

/// Bytes behind a separator do not change where a run before it ends.
proof fn lemma_segment_end_prefix(x: Seq<u8>, b: Seq<u8>, i: int)
    requires
        0 <= i < x.len(),
        x.last() == SLASH,
    ensures
        segment_end(x + b, i) == segment_end(x, i),
        segment_end(x, i) < x.len(),
    decreases x.len() - i,
{
    if x[i] != SLASH {
        assert(i + 1 < x.len());
        lemma_segment_end_prefix(x, b, i + 1);
    }
}

proof fn lemma_spans_prefix(x: Seq<u8>, b: Seq<u8>, i: int)
    requires
        0 <= i <= x.len(),
        x.len() > 0,
        x.last() == SLASH,
    ensures
        spans_from(x + b, i) == spans_from(x, i) + shifted(spans_from(b, 0), x.len() as int),
    decreases x.len() - i,
{
    let tail = shifted(spans_from(b, 0), x.len() as int);
    if i == x.len() {
        lemma_spans_shift(x, b, 0);
        assert(spans_from(x, i) + tail =~= tail);
    } else if x[i] == SLASH {
        lemma_spans_prefix(x, b, i + 1);
    } else {
        let e = segment_end(x, i);
        lemma_segment_end(x, i);
        lemma_segment_end_prefix(x, b, i);
        lemma_spans_prefix(x, b, e);
        if !is_dot(x, i, e) {
            assert(seq![(i, e)] + (spans_from(x, e) + tail) =~= (seq![(i, e)] + spans_from(x, e))
                + tail);
        }
    }
}

proof fn lemma_segment_end_push(a: Seq<u8>, i: int)
    requires
        0 <= i <= a.len(),
    ensures
        segment_end(a.push(SLASH), i) == segment_end(a, i),
    decreases a.len() - i,
{
    if i < a.len() && a[i] != SLASH {
        lemma_segment_end_push(a, i + 1);
    }
}

proof fn lemma_spans_push(a: Seq<u8>, i: int)
    requires
        0 <= i <= a.len(),
    ensures
        spans_from(a.push(SLASH), i) == spans_from(a, i),
    decreases a.len() - i,
{
    if i < a.len() {
        if a[i] == SLASH {
            lemma_spans_push(a, i + 1);
        } else {
            lemma_segment_end(a, i);
            lemma_segment_end_push(a, i);
            lemma_spans_push(a, segment_end(a, i));
        }
    } else {
        reveal_with_fuel(spans_from, 2);
    }
}

/// Joining a relative path to a base puts its names behind the components of
/// the base, so the result lies within the base.
pub proof fn law_join_extends_base(base: Seq<u8>, rel: Seq<u8>)
    requires
        base.len() > 0,
        !is_absolute(rel),
    ensures
        components(joined(base, rel)) == components(base) + names(rel),
        within(joined(base, rel), base),
{
    reveal(joined);
    let x = if base.last() == SLASH {
        base
    } else {
        base.push(SLASH)
    };
    let j = joined(base, rel);
    let n = x.len() as int;
    let tail = shifted(spans_from(rel, 0), n);
    assert(j == x + rel);
    lemma_segment_end_prefix(x, rel, 0);
    if base.last() != SLASH {
        lemma_segment_end_push(base, 0);
        lemma_spans_push(base, body_start(base));
    }
    assert(body_start(x) == body_start(base));
    assert(body_start(j) == body_start(base));
    lemma_spans_prefix(x, rel, body_start(base));
    assert(spans(j) =~= spans(base) + tail);
    lemma_spans_ordered(base);
    lemma_spans_from_ordered(rel, 0);
    assert(components(j) =~= components(base) + names(rel)) by {
        let s = spans(j);
        let m = spans(base).len() as int;
        assert forall|k: int| 0 <= k < s.len() implies components(j)[k] == (components(base)
            + names(rel))[k] by {
            if k < m {
                assert(s[k] == spans(base)[k]);
                assert(j.subrange(s[k].0, s[k].1) =~= base.subrange(s[k].0, s[k].1));
            } else {
                let t = spans_from(rel, 0)[k - m];
                assert(s[k] == (t.0 + n, t.1 + n));
                assert(j.subrange(s[k].0, s[k].1) =~= rel.subrange(t.0, t.1));
            }
        }
    }
    assert((components(base) + names(rel)).take(components(base).len() as int) =~= components(
        base,
    ));
}

proof fn lemma_segment_end_take(p: Seq<u8>, i: int, e: int)
    requires
        0 <= i <= segment_end(p, i) <= e <= p.len(),
    ensures
        segment_end(p.take(e), i) == segment_end(p, i),
    decreases p.len() - i,
{
    if i < p.len() && p[i] != SLASH {
        lemma_segment_end(p, i);
        lemma_segment_end_take(p, i + 1, e);
    }
}

/// Cutting a path behind one of its components keeps the components up to there.
proof fn lemma_spans_take(p: Seq<u8>, i: int, k: int)
    requires
        0 <= i <= p.len(),
        0 <= k < spans_from(p, i).len(),
    ensures
        spans_from(p.take(spans_from(p, i)[k].1), i) == spans_from(p, i).take(k + 1),
    decreases p.len() - i,
{
    let s = spans_from(p, i);
    let e = s[k].1;
    let q = p.take(e);
    lemma_spans_from_ordered(p, i);
    if p[i] == SLASH {
        lemma_spans_take(p, i + 1, k);
    } else {
        let m = segment_end(p, i);
        lemma_segment_end(p, i);
        lemma_spans_from_ordered(p, m);
        if is_dot(p, i, m) {
            lemma_segment_end_take(p, i, e);
            lemma_spans_take(p, m, k);
        } else {
            let rest = spans_from(p, m);
            assert(s == seq![(i, m)] + rest);
            if k == 0 {
                assert(e == m);
                lemma_segment_end_take(p, i, e);
                assert(spans_from(q, m) =~= seq![]);
                assert(spans_from(q, i) =~= s.take(1));
            } else {
                assert(s[k] == rest[k - 1]);
                lemma_segment_end_take(p, i, e);
                lemma_spans_take(p, m, k - 1);
                assert(spans_from(q, i) =~= s.take(k + 1));
            }
        }
    }
}

proof fn lemma_components_take(p: Seq<u8>, k: int)
    requires
        0 <= k < spans(p).len(),
    ensures
        components(p.take(spans(p)[k].1)) == components(p).take(k + 1),
        spans(p.take(spans(p)[k].1)) == spans(p).take(k + 1),
{
    let s = spans(p);
    let e = s[k].1;
    let q = p.take(e);
    let b = body_start(p);
    lemma_spans_ordered(p);
    lemma_spans_from_ordered(p, b);
    lemma_segment_end(p, 0);
    if b == 1 {
        if p[0] != SLASH {
            lemma_segment_end_take(p, 0, e);
        }
        assert(body_start(q) == 1);
        if k == 0 {
            assert(spans_from(q, 1) =~= seq![]);
        } else {
            assert(s[k] == spans_from(p, 1)[k - 1]);
            lemma_spans_take(p, 1, k - 1);
        }
    } else {
        assert(s[0].0 == 0 && s[0].1 == segment_end(p, 0));
        lemma_segment_end_take(p, 0, e);
        assert(body_start(q) == 0);
        lemma_spans_take(p, 0, k);
    }
    assert(spans(q) =~= s.take(k + 1));
    assert(components(q) =~= components(p).take(k + 1)) by {
        assert forall|j: int| 0 <= j <= k implies components(q)[j] == components(p)[j] by {
            assert(s.take(k + 1)[j] == s[j]);
            assert(s[j].1 <= e);
            assert(q.subrange(s[j].0, s[j].1) =~= p.subrange(s[j].0, s[j].1));
        }
    }
}

/// Taking the parent drops the last component, so every path that has a parent
/// lies within it.
pub proof fn law_parent_drops_last(p: Seq<u8>)
    ensures
        parent_of(p) matches Some(dir) ==> components(p).len() > 0 && components(dir)
            == components(p).drop_last() && within(p, dir),
{
    let s = spans(p);
    let c = components(p);
    if let Some(dir) = parent_of(p) {
        if s.len() == 1 {
            assert(components(dir) =~= c.drop_last());
        } else {
            lemma_components_take(p, s.len() - 2);
            assert(c.take(s.len() - 1) =~= c.drop_last());
        }
        assert(c.take(components(dir).len() as int) =~= components(dir));
    }
}

/// The components from the `n`th on are those at or after its first byte.
proof fn lemma_spans_skip(p: Seq<u8>, i: int, n: int)
    requires
        0 <= i <= p.len(),
        0 <= n < spans_from(p, i).len(),
    ensures
        spans_from(p, spans_from(p, i)[n].0) == spans_from(p, i).skip(n),
    decreases p.len() - i,
{
    let s = spans_from(p, i);
    lemma_spans_from_ordered(p, i);
    if p[i] == SLASH {
        lemma_spans_skip(p, i + 1, n);
    } else {
        let e = segment_end(p, i);
        lemma_segment_end(p, i);
        if is_dot(p, i, e) {
            lemma_spans_skip(p, e, n);
        } else {
            assert(s == seq![(i, e)] + spans_from(p, e));
            if n == 0 {
                assert(s.skip(0) =~= s);
            } else {
                lemma_spans_skip(p, e, n - 1);
                assert(s[n] == spans_from(p, e)[n - 1]);
                assert(s.skip(n) =~= spans_from(p, e).skip(n - 1));
            }
        }
    }
}

/// Behind the first component, the components of a whole path are found from
/// the first byte of any one on, which is no separator.
proof fn lemma_spans_tail(p: Seq<u8>, n: int)
    requires
        1 <= n < spans(p).len(),
    ensures
        spans_from(p, spans(p)[n].0) == spans(p).skip(n),
        p[spans(p)[n].0] != SLASH,
{
    let s = spans(p);
    lemma_spans_ordered(p);
    if body_start(p) == 1 {
        assert(s[n] == spans_from(p, 1)[n - 1]);
        lemma_spans_skip(p, 1, n - 1);
        assert(spans_from(p, 1).skip(n - 1) =~= s.skip(n));
    } else {
        lemma_spans_skip(p, 0, n);
    }
    let i = s[n].0;
    if p[i] == SLASH {
        lemma_spans_from_ordered(p, i + 1);
        assert(spans_from(p, i) == spans_from(p, i + 1));
        assert(s.skip(n)[0] == s[n]);
        assert(spans_from(p, i + 1)[0].0 >= i + 1);
    }
}

proof fn lemma_names_behind(x: Seq<u8>, rest: Seq<u8>)
    ensures
        names(rest) == pieces(x + rest, spans_from(x + rest, x.len() as int)),
{
    let q = x + rest;
    let n = x.len() as int;
    let t = spans_from(rest, 0);
    lemma_spans_shift(x, rest, 0);
    lemma_spans_from_ordered(rest, 0);
    let u = spans_from(q, n);
    assert(u == shifted(t, n));
    assert forall|k: int| 0 <= k < t.len() implies names(rest)[k] == pieces(q, u)[k] by {
        assert(u[k] == (t[k].0 + n, t[k].1 + n));
        assert(rest.subrange(t[k].0, t[k].1) =~= q.subrange(u[k].0, u[k].1));
    }
    assert(names(rest) =~= pieces(q, u));
}

/// What is left behind the first components, one or more, has the names of the
/// others and is relative.
pub proof fn lemma_skip_names(p: Seq<u8>, n: int)
    requires
        1 <= n <= spans(p).len(),
    ensures
        names(skip_components(p, n)) == components(p).skip(n),
        !is_absolute(skip_components(p, n)),
{
    let s = spans(p);
    let rest = skip_components(p, n);
    if n == s.len() {
        assert(names(rest) =~= components(p).skip(n));
    } else {
        let i = s[n].0;
        let e = s.last().1;
        let q = p.take(e);
        lemma_spans_ordered(p);
        assert(s[n].1 <= e) by {
            assert(n == s.len() - 1 || s[n].1 <= s[s.len() - 1].0);
        }
        lemma_components_take(p, s.len() - 1);
        assert(s.take(s.len() as int) =~= s);
        assert(components(p).take(s.len() as int) =~= components(p));
        lemma_spans_tail(q, n);
        assert(q =~= p.take(i) + rest);
        lemma_names_behind(p.take(i), rest);
        assert(pieces(q, s.skip(n)) =~= components(q).skip(n));
        assert(rest[0] == q[i]);
    }
}

/// Stripping a base off a path that lies within it and joining what is left to
/// the base gives the path back, component by component.
pub proof fn law_strip_then_join(p: Seq<u8>, base: Seq<u8>)
    requires
        within(p, base),
    ensures
        components(joined(base, skip_components(p, components(base).len() as int))) == components(
            p,
        ),
{
    reveal(joined);
    let c = components(p);
    let n = components(base).len() as int;
    let rest = skip_components(p, n);
    if base.len() == 0 {
        assert(n == 0);
        if spans(p).len() > 0 {
            lemma_components_take(p, spans(p).len() - 1);
            lemma_spans_ordered(p);
            lemma_segment_end(p, 0);
            assert(spans(p)[0].0 == 0);
            assert(rest =~= p.take(spans(p).last().1));
            assert(c.take(spans(p).len() as int) =~= c);
            assert(joined(base, rest) =~= rest);
        } else {
            assert(joined(base, rest) =~= seq![]);
            assert(components(joined(base, rest)) =~= c);
        }
    } else {
        lemma_base_has_component(base);
        lemma_skip_names(p, n);
        law_join_extends_base(base, rest);
        assert(components(base) + c.skip(n) =~= c);
    }
}

/// A path that is not empty has a component.
pub proof fn lemma_base_has_component(base: Seq<u8>)
    requires
        base.len() > 0,
    ensures
        components(base).len() > 0,
{
    lemma_segment_end(base, 0);
}


/// Bytes without a separator are one name, unless they are empty or a lone `.`.
pub proof fn lemma_single_name(n: Seq<u8>)
    requires
        n.len() > 0,
        n != seq![DOT],
        forall|k: int| 0 <= k < n.len() ==> n[k] != SLASH,
    ensures
        names(n) == seq![n],
        !is_absolute(n),
{
    lemma_segment_end(n, 0);
    let e = segment_end(n, 0);
    if e < n.len() {
        assert(n[e] == SLASH);
    }
    if is_dot(n, 0, e) {
        assert(n =~= seq![DOT]);
    }
    assert(spans_from(n, e) =~= seq![]);
    assert(spans_from(n, 0) =~= seq![(0int, e)]);
    assert(n.subrange(0, e) =~= n);
    assert(names(n) =~= seq![n]);
}

/// Joining puts a relative path behind the base, with one separator between them
/// unless the base is empty or ends in one; an absolute path takes the place of
/// the base.
pub proof fn law_how_paths_are_joined(base: Seq<u8>, rel: Seq<u8>)
    ensures
        rel.len() > 0 && rel[0] == 47 ==> joined(base, rel) == rel,
        (rel.len() == 0 || rel[0] != 47) && (base.len() == 0 || base.last() == 47) ==> joined(
            base,
            rel,
        ) == base + rel,
        (rel.len() == 0 || rel[0] != 47) && base.len() > 0 && base.last() != 47 ==> joined(base, rel)
            == base + seq![47u8] + rel,
{
    reveal(joined);
    assert(base.push(47u8) =~= base + seq![47u8]);
}

/// A path is its names, behind the root where it is absolute and behind a `.` where
/// it opens with one.
pub proof fn law_path_is_made_of_names(p: Seq<u8>)
    ensures
        components(p) == (if p.len() > 0 && p[0] == 47 {
            seq![seq![47u8]]
        } else if p.len() > 0 && p[0] == 46 && (p.len() == 1 || p[1] == 47) {
            seq![seq![46u8]]
        } else {
            seq![]
        }) + names(p),
{
    reveal_with_fuel(segment_end, 3);
    let dot = p.len() > 0 && p[0] == 46 && (p.len() == 1 || p[1] == 47);
    if p.len() > 0 {
        lemma_segment_end(p, 0);
        let e = segment_end(p, 0);
        assert(is_dot(p, 0, e) <==> dot);
        if p[0] == 47 || dot {
            assert(spans_from(p, 0) == spans_from(p, 1));
            assert(p.subrange(0, 1) =~= seq![p[0]]);
            assert(components(p) =~= seq![seq![p[0]]] + names(p));
        } else {
            assert(components(p) =~= names(p));
        }
    } else {
        assert(components(p) =~= names(p));
    }
}

/// Names are what stands between separators: those before one and those behind it,
/// where nothing and a lone `.` are no names, and any other bytes without a
/// separator are one.
pub proof fn law_names_stand_between_separators(a: Seq<u8>, b: Seq<u8>)
    ensures
        names(a + seq![47u8] + b) == names(a) + names(b),
        a.len() == 0 || a == seq![46u8] ==> names(a).len() == 0,
        a.len() > 0 && a != seq![46u8] && !a.contains(47u8) ==> names(a) == seq![a],
{
    let x = a.push(SLASH);
    let j = x + b;
    let n = x.len() as int;
    assert(a + seq![47u8] + b =~= j);
    lemma_spans_prefix(x, b, 0);
    lemma_spans_push(a, 0);
    lemma_spans_from_ordered(a, 0);
    lemma_spans_from_ordered(b, 0);
    let s = spans_from(j, 0);
    let m = spans_from(a, 0).len() as int;
    assert(s == spans_from(a, 0) + shifted(spans_from(b, 0), n));
    assert forall|k: int| 0 <= k < s.len() implies names(j)[k] == (names(a) + names(b))[k] by {
        if k < m {
            assert(s[k] == spans_from(a, 0)[k]);
            assert(j.subrange(s[k].0, s[k].1) =~= a.subrange(s[k].0, s[k].1));
        } else {
            let t = spans_from(b, 0)[k - m];
            assert(s[k] == (t.0 + n, t.1 + n));
            assert(j.subrange(s[k].0, s[k].1) =~= b.subrange(t.0, t.1));
        }
    }
    assert(names(j) =~= names(a) + names(b));
    if a == seq![46u8] {
        reveal_with_fuel(segment_end, 3);
        reveal_with_fuel(spans_from, 2);
        assert(segment_end(a, 0) == 1);
        assert(spans_from(a, 1) =~= seq![]);
        assert(spans_from(a, 0) =~= seq![]);
    }
    if a.len() > 0 && a != seq![46u8] && !a.contains(47u8) {
        assert forall|k: int| 0 <= k < a.len() implies a[k] != SLASH by {
            assert(a.contains(a[k]));
        }
        lemma_single_name(a);
    }
}

/// Every path has a parent but the empty one and the root, and the parent is the
/// front of the path, without a separator at its end unless it is the root.
pub proof fn law_which_paths_have_a_parent(p: Seq<u8>)
    ensures
        parent_of(p) is None <==> components(p).len() == 0 || components(p) == seq![seq![47u8]],
        parent_of(p) matches Some(dir) ==> dir.is_prefix_of(p) && (dir.len() > 1 ==> dir.last()
            != 47),
{
    let s = spans(p);
    lemma_spans_ordered(p);
    if s.len() == 1 {
        assert(components(p)[0] == p.subrange(s[0].0, s[0].1));
        if is_absolute(p) {
            assert(s[0] == (0int, 1int));
            assert(p.subrange(0, 1) =~= seq![47u8]);
            assert(components(p) =~= seq![seq![47u8]]);
        } else if components(p) == seq![seq![47u8]] {
            assert(p.subrange(s[0].0, s[0].1)[0] == 47);
            lemma_span_holds_no_separator(p, 0);
        }
    }
    if s.len() >= 2 {
        let e = s[s.len() - 2].1;
        assert(p.take(e).is_prefix_of(p));
        if e > 1 {
            lemma_span_holds_no_separator(p, s.len() - 2);
            assert(p.take(e).last() == p[e - 1]);
        }
    }
}

proof fn lemma_span_holds_no_separator(p: Seq<u8>, k: int)
    requires
        0 <= k < spans(p).len(),
    ensures
        ({
            let (a, b) = spans(p)[k];
            0 <= a < b <= p.len() && ((a, b) == (0int, 1int) && is_absolute(p) || p[b - 1] != SLASH
                && p[a] != SLASH)
        }),
{
    if body_start(p) == 1 {
        if k > 0 {
            lemma_span_from_holds_no_separator(p, 1, k - 1);
        }
    } else {
        lemma_span_from_holds_no_separator(p, 0, k);
    }
}

proof fn lemma_span_from_holds_no_separator(p: Seq<u8>, i: int, k: int)
    requires
        0 <= i,
        0 <= k < spans_from(p, i).len(),
    ensures
        ({
            let (a, b) = spans_from(p, i)[k];
            i <= a < b <= p.len() && p[b - 1] != SLASH && p[a] != SLASH
        }),
    decreases p.len() - i,
{
    if p[i] == SLASH {
        lemma_span_from_holds_no_separator(p, i + 1, k);
    } else {
        let e = segment_end(p, i);
        lemma_segment_end(p, i);
        if is_dot(p, i, e) {
            lemma_span_from_holds_no_separator(p, e, k);
        } else if k > 0 {
            lemma_span_from_holds_no_separator(p, e, k - 1);
        }
    }
}

/// A path lies within another if and only if it has at least its components, and
/// opens with each of them in turn.
pub proof fn law_within_by_components(p: Seq<u8>, base: Seq<u8>)
    ensures
        within(p, base) <==> components(base).len() <= components(p).len() && forall|k: int|
            0 <= k < components(base).len() ==> #[trigger] components(base)[k] == components(p)[k],
        within(p, p),
{
    let c = components(p);
    let b = components(base);
    assert(c.take(c.len() as int) =~= c);
    if within(p, base) {
        assert forall|k: int| 0 <= k < b.len() implies #[trigger] b[k] == c[k] by {
            assert(c.take(b.len() as int)[k] == b[k]);
        }
    }
    if b.len() <= c.len() && forall|k: int| 0 <= k < b.len() ==> #[trigger] b[k] == c[k] {
        assert(c.take(b.len() as int) =~= b);
    }
}

/// What is left of a path behind some of its components is its end, but for
/// separators and dots behind the last one, and has the names that are left.
pub proof fn law_rest_has_the_other_names(p: Seq<u8>, n: int)
    requires
        0 < n,
    ensures
        n < components(p).len() ==> names(skip_components(p, n)) == components(p).skip(n),
        n >= components(p).len() ==> skip_components(p, n).len() == 0,
{
    if n < components(p).len() {
        lemma_skip_names(p, n);
    }
}

}

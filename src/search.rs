use vstd::prelude::*;
use vstd::slice::slice_subrange;
use memmem::{Searcher, TwoWaySearcher};

verus! {

/// `p` occurs in `b` starting at index `k`.
pub open spec fn matches_at(b: Seq<u8>, p: Seq<u8>, k: int) -> bool {
    0 <= k && k + p.len() <= b.len() && b.subrange(k, k + p.len()) == p
}

/// `k` is the lowest index at which `p` occurs in `b`.
pub open spec fn is_first_match(b: Seq<u8>, p: Seq<u8>, k: int) -> bool {
    matches_at(b, p, k) && forall|j: int| 0 <= j < k ==> !matches_at(b, p, j)
}

/// The occurrences of `p` in `b` found by scanning from index `c` and resuming
/// right after the end of each occurrence found: the non-overlapping matches,
/// in increasing order.
pub open spec fn match_offsets_from(b: Seq<u8>, p: Seq<u8>, c: int) -> Seq<int>
    decreases b.len() - c,
{
    if p.len() == 0 || c < 0 || c + p.len() > b.len() {
        seq![]
    } else if matches_at(b, p, c) {
        seq![c] + match_offsets_from(b, p, c + p.len())
    } else {
        match_offsets_from(b, p, c + 1)
    }
}

/// The non-overlapping occurrences of `p` in the whole of `b`.
pub open spec fn match_offsets(b: Seq<u8>, p: Seq<u8>) -> Seq<int> {
    match_offsets_from(b, p, 0)
}

/// Byte `i` of `b` lies in the `m`-byte window that starts at one of `offsets`.
pub open spec fn covered(offsets: Seq<int>, m: nat, i: int) -> bool {
    exists|t: int| 0 <= t < offsets.len() && #[trigger] offsets[t] <= i < offsets[t] + m
}

/// `b` with the `m` bytes at each of `offsets` overwritten by `fill`.
pub open spec fn overwrite(b: Seq<u8>, offsets: Seq<int>, m: nat, fill: u8) -> Seq<u8> {
    Seq::new(b.len(), |i: int| if covered(offsets, m, i) { fill } else { b[i] })
}

/// Relies on memmem's `TwoWaySearcher::new` and `Searcher::search_in` (one
/// search with a fresh searcher): for a non-empty needle, the start of its
/// leftmost occurrence in the haystack, or `None` where it does not occur.
#[verifier::external_body]
fn two_way_find(haystack: &[u8], needle: &[u8]) -> (r: Option<usize>)
    requires
        needle@.len() > 0,
    ensures
        match r {
            Some(k) => is_first_match(haystack@, needle@, k as int),
            None => forall|j: int| !matches_at(haystack@, needle@, j),
        },
{
    TwoWaySearcher::new(needle).search_in(haystack)
}

/// Index of the first occurrence of a non-empty `pattern` in `buf`.
pub fn find_first(buf: &[u8], pattern: &[u8]) -> (r: Option<usize>)
    requires
        pattern@.len() > 0,
    ensures
        match r {
            Some(k) => is_first_match(buf@, pattern@, k as int),
            None => forall|j: int| !matches_at(buf@, pattern@, j),
        },
{
    two_way_find(buf, pattern)
}

proof fn lemma_skip_non_matches(b: Seq<u8>, p: Seq<u8>, c: int, k: int)
    requires
        p.len() > 0,
        0 <= c <= k,
        forall|j: int| c <= j < k ==> !matches_at(b, p, j),
        k + p.len() <= b.len(),
    ensures
        match_offsets_from(b, p, c) == match_offsets_from(b, p, k),
    decreases k - c,
{
    if c < k {
        lemma_skip_non_matches(b, p, c + 1, k);
    }
}

proof fn lemma_no_more_matches(b: Seq<u8>, p: Seq<u8>, c: int)
    requires
        p.len() > 0,
        0 <= c,
        forall|j: int| c <= j ==> !matches_at(b, p, j),
    ensures
        match_offsets_from(b, p, c) == Seq::<int>::empty(),
    decreases b.len() - c,
{
    if c + p.len() <= b.len() {
        lemma_no_more_matches(b, p, c + 1);
    }
}

proof fn lemma_window_of_tail(b: Seq<u8>, p: Seq<u8>, c: int, j: int)
    requires
        0 <= c <= b.len(),
        0 <= j,
    ensures
        matches_at(b.subrange(c, b.len() as int), p, j) == matches_at(b, p, c + j),
{
    let t = b.subrange(c, b.len() as int);
    if j + p.len() <= t.len() {
        assert(t.subrange(j, j + p.len()) =~= b.subrange(c + j, c + j + p.len()));
    }
}

/// Start indices of all non-overlapping occurrences of a non-empty `pattern`
/// in `buf`, in increasing order; each search resumes right after the end of
/// the previous occurrence.
pub fn match_positions(buf: &[u8], pattern: &[u8]) -> (r: Vec<usize>)
    requires
        pattern@.len() > 0,
    ensures
        r@.map_values(|k: usize| k as int) == match_offsets(buf@, pattern@),
{
    let n = buf.len();
    let m = pattern.len();
    let ghost b = buf@;
    let ghost p = pattern@;
    let mut out: Vec<usize> = Vec::new();
    let mut cursor: usize = 0;
    loop
        invariant
            n == b.len(),
            m == p.len(),
            b == buf@,
            p == pattern@,
            m > 0,
            cursor <= n,
            out@.map_values(|k: usize| k as int) + match_offsets_from(b, p, cursor as int)
                == match_offsets(b, p),
        decreases n - cursor,
    {
        let rest = slice_subrange(buf, cursor, n);
        assert(rest@ =~= b.subrange(cursor as int, n as int));
        match two_way_find(rest, pattern) {
            None => {
                proof {
                    assert forall|j: int| cursor <= j implies !matches_at(b, p, j) by {
                        lemma_window_of_tail(b, p, cursor as int, j - cursor);
                    }
                    lemma_no_more_matches(b, p, cursor as int);
                }
                assert(out@.map_values(|k: usize| k as int) =~= out@.map_values(|k: usize| k as int)
                    + match_offsets_from(b, p, cursor as int));
                return out;
            },
            Some(pos) => {
                let k = cursor + pos;
                proof {
                    lemma_window_of_tail(b, p, cursor as int, pos as int);
                    assert forall|j: int| cursor <= j < k implies !matches_at(b, p, j) by {
                        lemma_window_of_tail(b, p, cursor as int, j - cursor);
                    }
                    lemma_skip_non_matches(b, p, cursor as int, k as int);
                }
                let ghost before = out@.map_values(|k: usize| k as int);
                out.push(k);
                assert(out@.map_values(|k: usize| k as int) =~= before.push(k as int));
                assert(match_offsets_from(b, p, k as int) == seq![k as int] + match_offsets_from(b, p, k + m));
                assert(before + match_offsets_from(b, p, k as int) =~= before.push(k as int) + match_offsets_from(b, p, k + m));
                cursor = k + m;
            },
        }
    }
}

proof fn lemma_offsets_shape(b: Seq<u8>, p: Seq<u8>, c: int)
    requires
        p.len() > 0,
        0 <= c,
    ensures
        forall|t: int| 0 <= t < match_offsets_from(b, p, c).len() ==> c <= #[trigger] match_offsets_from(b, p, c)[t]
            && matches_at(b, p, match_offsets_from(b, p, c)[t]),
        forall|t1: int, t2: int| 0 <= t1 < t2 < match_offsets_from(b, p, c).len()
            ==> #[trigger] match_offsets_from(b, p, c)[t1] + p.len() <= #[trigger] match_offsets_from(b, p, c)[t2],
    decreases b.len() - c,
{
    if c + p.len() <= b.len() {
        if matches_at(b, p, c) {
            lemma_offsets_shape(b, p, c + p.len());
            let rest = match_offsets_from(b, p, c + p.len());
            let s = match_offsets_from(b, p, c);
            assert(s == seq![c] + rest);
            assert forall|t: int| 0 <= t < s.len() implies c <= #[trigger] s[t] && matches_at(b, p, s[t]) by {
                if t > 0 {
                    assert(s[t] == rest[t - 1]);
                }
            }
            assert forall|t1: int, t2: int| 0 <= t1 < t2 < s.len() implies #[trigger] s[t1] + p.len() <= #[trigger] s[t2] by {
                assert(s[t2] == rest[t2 - 1]);
                if t1 > 0 {
                    assert(s[t1] == rest[t1 - 1]);
                }
            }
        } else {
            lemma_offsets_shape(b, p, c + 1);
            assert(match_offsets_from(b, p, c) == match_offsets_from(b, p, c + 1));
        }
    }
}

/// Every occurrence at or after `c` shares a byte with an enumerated one.
proof fn lemma_occurrence_meets_offset(b: Seq<u8>, p: Seq<u8>, c: int, j: int)
    requires
        p.len() > 0,
        0 <= c <= j,
        matches_at(b, p, j),
    ensures
        exists|t: int| 0 <= t < match_offsets_from(b, p, c).len()
            && j - p.len() < #[trigger] match_offsets_from(b, p, c)[t] < j + p.len(),
    decreases b.len() - c,
{
    let s = match_offsets_from(b, p, c);
    if matches_at(b, p, c) {
        let rest = match_offsets_from(b, p, c + p.len());
        assert(s == seq![c] + rest);
        if j < c + p.len() {
            assert(s[0] == c);
        } else {
            lemma_occurrence_meets_offset(b, p, c + p.len(), j);
            let t = choose|t: int| 0 <= t < rest.len() && j - p.len() < #[trigger] rest[t] < j + p.len();
            assert(s[t + 1] == rest[t]);
        }
    } else {
        lemma_occurrence_meets_offset(b, p, c + 1, j);
    }
}

/// Where no two occurrences of a non-empty pattern overlap, the enumeration of
/// matches returns exactly the set of occurrences, in increasing order, each
/// once.
pub proof fn lemma_enumeration_is_exact(b: Seq<u8>, p: Seq<u8>)
    requires
        p.len() > 0,
        forall|j: int, k: int| matches_at(b, p, j) && matches_at(b, p, k) && j < k ==> k - j >= p.len(),
    ensures
        forall|k: int| match_offsets(b, p).contains(k) <==> matches_at(b, p, k),
        forall|t1: int, t2: int| 0 <= t1 < t2 < match_offsets(b, p).len()
            ==> #[trigger] match_offsets(b, p)[t1] < #[trigger] match_offsets(b, p)[t2],
{
    let s = match_offsets(b, p);
    lemma_offsets_shape(b, p, 0);
    assert forall|k: int| s.contains(k) <==> matches_at(b, p, k) by {
        if s.contains(k) {
            let t = choose|t: int| 0 <= t < s.len() && s[t] == k;
            assert(matches_at(b, p, s[t]));
        }
        if matches_at(b, p, k) {
            lemma_occurrence_meets_offset(b, p, 0, k);
            let t = choose|t: int| 0 <= t < s.len() && k - p.len() < #[trigger] s[t] < k + p.len();
            assert(matches_at(b, p, s[t]));
            assert(s[t] == k);
        }
    }
}

/// Overwriting every enumerated match with a fill byte that the pattern does
/// not contain leaves no occurrence of the pattern.
pub proof fn lemma_erase_leaves_no_match(b: Seq<u8>, p: Seq<u8>, fill: u8)
    requires
        p.len() > 0,
        forall|i: int| 0 <= i < p.len() ==> p[i] != fill,
    ensures
        forall|j: int| !matches_at(overwrite(b, match_offsets(b, p), p.len(), fill), p, j),
{
    let s = match_offsets(b, p);
    let e = overwrite(b, s, p.len(), fill);
    let m = p.len();
    assert forall|j: int| !matches_at(e, p, j) by {
        if matches_at(e, p, j) {
            assert forall|i: int| j <= i < j + m implies !covered(s, m, i) && e[i] == b[i] by {
                assert(e[i] == e.subrange(j, j + m)[i - j]);
            }
            assert(b.subrange(j, j + m) =~= e.subrange(j, j + m));
            lemma_occurrence_meets_offset(b, p, 0, j);
            let t = choose|t: int| 0 <= t < s.len() && j - m < #[trigger] s[t] < j + m;
            let i = if s[t] > j { s[t] } else { j };
            assert(covered(s, m, i));
            assert(e[i] == fill);
            assert(e[i] == e.subrange(j, j + m)[i - j]);
            assert(e[i] == p[i - j]);
            assert(false);
        }
    }
}

/// Every enumerated offset is the start of an occurrence inside `b`.
pub proof fn lemma_offsets_in_range(b: Seq<u8>, p: Seq<u8>)
    requires
        p.len() > 0,
    ensures
        forall|t: int| 0 <= t < match_offsets(b, p).len() ==> 0 <= #[trigger] match_offsets(b, p)[t] < b.len()
            && matches_at(b, p, match_offsets(b, p)[t]),
{
    lemma_offsets_shape(b, p, 0);
}

} // verus!

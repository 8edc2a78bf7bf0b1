//! A stable merge sort by a caller's comparison.

use vstd::prelude::*;

verus! {

/// `s` is ordered by `leq`: each element comes no later than any after it.
pub open spec fn sorted_by<T>(s: Seq<T>, leq: spec_fn(T, T) -> bool) -> bool {
    forall|i: int, j: int| 0 <= i < j < s.len() ==> leq(s[i], s[j])
}

/// `leq` orders every two values, transitively.
pub open spec fn total_preorder<T>(leq: spec_fn(T, T) -> bool) -> bool {
    &&& forall|a: T, b: T| #[trigger] leq(a, b) || leq(b, a)
    &&& forall|a: T, b: T, c: T| #[trigger] leq(a, b) && #[trigger] leq(b, c) ==> leq(a, c)
}

/// `le` can compare any two values that satisfy `ok`, and answers `leq`.
pub open spec fn compares_as<T, F: Fn(T, T) -> bool>(
    le: F,
    leq: spec_fn(T, T) -> bool,
    ok: spec_fn(T) -> bool,
) -> bool {
    &&& forall|a: T, b: T| ok(a) && ok(b) ==> #[trigger] le.requires((a, b))
    &&& forall|a: T, b: T, r: bool| ok(a) && ok(b) && #[trigger] le.ensures((a, b), r) ==> r
        == leq(a, b)
}

/// Merges the sorted runs `src[lo..mid]` and `src[mid..hi]`; on a tie the
/// element of the first run comes first.
fn merge<T: Copy, F: Fn(T, T) -> bool>(
    src: &Vec<T>,
    lo: usize,
    mid: usize,
    hi: usize,
    le: &F,
    Ghost(leq): Ghost<spec_fn(T, T) -> bool>,
    Ghost(ok): Ghost<spec_fn(T) -> bool>,
) -> (out: Vec<T>)
    requires
        lo <= mid <= hi <= src@.len(),
        total_preorder(leq),
        compares_as(*le, leq, ok),
        forall|k: int| 0 <= k < src@.len() ==> ok(#[trigger] src@[k]),
        forall|p: int, q: int| lo <= p < q < mid ==> leq(#[trigger] src@[p], #[trigger] src@[q]),
        forall|p: int, q: int| mid <= p < q < hi ==> leq(#[trigger] src@[p], #[trigger] src@[q]),
    ensures
        out@.len() == hi - lo,
        sorted_by(out@, leq),
        out@.to_multiset() == src@.subrange(lo as int, hi as int).to_multiset(),
{
    broadcast use vstd::seq_lib::group_to_multiset_ensures;
    broadcast use vstd::multiset::group_multiset_axioms;

    let mut out: Vec<T> = Vec::new();
    let mut i = lo;
    let mut j = mid;
    while i < mid || j < hi
        invariant
            lo <= i <= mid <= j <= hi <= src@.len(),
            total_preorder(leq),
            compares_as(*le, leq, ok),
            forall|k: int| 0 <= k < src@.len() ==> ok(#[trigger] src@[k]),
            forall|p: int, q: int| lo <= p < q < mid ==> leq(#[trigger] src@[p], #[trigger] src@[q]),
            forall|p: int, q: int| mid <= p < q < hi ==> leq(#[trigger] src@[p], #[trigger] src@[q]),
            out@.len() == (i - lo) + (j - mid),
            sorted_by(out@, leq),
            forall|k: int, p: int|
                0 <= k < out@.len() && i <= p < mid ==> leq(#[trigger] out@[k], #[trigger] src@[p]),
            forall|k: int, p: int|
                0 <= k < out@.len() && j <= p < hi ==> leq(#[trigger] out@[k], #[trigger] src@[p]),
            out@.to_multiset() == src@.subrange(lo as int, i as int).to_multiset().add(
                src@.subrange(mid as int, j as int).to_multiset(),
            ),
        decreases (mid - i) + (hi - j),
    {
        let take_left = if i < mid && j < hi {
            le(src[i], src[j])
        } else {
            i < mid
        };
        let ghost before = out@;
        if take_left {
            let x = src[i];
            proof {
                if j < hi {
                    assert(leq(x, src@[j as int]));
                }
                assert forall|p: int| j <= p < hi implies leq(x, #[trigger] src@[p]) by {
                    if j < p {
                        assert(leq(src@[j as int], src@[p]));
                    }
                }
            }
            out.push(x);
            proof {
                let l0 = src@.subrange(lo as int, i as int);
                let r0 = src@.subrange(mid as int, j as int);
                assert(src@.subrange(lo as int, i + 1) == l0.push(x));
                assert(out@ == before.push(x));
                vstd::seq_lib::to_multiset_build(before, x);
                assert(out@.to_multiset() == before.to_multiset().insert(x));
                vstd::seq_lib::to_multiset_build(l0, x);
                assert(l0.to_multiset().insert(x).add(r0.to_multiset()) =~= l0.to_multiset().add(
                    r0.to_multiset(),
                ).insert(x));
                assert forall|a: int, b: int| 0 <= a < b < out@.len() implies leq(out@[a], out@[b]) by {
                    if b == out@.len() - 1 {
                        assert(out@[b] == src@[i as int]);
                        assert(before[a] == out@[a]);
                    } else {
                        assert(before[a] == out@[a] && before[b] == out@[b]);
                    }
                }
                assert forall|k: int, p: int|
                    0 <= k < out@.len() && i + 1 <= p < mid implies leq(#[trigger] out@[k], #[trigger] src@[p]) by {
                    if k < before.len() {
                        assert(before[k] == out@[k]);
                    }
                }
                assert forall|k: int, p: int|
                    0 <= k < out@.len() && j <= p < hi implies leq(#[trigger] out@[k], #[trigger] src@[p]) by {
                    if k < before.len() {
                        assert(before[k] == out@[k]);
                    }
                }
            }
            i = i + 1;
        } else {
            let y = src[j];
            proof {
                if i < mid {
                    assert(leq(y, src@[i as int]));
                }
                assert forall|p: int| i <= p < mid implies leq(y, #[trigger] src@[p]) by {
                    if i < p {
                        assert(leq(src@[i as int], src@[p]));
                    }
                }
                assert forall|p: int| j < p < hi implies leq(y, #[trigger] src@[p]) by {
                    assert(leq(src@[j as int], src@[p]));
                }
            }
            out.push(y);
            proof {
                let l0 = src@.subrange(lo as int, i as int);
                let r0 = src@.subrange(mid as int, j as int);
                assert(src@.subrange(mid as int, j + 1) == r0.push(y));
                assert(out@ == before.push(y));
                vstd::seq_lib::to_multiset_build(before, y);
                assert(out@.to_multiset() == before.to_multiset().insert(y));
                vstd::seq_lib::to_multiset_build(r0, y);
                assert(l0.to_multiset().add(r0.to_multiset().insert(y)) =~= l0.to_multiset().add(
                    r0.to_multiset(),
                ).insert(y));
                assert forall|a: int, b: int| 0 <= a < b < out@.len() implies leq(out@[a], out@[b]) by {
                    if b == out@.len() - 1 {
                        assert(out@[b] == src@[j as int]);
                        assert(before[a] == out@[a]);
                    } else {
                        assert(before[a] == out@[a] && before[b] == out@[b]);
                    }
                }
                assert forall|k: int, p: int|
                    0 <= k < out@.len() && i <= p < mid implies leq(#[trigger] out@[k], #[trigger] src@[p]) by {
                    if k < before.len() {
                        assert(before[k] == out@[k]);
                    }
                }
                assert forall|k: int, p: int|
                    0 <= k < out@.len() && j + 1 <= p < hi implies leq(#[trigger] out@[k], #[trigger] src@[p]) by {
                    if k < before.len() {
                        assert(before[k] == out@[k]);
                    }
                }
            }
            j = j + 1;
        }
    }
    proof {
        vstd::seq_lib::lemma_multiset_commutative(
            src@.subrange(lo as int, mid as int),
            src@.subrange(mid as int, hi as int),
        );
        assert(src@.subrange(lo as int, mid as int) + src@.subrange(mid as int, hi as int)
            == src@.subrange(lo as int, hi as int));
    }
    out
}

/// Sorts `v[lo..hi]` by `le` (a merge sort; equal elements keep their
/// order), leaving the rest of `v` as it is.
fn sort_range<T: Copy, F: Fn(T, T) -> bool>(
    v: &mut Vec<T>,
    lo: usize,
    hi: usize,
    le: &F,
    Ghost(leq): Ghost<spec_fn(T, T) -> bool>,
    Ghost(ok): Ghost<spec_fn(T) -> bool>,
)
    requires
        lo <= hi <= old(v)@.len(),
        total_preorder(leq),
        compares_as(*le, leq, ok),
        forall|k: int| 0 <= k < old(v)@.len() ==> ok(#[trigger] old(v)@[k]),
    ensures
        final(v)@.len() == old(v)@.len(),
        forall|k: int|
            0 <= k < final(v)@.len() && !(lo <= k < hi) ==> #[trigger] final(v)@[k] == old(v)@[k],
        forall|p: int, q: int| lo <= p < q < hi ==> leq(#[trigger] final(v)@[p], #[trigger] final(v)@[q]),
        final(v)@.subrange(lo as int, hi as int).to_multiset() == old(v)@.subrange(
            lo as int,
            hi as int,
        ).to_multiset(),
        forall|k: int| 0 <= k < final(v)@.len() ==> ok(#[trigger] final(v)@[k]),
    decreases hi - lo,
{
    broadcast use vstd::seq_lib::group_to_multiset_ensures;
    broadcast use vstd::multiset::group_multiset_axioms;

    if hi - lo <= 1 {
        return;
    }
    let mid = lo + (hi - lo) / 2;
    let ghost v0 = v@;
    sort_range(v, lo, mid, le, Ghost(leq), Ghost(ok));
    let ghost v1 = v@;
    sort_range(v, mid, hi, le, Ghost(leq), Ghost(ok));
    let ghost v2 = v@;
    proof {
        assert(v2.subrange(lo as int, mid as int) == v1.subrange(lo as int, mid as int));
        assert(v1.subrange(mid as int, hi as int) == v0.subrange(mid as int, hi as int));
        vstd::seq_lib::lemma_multiset_commutative(
            v0.subrange(lo as int, mid as int),
            v0.subrange(mid as int, hi as int),
        );
        vstd::seq_lib::lemma_multiset_commutative(
            v2.subrange(lo as int, mid as int),
            v2.subrange(mid as int, hi as int),
        );
        assert(v0.subrange(lo as int, mid as int) + v0.subrange(mid as int, hi as int)
            == v0.subrange(lo as int, hi as int));
        assert(v2.subrange(lo as int, mid as int) + v2.subrange(mid as int, hi as int)
            == v2.subrange(lo as int, hi as int));
        assert(v2.subrange(lo as int, hi as int).to_multiset() == v0.subrange(lo as int, hi as int).to_multiset());
        assert forall|p: int, q: int| lo <= p < q < mid implies leq(#[trigger] v2[p], #[trigger] v2[q]) by {
            assert(v2[p] == v1[p] && v2[q] == v1[q]);
        }
    }
    let merged = merge(v, lo, mid, hi, le, Ghost(leq), Ghost(ok));
    let mut k: usize = 0;
    while k < merged.len()
        invariant
            merged@.len() == hi - lo,
            lo <= hi <= v@.len(),
            v@.len() == v2.len(),
            forall|t: int| 0 <= t < v@.len() && !(lo <= t < lo + k) ==> #[trigger] v@[t] == v2[t],
            forall|t: int| 0 <= t < k ==> #[trigger] v@[lo + t] == merged@[t],
            k <= merged@.len(),
        decreases merged@.len() - k,
    {
        v.set(lo + k, merged[k]);
        k = k + 1;
    }
    proof {
        assert forall|t: int| 0 <= t < hi - lo implies v@.subrange(lo as int, hi as int)[t]
            == merged@[t] by {
            assert(v@[lo + t] == merged@[t]);
        }
        assert(v@.subrange(lo as int, hi as int) =~= merged@);
        assert forall|t: int| 0 <= t < v@.len() && !(lo <= t < hi) implies #[trigger] v@[t] == v0[t] by {
            assert(v@[t] == v2[t]);
            if t < mid {
                assert(v2[t] == v1[t]);
            }
        }
        assert forall|p: int, q: int| lo <= p < q < hi implies leq(#[trigger] v@[p], #[trigger] v@[q]) by {
            assert(v@[p] == merged@[p - lo] && v@[q] == merged@[q - lo]);
        }
        assert forall|t: int| 0 <= t < v@.len() implies ok(#[trigger] v@[t]) by {
            if lo <= t < hi {
                assert(v@[t] == merged@[t - lo]);
                assert(merged@.to_multiset().count(merged@[t - lo]) > 0);
                assert(v2.subrange(lo as int, hi as int).contains(merged@[t - lo]));
                let w = choose|w: int| 0 <= w < hi - lo && v2.subrange(lo as int, hi as int)[w] == merged@[t - lo];
                assert(v2[lo + w] == merged@[t - lo]);
            } else {
                assert(v@[t] == v2[t]);
            }
        }
    }
}

/// Sorts `v` by `le`, which compares as `leq` any two elements that
/// satisfy `ok` (a merge sort: O(n log n) comparisons, equal elements
/// keeping their order).
pub(crate) fn sort_by<T: Copy, F: Fn(T, T) -> bool>(
    v: &mut Vec<T>,
    le: &F,
    Ghost(leq): Ghost<spec_fn(T, T) -> bool>,
    Ghost(ok): Ghost<spec_fn(T) -> bool>,
)
    requires
        total_preorder(leq),
        compares_as(*le, leq, ok),
        forall|k: int| 0 <= k < old(v)@.len() ==> ok(#[trigger] old(v)@[k]),
    ensures
        sorted_by(final(v)@, leq),
        final(v)@.to_multiset() == old(v)@.to_multiset(),
        forall|k: int| 0 <= k < final(v)@.len() ==> ok(#[trigger] final(v)@[k]),
{
    let n = v.len();
    sort_range(v, 0, n, le, Ghost(leq), Ghost(ok));
    assert(v@.subrange(0, n as int) == v@);
    assert(old(v)@.subrange(0, n as int) == old(v)@);
}

} // verus!

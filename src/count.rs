//! Counting the integers of a range that satisfy a predicate.

use vstd::prelude::*;

verus! {

/// How many `i` in `lo..hi` satisfy `p`.
pub open spec fn count_in(lo: int, hi: int, p: spec_fn(int) -> bool) -> nat
    decreases hi - lo,
{
    if hi <= lo {
        0
    } else {
        count_in(lo, hi - 1, p) + if p(hi - 1) {
            1nat
        } else {
            0nat
        }
    }
}

/// Counting over `lo..hi` is counting over `lo..mid` and then `mid..hi`.
pub proof fn lemma_count_split(lo: int, mid: int, hi: int, p: spec_fn(int) -> bool)
    requires
        lo <= mid <= hi,
    ensures
        count_in(lo, hi, p) == count_in(lo, mid, p) + count_in(mid, hi, p),
    decreases hi - mid,
{
    if hi > mid {
        lemma_count_split(lo, mid, hi - 1, p);
    }
}

/// A predicate false on the whole range counts nothing.
pub proof fn lemma_count_none(lo: int, hi: int, p: spec_fn(int) -> bool)
    requires
        forall|i: int| lo <= i < hi ==> !#[trigger] p(i),
    ensures
        count_in(lo, hi, p) == 0,
    decreases hi - lo,
{
    if hi > lo {
        lemma_count_none(lo, hi - 1, p);
    }
}

/// Counting `q` over a range, where `q` holds exactly where `p` or `r` holds
/// and never both, is counting `p` and counting `r`.
pub proof fn lemma_count_disjoint(
    lo: int,
    hi: int,
    p: spec_fn(int) -> bool,
    r: spec_fn(int) -> bool,
    q: spec_fn(int) -> bool,
)
    requires
        forall|i: int| lo <= i < hi ==> (#[trigger] q(i) <==> (p(i) || r(i))),
        forall|i: int| lo <= i < hi ==> !(#[trigger] p(i) && r(i)),
    ensures
        count_in(lo, hi, q) == count_in(lo, hi, p) + count_in(lo, hi, r),
    decreases hi - lo,
{
    if hi > lo {
        lemma_count_disjoint(lo, hi - 1, p, r, q);
    }
}

/// Counting `q` over `lo..hi`, where `q(i)` is `p(i + k)`, is counting `p`
/// over `lo + k..hi + k`.
pub proof fn lemma_count_shift(lo: int, hi: int, k: int, p: spec_fn(int) -> bool, q: spec_fn(int) -> bool)
    requires
        forall|i: int| lo <= i < hi ==> (#[trigger] q(i) <==> p(i + k)),
    ensures
        count_in(lo, hi, q) == count_in(lo + k, hi + k, p),
    decreases hi - lo,
{
    if hi > lo {
        lemma_count_shift(lo, hi - 1, k, p, q);
    }
}

} // verus!

use vstd::prelude::*;

use crate::order::{lemma_swap_permutes, lemma_window_exchange, permutation_of, sorted};
use crate::vis::{Shade, Visualizer};

verus! {

/// One comparison of a bubbling pass: the neighbors at `i` and `i + 1` are
/// exchanged when out of order, otherwise the sequence is left as it is.
pub open spec fn bubble_step(s: Seq<u16>, i: int) -> Seq<u16> {
    if s[i] > s[i + 1] {
        s.update(i, s[i + 1]).update(i + 1, s[i])
    } else {
        s
    }
}

/// The sequence after a forward pass has compared positions
/// `lo, lo + 1, ..., i - 1` in that order, swapping as it goes.
pub open spec fn fwd_pass_state(s: Seq<u16>, lo: int, i: int) -> Seq<u16>
    decreases i - lo,
{
    if i <= lo {
        s
    } else {
        bubble_step(fwd_pass_state(s, lo, i - 1), i - 1)
    }
}

/// The position of the last exchange such a forward pass makes, if any.
pub open spec fn fwd_last_swap(s: Seq<u16>, lo: int, i: int) -> Option<int>
    decreases i - lo,
{
    if i <= lo {
        None
    } else {
        let before = fwd_pass_state(s, lo, i - 1);
        if before[i - 1] > before[i] {
            Some(i - 1)
        } else {
            fwd_last_swap(s, lo, i - 1)
        }
    }
}

/// The sequence after a backward pass has compared positions
/// `hi - 1, hi - 2, ..., i` in that order, swapping as it goes.
pub open spec fn bwd_pass_state(s: Seq<u16>, i: int, hi: int) -> Seq<u16>
    decreases hi - i,
{
    if hi <= i {
        s
    } else {
        bubble_step(bwd_pass_state(s, i + 1, hi), i)
    }
}

/// The position of the last exchange such a backward pass makes, if any;
/// since the pass walks downward, this is the lowest position exchanged.
pub open spec fn bwd_last_swap(s: Seq<u16>, i: int, hi: int) -> Option<int>
    decreases hi - i,
{
    if hi <= i {
        None
    } else {
        let before = bwd_pass_state(s, i + 1, hi);
        if before[i] > before[i + 1] {
            Some(i)
        } else {
            bwd_last_swap(s, i + 1, hi)
        }
    }
}

/// A window already in ascending order is a fixed point of the forward
/// pass: the pass makes no exchange and leaves the sequence as it is. So
/// cocktail shaker sort started on an already-sorted sequence terminates
/// after exactly one forward pass with zero swaps.
pub proof fn lemma_sorted_window_fixed(s: Seq<u16>, lo: int, i: int)
    requires
        0 <= lo <= i < s.len(),
        forall|p: int, q: int| lo <= p < q <= i ==> s[p] <= s[q],
    ensures
        fwd_pass_state(s, lo, i) == s,
        fwd_last_swap(s, lo, i) is None,
    decreases i - lo,
{
    if i > lo {
        lemma_sorted_window_fixed(s, lo, i - 1);
        assert(s[i - 1] <= s[i]);
    }
}

/// One forward pass of cocktail shaker sort over the window `[lo, hi]`:
/// bubbles the largest element of the window to its top and returns the
/// position of the last exchange, or `None` when the window was already in
/// ascending order. With a context, each compared pair is redrawn — the
/// element just carried forward in accent, its neighbor in base — and a
/// pause follows, whether or not the pair was swapped.
#[verifier::loop_isolation(false)]
pub fn forward_pass(list: &mut Vec<u16>, lo: usize, hi: usize, visualizer: Option<
    &Visualizer,
>) -> (r: Option<usize>)
    requires
        lo <= hi < old(list)@.len(),
        visualizer matches Some(v) ==> v.offset() == 0 && v.covers(old(list)@.len() as int),
    ensures
        final(list)@.len() == old(list)@.len(),
        final(list)@ == fwd_pass_state(old(list)@, lo as int, hi as int),
        permutation_of(final(list)@, old(list)@),
        forall|k: int|
            0 <= k < old(list)@.len() && !(lo <= k <= hi) ==> final(list)@[k] == old(list)@[k],
        match r {
            None => {
                &&& fwd_last_swap(old(list)@, lo as int, hi as int) is None
                &&& final(list)@ == old(list)@
                &&& forall|p: int, q: int|
                    lo <= p < q <= hi ==> final(list)@[p] <= final(list)@[q]
            },
            Some(last) => {
                &&& fwd_last_swap(old(list)@, lo as int, hi as int) == Some(last as int)
                &&& lo <= last < hi
                &&& forall|p: int, q: int|
                    lo <= p < q <= hi && last < q ==> final(list)@[p] <= final(list)@[q]
            },
        },
{
    let ghost snap = list@;
    let mut last: Option<usize> = None;
    let mut i: usize = lo;
    while i < hi
        invariant
            lo <= i <= hi,
            list@.len() == snap.len(),
            list@ == fwd_pass_state(snap, lo as int, i as int),
            permutation_of(list@, snap),
            forall|k: int| 0 <= k < snap.len() && !(lo <= k <= i) ==> list@[k] == snap[k],
            forall|k: int| lo <= k <= i ==> list@[k] <= list@[i as int],
            match last {
                None => {
                    &&& fwd_last_swap(snap, lo as int, i as int) is None
                    &&& list@ == snap
                    &&& forall|p: int, q: int| lo <= p < q <= i ==> list@[p] <= list@[q]
                },
                Some(l) => {
                    &&& fwd_last_swap(snap, lo as int, i as int) == Some(l as int)
                    &&& lo <= l < i
                    &&& forall|p: int, q: int|
                        lo <= p < q <= i && l < q ==> list@[p] <= list@[q]
                },
            },
        decreases hi - i,
    {
        let ghost cur = list@;
        if list[i] > list[i + 1] {
            let a: u16 = list[i];
            let b: u16 = list[i + 1];
            list[i] = b;
            list[i + 1] = a;
            proof {
                lemma_swap_permutes(cur, i as int, i + 1);
            }
            last = Some(i);
        }
        proof {
            assert(fwd_pass_state(snap, lo as int, i + 1) == bubble_step(cur, i as int));
            assert(fwd_last_swap(snap, lo as int, i + 1) == (if cur[i as int] > cur[i + 1] {
                Some(i as int)
            } else {
                fwd_last_swap(snap, lo as int, i as int)
            }));
        }
        if let Some(vis) = visualizer {
            vis.print_stack((i + 1) as u16, list[i + 1], Shade::Accent);
            vis.print_stack(i as u16, list[i], Shade::Base);
            vis.pause();
        }
        i = i + 1;
    }
    last
}

/// One backward pass of cocktail shaker sort over the window `[lo, hi]`:
/// bubbles the smallest element of the window to its bottom and returns the
/// position of the last (that is, lowest) exchange, or `None` when the
/// window was already in ascending order. Redraw events mirror the forward
/// pass, with the element just carried backward in accent.
#[verifier::loop_isolation(false)]
pub fn backward_pass(list: &mut Vec<u16>, lo: usize, hi: usize, visualizer: Option<
    &Visualizer,
>) -> (r: Option<usize>)
    requires
        lo <= hi < old(list)@.len(),
        visualizer matches Some(v) ==> v.offset() == 0 && v.covers(old(list)@.len() as int),
    ensures
        final(list)@.len() == old(list)@.len(),
        final(list)@ == bwd_pass_state(old(list)@, lo as int, hi as int),
        permutation_of(final(list)@, old(list)@),
        forall|k: int|
            0 <= k < old(list)@.len() && !(lo <= k <= hi) ==> final(list)@[k] == old(list)@[k],
        match r {
            None => {
                &&& bwd_last_swap(old(list)@, lo as int, hi as int) is None
                &&& final(list)@ == old(list)@
                &&& forall|p: int, q: int|
                    lo <= p < q <= hi ==> final(list)@[p] <= final(list)@[q]
            },
            Some(low) => {
                &&& bwd_last_swap(old(list)@, lo as int, hi as int) == Some(low as int)
                &&& lo <= low < hi
                &&& forall|p: int, q: int|
                    lo <= p < q <= hi && p <= low ==> final(list)@[p] <= final(list)@[q]
            },
        },
{
    let ghost snap = list@;
    let mut last: Option<usize> = None;
    let mut i: usize = hi;
    while i > lo
        invariant
            lo <= i <= hi,
            list@.len() == snap.len(),
            list@ == bwd_pass_state(snap, i as int, hi as int),
            permutation_of(list@, snap),
            forall|k: int| 0 <= k < snap.len() && !(i <= k <= hi) ==> list@[k] == snap[k],
            forall|k: int| i <= k <= hi ==> list@[i as int] <= list@[k],
            match last {
                None => {
                    &&& bwd_last_swap(snap, i as int, hi as int) is None
                    &&& list@ == snap
                    &&& forall|p: int, q: int| i <= p < q <= hi ==> list@[p] <= list@[q]
                },
                Some(l) => {
                    &&& bwd_last_swap(snap, i as int, hi as int) == Some(l as int)
                    &&& i <= l < hi
                    &&& forall|p: int, q: int|
                        i <= p < q <= hi && p <= l ==> list@[p] <= list@[q]
                },
            },
        decreases i,
    {
        let ghost cur = list@;
        let j: usize = i - 1;
        if list[j] > list[j + 1] {
            let a: u16 = list[j];
            let b: u16 = list[j + 1];
            list[j] = b;
            list[j + 1] = a;
            proof {
                lemma_swap_permutes(cur, j as int, j + 1);
            }
            last = Some(j);
        }
        proof {
            assert(bwd_pass_state(snap, j as int, hi as int) == bubble_step(cur, j as int));
            assert(bwd_last_swap(snap, j as int, hi as int) == (if cur[j as int] > cur[j + 1] {
                Some(j as int)
            } else {
                bwd_last_swap(snap, i as int, hi as int)
            }));
        }
        if let Some(vis) = visualizer {
            vis.print_stack(j as u16, list[j], Shade::Accent);
            vis.print_stack((j + 1) as u16, list[j + 1], Shade::Base);
            vis.pause();
        }
        i = j;
    }
    last
}

/// Sorts the sequence in place by cocktail shaker sort: forward and
/// backward bubbling passes alternate over a shrinking active window whose
/// bounds move to the last exchange of each pass. A forward pass that makes
/// no exchange finds the window already ascending and ends the sort, so an
/// already-sorted sequence terminates after exactly one forward pass. Full
/// redraws follow every pass when visualized. The result is the sorted
/// permutation of the input, which by `lemma_sorted_outcome_unique` is the
/// one any reference sort returns.
#[verifier::loop_isolation(false)]
pub fn cocktail_sort(list: &mut Vec<u16>, visualizer: Option<&Visualizer>)
    requires
        old(list)@.len() >= 1,
        visualizer matches Some(v) ==> v.offset() == 0 && v.covers(old(list)@.len() as int),
    ensures
        final(list)@.len() == old(list)@.len(),
        sorted(final(list)@),
        permutation_of(final(list)@, old(list)@),
{
    let n: usize = list.len();
    let mut lower: usize = 0;
    let mut upper: usize = n - 1;
    let mut done: bool = false;
    while !done && lower <= upper
        invariant
            upper < n,
            lower <= upper + 1,
            list@.len() == n,
            permutation_of(list@, old(list)@),
            forall|p: int, q: int| 0 <= p < q < n && p < lower ==> list@[p] <= list@[q],
            forall|p: int, q: int| 0 <= p < q < n && q > upper ==> list@[p] <= list@[q],
            done ==> sorted(list@),
        decreases (if done { 0int } else { 1int }), upper + 1 - lower,
    {
        let ghost s0 = list@;
        let r = forward_pass(list, lower, upper, visualizer);
        let ghost s1 = list@;
        if let Some(vis) = visualizer {
            vis.print_list(list);
        }
        match r {
            None => {
                proof {
                    assert forall|p: int, q: int| 0 <= p < q < n implies list@[p] <= list@[q] by {
                        if p >= lower && q <= upper {
                            assert(s1[p] <= s1[q]);
                        }
                    }
                }
                done = true;
            },
            Some(last) => {
                proof {
                    assert forall|p: int, q: int|
                        0 <= p < q < n && p < lower implies s1[p] <= s1[q] by {
                        if lower <= q <= upper {
                            let q0 = lemma_window_exchange(
                                s0, s1, lower as int, upper as int, q);
                            assert(s0[p] <= s0[q0]);
                        }
                    }
                    assert forall|p: int, q: int|
                        0 <= p < q < n && q > last implies s1[p] <= s1[q] by {
                        if q > upper {
                            if lower <= p <= upper {
                                let p0 = lemma_window_exchange(
                                    s0, s1, lower as int, upper as int, p);
                                assert(s0[p0] <= s0[q]);
                            } else {
                                assert(s0[p] <= s0[q]);
                            }
                        }
                    }
                }
                upper = last;
                let ghost s1b = list@;
                let r2 = backward_pass(list, lower, upper, visualizer);
                let ghost s2 = list@;
                if let Some(vis) = visualizer {
                    vis.print_list(list);
                }
                proof {
                    assert forall|p: int, q: int|
                        0 <= p < q < n && p < lower implies s2[p] <= s2[q] by {
                        if lower <= q <= upper {
                            let q0 = lemma_window_exchange(
                                s1b, s2, lower as int, upper as int, q);
                            assert(s1b[p] <= s1b[q0]);
                        }
                    }
                    assert forall|p: int, q: int|
                        0 <= p < q < n && q > upper implies s2[p] <= s2[q] by {
                        if lower <= p <= upper {
                            let p0 = lemma_window_exchange(
                                s1b, s2, lower as int, upper as int, p);
                            assert(s1b[p0] <= s1b[q]);
                        }
                    }
                }
                match r2 {
                    None => {
                        lower = lower + 1;
                    },
                    Some(lb) => {
                        lower = lb + 1;
                    },
                }
            },
        }
    }
    proof {
        assert(sorted(list@));
    }
}

} // verus!

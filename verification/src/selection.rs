use vstd::prelude::*;

use crate::order::{lemma_swap_permutes, permutation_of, sorted};
use crate::vis::{Shade, Visualizer};

verus! {

/// One outer iteration of selection sort: scans positions `i..` for the
/// first minimum, swaps it into position `i`, and returns the index where
/// that minimum stood. With a context, every scan step redraws the previous
/// scan column (base) and the current one (accent), then pauses.
#[verifier::loop_isolation(false)]
pub fn select_pass(list: &mut Vec<u16>, i: usize, visualizer: Option<&Visualizer>) -> (m: usize)
    requires
        i < old(list)@.len(),
        visualizer matches Some(v) ==> v.offset() == 0 && v.covers(old(list)@.len() as int),
    ensures
        final(list)@.len() == old(list)@.len(),
        i <= m < old(list)@.len(),
        forall|k: int| i <= k < old(list)@.len() ==> old(list)@[m as int] <= old(list)@[k],
        forall|k: int| i <= k < m ==> old(list)@[k] > old(list)@[m as int],
        final(list)@ == if m != i {
            old(list)@.update(i as int, old(list)@[m as int]).update(m as int, old(list)@[i as int])
        } else {
            old(list)@
        },
{
    let ghost snap = list@;
    let n: usize = list.len();
    let mut min_index: usize = i;
    let mut j: usize = i + 1;
    while j < n
        invariant
            i <= min_index < j,
            j <= list@.len(),
            list@ == snap,
            forall|k: int| i <= k < j ==> snap[min_index as int] <= snap[k],
            forall|k: int| i <= k < min_index ==> snap[k] > snap[min_index as int],
        decreases list@.len() - j,
    {
        if list[j] < list[min_index] {
            min_index = j;
        }
        if let Some(vis) = visualizer {
            vis.print_stack((j - 1) as u16, list[j - 1], Shade::Base);
            vis.print_stack(j as u16, list[j], Shade::Accent);
            vis.pause();
        }
        j = j + 1;
    }
    if min_index != i {
        let low: u16 = list[min_index];
        let high: u16 = list[i];
        list[i] = low;
        list[min_index] = high;
    }
    min_index
}

/// Sorts the sequence in place by selection sort: each outer iteration
/// swaps the minimum of the remainder into place, then issues a full
/// redraw when visualized. The result is the sorted permutation of the
/// input, which by `lemma_sorted_outcome_unique` is the one any reference
/// sort returns.
#[verifier::loop_isolation(false)]
pub fn selection_sort(list: &mut Vec<u16>, visualizer: Option<&Visualizer>)
    requires
        old(list)@.len() >= 1,
        visualizer matches Some(v) ==> v.offset() == 0 && v.covers(old(list)@.len() as int),
    ensures
        final(list)@.len() == old(list)@.len(),
        sorted(final(list)@),
        permutation_of(final(list)@, old(list)@),
{
    let mut i: usize = 0;
    while i < list.len() - 1
        invariant
            i < list@.len(),
            list@.len() == old(list)@.len(),
            permutation_of(list@, old(list)@),
            forall|p: int, q: int| 0 <= p < q < list@.len() && p < i ==> list@[p] <= list@[q],
        decreases list@.len() - i,
    {
        let ghost pre = list@;
        let m = select_pass(list, i, visualizer);
        proof {
            if m != i {
                lemma_swap_permutes(pre, i as int, m as int);
            }
        }
        if let Some(vis) = visualizer {
            vis.print_list(list);
        }
        i = i + 1;
    }
}

} // verus!

use vstd::prelude::*;

use crate::order::{permutation_of, sorted};
use crate::vis::{Shade, Visualizer};

verus! {

/// One outer iteration of insertion sort: shifts the element at position `i`
/// left past every strictly larger predecessor, so that positions `0..=i`
/// end up sorted while everything beyond `i` stays untouched. With a
/// context, every shift redraws the shifted-into column (accent) and the
/// vacated neighbor (base), then pauses.
#[verifier::loop_isolation(false)]
pub fn insert_step(list: &mut Vec<u16>, i: usize, visualizer: Option<&Visualizer>)
    requires
        i < old(list)@.len(),
        sorted(old(list)@.subrange(0, i as int)),
        visualizer matches Some(v) ==> v.offset() == 0 && v.covers(old(list)@.len() as int),
    ensures
        final(list)@.len() == old(list)@.len(),
        sorted(final(list)@.subrange(0, i + 1)),
        permutation_of(final(list)@, old(list)@),
        final(list)@.subrange(i + 1, old(list)@.len() as int) == old(list)@.subrange(
            i + 1,
            old(list)@.len() as int,
        ),
{
    let ghost snap = list@;
    let x: u16 = list[i];
    let mut j: usize = i;
    while j > 0 && list[j - 1] > x
        invariant
            j <= i,
            list@.len() == snap.len(),
            forall|k: int| 0 <= k <= j ==> list@[k] == snap[k],
            forall|k: int| j < k <= i ==> list@[k] == snap[k - 1],
            forall|k: int| i < k < snap.len() ==> list@[k] == snap[k],
            forall|k: int| j < k <= i ==> list@[k] > x,
        decreases j,
    {
        let moved: u16 = list[j - 1];
        list[j] = moved;
        if let Some(vis) = visualizer {
            vis.print_stack(j as u16, moved, Shade::Accent);
            if j + 1 < list.len() {
                vis.print_stack((j + 1) as u16, list[j + 1], Shade::Base);
            }
            vis.pause();
        }
        j = j - 1;
    }
    list[j] = x;
    proof {
        let len = snap.len() as int;
        assert(list@.subrange(i + 1, len) =~= snap.subrange(i + 1, len));
        assert forall|p: int, q: int| 0 <= p < q <= i implies list@[p] <= list@[q] by {
            if q < j {
                assert(snap.subrange(0, i as int)[p] <= snap.subrange(0, i as int)[q]);
            } else if q == j {
                assert(snap.subrange(0, i as int)[p] <= snap.subrange(0, i as int)[j - 1]);
            } else if p < j {
                if p < q - 1 {
                    assert(snap.subrange(0, i as int)[p] <= snap.subrange(0, i as int)[q - 1]);
                }
            } else if p == j {
                assert(list@[q] > x);
            } else {
                if p - 1 < q - 1 {
                    assert(snap.subrange(0, i as int)[p - 1] <= snap.subrange(0, i as int)[q - 1]);
                }
            }
        }
        assert(sorted(list@.subrange(0, i + 1)));
        let a = snap.subrange(0, j as int);
        let b = snap.subrange(j as int, i as int);
        let c = snap.subrange(i + 1, len);
        assert(x == snap[i as int]);
        assert(list@ =~= a + seq![x] + b + c);
        assert(snap =~= a + b + seq![x] + c);
        vstd::seq_lib::lemma_multiset_commutative(a + seq![x] + b, c);
        vstd::seq_lib::lemma_multiset_commutative(a + seq![x], b);
        vstd::seq_lib::lemma_multiset_commutative(a, seq![x]);
        vstd::seq_lib::lemma_multiset_commutative(a + b + seq![x], c);
        vstd::seq_lib::lemma_multiset_commutative(a + b, seq![x]);
        vstd::seq_lib::lemma_multiset_commutative(a, b);
        assert(list@.to_multiset() =~= snap.to_multiset());
    }
}

/// Sorts the sequence in place by classic insertion sort. With a context,
/// each shift is redrawn, and every outer iteration ends in a
/// full redraw. The result is the sorted permutation of the input, which by
/// `lemma_sorted_outcome_unique` is the one any reference sort returns.
#[verifier::loop_isolation(false)]
pub fn insertion_sort(list: &mut Vec<u16>, visualizer: Option<&Visualizer>)
    requires
        visualizer matches Some(v) ==> v.offset() == 0 && v.covers(old(list)@.len() as int),
    ensures
        final(list)@.len() == old(list)@.len(),
        sorted(final(list)@),
        permutation_of(final(list)@, old(list)@),
{
    if list.len() < 2 {
        return ;
    }
    let mut i: usize = 1;
    while i < list.len()
        invariant
            1 <= i <= list@.len(),
            list@.len() == old(list)@.len(),
            sorted(list@.subrange(0, i as int)),
            permutation_of(list@, old(list)@),
        decreases list@.len() - i,
    {
        insert_step(list, i, visualizer);
        if let Some(vis) = visualizer {
            vis.print_list(list);
        }
        i = i + 1;
    }
    proof {
        assert(list@.subrange(0, list@.len() as int) =~= list@);
    }
}

} // verus!
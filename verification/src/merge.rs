use vstd::prelude::*;

use crate::order::{permutation_of, sorted};
use crate::vis::{Shade, Visualizer};

verus! {

/// Copies the sub-range `[from, to)` of the list into a fresh vector.
#[verifier::loop_isolation(false)]
fn copy_range(list: &Vec<u16>, from: usize, to: usize) -> (r: Vec<u16>)
    requires
        from <= to <= list@.len(),
    ensures
        r@ == list@.subrange(from as int, to as int),
{
    let mut r: Vec<u16> = Vec::new();
    let mut k: usize = from;
    while k < to
        invariant
            from <= k <= to,
            r@ == list@.subrange(from as int, k as int),
        decreases to - k,
    {
        r.push(list[k]);
        proof {
            assert(r@ =~= list@.subrange(from as int, k + 1));
        }
        k = k + 1;
    }
    r
}

/// Redraws the column just written by a merge step in the accent color and
/// resets the one immediately behind it to the base color, both at their
/// absolute screen positions under the context's offset.
pub fn merge_sweep(index: usize, list: &Vec<u16>, visualizer: &Visualizer)
    requires
        index < list@.len(),
        visualizer.covers(list@.len() as int),
{
    let x: u16 = visualizer.get_x_offset() + index as u16;
    visualizer.print_stack(x, list[index], Shade::Accent);
    if index > 0 {
        visualizer.print_stack(x - 1, list[index - 1], Shade::Base);
    }
}

/// Merges two sorted runs into the output list, repeatedly writing the
/// smaller of the two fronts to the next position. With a context, each
/// written position is redrawn (accent), its predecessor reset (base), and
/// a pause follows; the final column is explicitly reset to base after the
/// loop, since the last step otherwise leaves it accent-colored.
#[verifier::loop_isolation(false)]
pub fn merge(left: &Vec<u16>, right: &Vec<u16>, list: &mut Vec<u16>, visualizer: Option<
    &Visualizer,
>)
    requires
        sorted(left@),
        sorted(right@),
        old(list)@.len() == left@.len() + right@.len(),
        old(list)@.len() >= 1,
        visualizer matches Some(v) ==> v.covers(old(list)@.len() as int),
    ensures
        final(list)@.len() == old(list)@.len(),
        sorted(final(list)@),
        final(list)@.to_multiset() == (left@ + right@).to_multiset(),
{
    broadcast use vstd::seq_lib::group_to_multiset_ensures;

    let n: usize = list.len();
    let mut li: usize = 0;
    let mut ri: usize = 0;
    let mut index: usize = 0;
    while li < left.len() && ri < right.len()
        invariant
            li <= left@.len(),
            ri <= right@.len(),
            index == li + ri,
            index <= n,
            list@.len() == n,
            sorted(list@.subrange(0, index as int)),
            list@.subrange(0, index as int).to_multiset() == (left@.subrange(0, li as int)
                + right@.subrange(0, ri as int)).to_multiset(),
            forall|k: int| 0 <= k < index && li < left@.len() ==> list@[k] <= left@[li as int],
            forall|k: int| 0 <= k < index && ri < right@.len() ==> list@[k] <= right@[ri as int],
        decreases left@.len() + right@.len() - li - ri,
    {
        let ghost prefix = list@.subrange(0, index as int);
        let ghost la = left@.subrange(0, li as int);
        let ghost ra = right@.subrange(0, ri as int);
        let val: u16;
        if left[li] < right[ri] {
            val = left[li];
            list[index] = val;
            proof {
                assert(left@.subrange(0, li + 1) =~= la.push(val));
                vstd::seq_lib::lemma_multiset_commutative(la, ra);
                vstd::seq_lib::lemma_multiset_commutative(la.push(val), ra);
                assert((la.push(val) + ra).to_multiset() =~= (la + ra).to_multiset().insert(val));
            }
            li = li + 1;
        } else {
            val = right[ri];
            list[index] = val;
            proof {
                assert(right@.subrange(0, ri + 1) =~= ra.push(val));
                vstd::seq_lib::lemma_multiset_commutative(la, ra);
                vstd::seq_lib::lemma_multiset_commutative(la, ra.push(val));
                assert((la + ra.push(val)).to_multiset() =~= (la + ra).to_multiset().insert(val));
            }
            ri = ri + 1;
        }
        proof {
            assert(list@.subrange(0, index + 1) =~= prefix.push(val));
        }
        if let Some(vis) = visualizer {
            merge_sweep(index, list, vis);
            vis.pause();
        }
        index = index + 1;
    }
    while li < left.len()
        invariant
            li <= left@.len(),
            ri <= right@.len(),
            li < left@.len() ==> ri == right@.len(),
            index == li + ri,
            index <= n,
            list@.len() == n,
            sorted(list@.subrange(0, index as int)),
            list@.subrange(0, index as int).to_multiset() == (left@.subrange(0, li as int)
                + right@.subrange(0, ri as int)).to_multiset(),
            forall|k: int| 0 <= k < index && li < left@.len() ==> list@[k] <= left@[li as int],
            forall|k: int| 0 <= k < index && ri < right@.len() ==> list@[k] <= right@[ri as int],
        decreases left@.len() - li,
    {
        let ghost prefix = list@.subrange(0, index as int);
        let ghost la = left@.subrange(0, li as int);
        let ghost ra = right@.subrange(0, ri as int);
        let val: u16 = left[li];
        list[index] = val;
        proof {
            assert(left@.subrange(0, li + 1) =~= la.push(val));
            vstd::seq_lib::lemma_multiset_commutative(la, ra);
            vstd::seq_lib::lemma_multiset_commutative(la.push(val), ra);
            assert((la.push(val) + ra).to_multiset() =~= (la + ra).to_multiset().insert(val));
            assert(list@.subrange(0, index + 1) =~= prefix.push(val));
        }
        if let Some(vis) = visualizer {
            merge_sweep(index, list, vis);
            vis.pause();
        }
        li = li + 1;
        index = index + 1;
    }
    while ri < right.len()
        invariant
            li == left@.len(),
            ri <= right@.len(),
            index == li + ri,
            index <= n,
            list@.len() == n,
            sorted(list@.subrange(0, index as int)),
            list@.subrange(0, index as int).to_multiset() == (left@.subrange(0, li as int)
                + right@.subrange(0, ri as int)).to_multiset(),
            forall|k: int| 0 <= k < index && ri < right@.len() ==> list@[k] <= right@[ri as int],
        decreases right@.len() - ri,
    {
        let ghost prefix = list@.subrange(0, index as int);
        let ghost la = left@.subrange(0, li as int);
        let ghost ra = right@.subrange(0, ri as int);
        let val: u16 = right[ri];
        list[index] = val;
        proof {
            assert(right@.subrange(0, ri + 1) =~= ra.push(val));
            vstd::seq_lib::lemma_multiset_commutative(la, ra);
            vstd::seq_lib::lemma_multiset_commutative(la, ra.push(val));
            assert((la + ra.push(val)).to_multiset() =~= (la + ra).to_multiset().insert(val));
            assert(list@.subrange(0, index + 1) =~= prefix.push(val));
        }
        if let Some(vis) = visualizer {
            merge_sweep(index, list, vis);
            vis.pause();
        }
        ri = ri + 1;
        index = index + 1;
    }
    proof {
        assert(left@.subrange(0, left@.len() as int) =~= left@);
        assert(right@.subrange(0, right@.len() as int) =~= right@);
        assert(list@.subrange(0, index as int) =~= list@);
    }
    if let Some(vis) = visualizer {
        vis.print_stack(vis.get_x_offset() + (index - 1) as u16, list[index - 1], Shade::Base);
    }
}

/// Recursive merge sort: splits at the midpoint, sorts each half — the
/// right half under a child context whose offset is advanced by the left
/// half's length through `with_offset`, so its redraws land at the correct
/// absolute columns — then merges the halves back into the list. A
/// sub-range of length 1 is trivially sorted and emits no event. The result
/// is the sorted permutation of the input, which by
/// `lemma_sorted_outcome_unique` is the one any reference sort returns.
pub fn merge_sort(list: &mut Vec<u16>, visualizer: Option<&Visualizer>)
    requires
        old(list)@.len() >= 1,
        visualizer matches Some(v) ==> v.covers(old(list)@.len() as int),
    ensures
        final(list)@.len() == old(list)@.len(),
        sorted(final(list)@),
        permutation_of(final(list)@, old(list)@),
    decreases old(list)@.len(),
{
    let ghost snap = list@;
    let n: usize = list.len();
    if n == 1 {
        return ;
    }
    let half: usize = n / 2;
    let mut left = copy_range(list, 0, half);
    let mut right = copy_range(list, half, n);
    let ghost left_half = left@;
    let ghost right_half = right@;
    match visualizer {
        Some(vis) => {
            let left_vis = vis.with_offset(0, Ghost(half as int));
            merge_sort(&mut left, Some(&left_vis));
            let right_vis = vis.with_offset(half as u16, Ghost(n - half as int));
            merge_sort(&mut right, Some(&right_vis));
        },
        None => {
            merge_sort(&mut left, None);
            merge_sort(&mut right, None);
        },
    }
    merge(&left, &right, list, visualizer);
    proof {
        vstd::seq_lib::lemma_multiset_commutative(left@, right@);
        vstd::seq_lib::lemma_multiset_commutative(left_half, right_half);
        assert(left_half + right_half =~= snap);
    }
}

} // verus!

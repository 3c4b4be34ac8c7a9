use vstd::prelude::*;

use rand::seq::SliceRandom;

use crate::order::ascending_run;
use crate::vis::ELEMENTS;

verus! {

/// Relies on rand's `SliceRandom::shuffle` driven by the thread-local
/// generator: it reorders the elements in place by exchanging pairs, so
/// whatever order comes back, the multiset of elements is unchanged.
#[verifier::external_body]
fn shuffle_in_place(list: &mut Vec<u16>)
    ensures
        final(list)@.len() == old(list)@.len(),
        final(list)@.to_multiset() == old(list)@.to_multiset(),
{
    list.shuffle(&mut rand::thread_rng());
}

/// Builds the values `1..=ELEMENTS` in order and shuffles them: the result
/// holds each of those values exactly once, in an order the generator
/// picks, so a reference sort of it gives back the ascending run.
pub fn create_random_list() -> (r: Vec<u16>)
    ensures
        r@.len() == ELEMENTS as int,
        r@.to_multiset() == ascending_run(ELEMENTS as nat).to_multiset(),
{
    let mut list: Vec<u16> = Vec::new();
    let mut v: u16 = 1;
    while v <= ELEMENTS
        invariant
            1 <= v <= ELEMENTS + 1,
            list@ == ascending_run((v - 1) as nat),
        decreases ELEMENTS + 1 - v,
    {
        list.push(v);
        proof {
            assert(list@ =~= ascending_run(v as nat));
        }
        v = v + 1;
    }
    shuffle_in_place(&mut list);
    list
}

} // verus!

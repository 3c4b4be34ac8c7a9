use vstd::prelude::*;

verus! {

/// A sequence is in non-decreasing order.
pub open spec fn sorted(s: Seq<u16>) -> bool {
    forall|i: int, j: int| 0 <= i < j < s.len() ==> s[i] <= s[j]
}

/// Two sequences hold the same elements, with the same repetition counts.
pub open spec fn permutation_of(a: Seq<u16>, b: Seq<u16>) -> bool {
    a.to_multiset() == b.to_multiset()
}

/// The ascending sequence `1, 2, ..., n`.
pub open spec fn ascending_run(n: nat) -> Seq<u16> {
    Seq::new(n, |i: int| (i + 1) as u16)
}

/// A sorted rearrangement of given elements is unique: any two sorted
/// sequences that are permutations of one another agree element for element.
/// In particular every sorting engine, run with or without a visualization
/// context, returns exactly the output of a trusted reference sort of the
/// same input, since all of them promise a sorted permutation of it.
pub proof fn lemma_sorted_outcome_unique(a: Seq<u16>, b: Seq<u16>)
    requires
        sorted(a),
        sorted(b),
        permutation_of(a, b),
    ensures
        a == b,
{
    let leq = |x: u16, y: u16| x <= y;
    assert(vstd::relations::sorted_by(a, leq)) by {
        assert(forall|i: int, j: int| 0 <= i < j < a.len() ==> #[trigger] leq(a[i], a[j]));
    }
    assert(vstd::relations::sorted_by(b, leq)) by {
        assert(forall|i: int, j: int| 0 <= i < j < b.len() ==> #[trigger] leq(b[i], b[j]));
    }
    assert(vstd::relations::total_ordering(leq)) by {
        assert(forall|x: u16| #[trigger] leq(x, x));
        assert(forall|x: u16, y: u16| #[trigger] leq(x, y) && #[trigger] leq(y, x) ==> x == y);
        assert(forall|x: u16, y: u16, z: u16|
            #[trigger] leq(x, y) && #[trigger] leq(y, z) ==> leq(x, z));
        assert(forall|x: u16, y: u16| #[trigger] leq(x, y) || #[trigger] leq(y, x));
    }
    vstd::seq_lib::lemma_sorted_unique(a, b, leq);
    assert(a =~= b);
}

/// Exchanging the elements at two positions of a sequence only reorders it:
/// the multiset of its elements is unchanged.
pub proof fn lemma_swap_permutes(s: Seq<u16>, i: int, j: int)
    requires
        0 <= i < s.len(),
        0 <= j < s.len(),
    ensures
        permutation_of(s.update(i, s[j]).update(j, s[i]), s),
{
    broadcast use vstd::seq_lib::group_to_multiset_ensures;
    broadcast use vstd::multiset::group_multiset_axioms;

    assert(s.contains(s[i]));
    assert(s.contains(s[j]));
    assert(s.update(i, s[j]).update(j, s[i]).to_multiset() =~= s.to_multiset());
}

/// A sequence of length 1 is already sorted, so every engine returns it
/// unchanged: any sorted permutation of it is the sequence itself.
pub proof fn lemma_singleton_fixed(a: Seq<u16>, b: Seq<u16>)
    requires
        a.len() == 1,
        sorted(b),
        permutation_of(b, a),
    ensures
        b == a,
{
    lemma_sorted_outcome_unique(b, a);
}

/// If two equally long sequences hold the same elements overall and agree
/// outside the window `[lo, hi]`, then any element found at a window
/// position of one also stands at some window position of the other.
pub proof fn lemma_window_exchange(s0: Seq<u16>, s1: Seq<u16>, lo: int, hi: int, p: int) -> (p0:
    int)
    requires
        s0.len() == s1.len(),
        0 <= lo <= p <= hi < s0.len(),
        permutation_of(s1, s0),
        forall|k: int| 0 <= k < s0.len() && !(lo <= k <= hi) ==> s1[k] == s0[k],
    ensures
        lo <= p0 <= hi,
        s0[p0] == s1[p],
{
    broadcast use vstd::seq_lib::group_to_multiset_ensures;
    broadcast use vstd::multiset::group_multiset_axioms;

    let len = s0.len() as int;
    let a = s0.subrange(0, lo);
    let b = s0.subrange(hi + 1, len);
    let w0 = s0.subrange(lo, hi + 1);
    let w1 = s1.subrange(lo, hi + 1);
    assert(s0 =~= a + w0 + b);
    assert(s1 =~= a + w1 + b);
    vstd::seq_lib::lemma_multiset_commutative(a + w0, b);
    vstd::seq_lib::lemma_multiset_commutative(a, w0);
    vstd::seq_lib::lemma_multiset_commutative(a + w1, b);
    vstd::seq_lib::lemma_multiset_commutative(a, w1);
    assert(w0.to_multiset() =~= w1.to_multiset()) by {
        assert(forall|x: u16|
            #[trigger] w0.to_multiset().count(x) == s0.to_multiset().count(x)
                - a.to_multiset().count(x) - b.to_multiset().count(x));
        assert(forall|x: u16|
            #[trigger] w1.to_multiset().count(x) == s1.to_multiset().count(x)
                - a.to_multiset().count(x) - b.to_multiset().count(x));
    }
    assert(w1.contains(s1[p])) by {
        assert(w1[p - lo] == s1[p]);
    }
    assert(w0.to_multiset().count(s1[p]) > 0);
    assert(w0.contains(s1[p]));
    let i0 = choose|i: int| 0 <= i < w0.len() && w0[i] == s1[p];
    assert(s0[lo + i0] == s1[p]);
    lo + i0
}

/// The ascending run `1..=n` is sorted, so by uniqueness it is the one
/// sorted arrangement of the values a freshly generated sequence holds.
pub proof fn lemma_ascending_run_sorted(n: nat)
    requires
        n <= u16::MAX,
    ensures
        sorted(ascending_run(n)),
        ascending_run(n).len() == n,
{
}

} // verus!

//! Hazard layouts as flat sequences of markers, one per cell in row-major
//! order, and the random permutation that a new board is drawn with.
use vstd::prelude::*;
use rand::seq::SliceRandom;

verus! {

/// The number of markers that are set.
pub open spec fn hazards_in(markers: Seq<bool>) -> nat
    decreases markers.len(),
{
    if markers.len() == 0 {
        0
    } else {
        hazards_in(markers.drop_last()) + if markers.last() {
            1nat
        } else {
            0nat
        }
    }
}

/// The number of set markers is the multiplicity of `true` among them.
pub proof fn lemma_hazards_in_is_multiplicity(markers: Seq<bool>)
    ensures
        hazards_in(markers) == markers.to_multiset().count(true),
    decreases markers.len(),
{
    broadcast use vstd::multiset::group_multiset_axioms;

    if markers.len() == 0 {
        markers.to_multiset_ensures();
    } else {
        let front = markers.drop_last();
        lemma_hazards_in_is_multiplicity(front);
        assert(front.push(markers.last()) =~= markers);
        vstd::seq_lib::to_multiset_build(front, markers.last());
    }
}

/// A rearrangement of the markers sets as many of them.
pub proof fn lemma_rearranged_keeps_hazards(before: Seq<bool>, after: Seq<bool>)
    requires
        before.to_multiset() == after.to_multiset(),
    ensures
        hazards_in(after) == hazards_in(before),
        after.len() == before.len(),
{
    lemma_hazards_in_is_multiplicity(before);
    lemma_hazards_in_is_multiplicity(after);
    before.to_multiset_ensures();
    after.to_multiset_ensures();
}

/// Taking one more marker adds one if that marker is set.
pub proof fn lemma_hazards_in_take(markers: Seq<bool>, k: int)
    requires
        0 <= k < markers.len(),
    ensures
        hazards_in(markers.take(k + 1)) == hazards_in(markers.take(k)) + if markers[k] {
            1nat
        } else {
            0nat
        },
{
    assert(markers.take(k + 1).drop_last() =~= markers.take(k));
}

/// A cleared marker put in anywhere leaves the number of set markers as it
/// was.
pub proof fn lemma_hazards_in_insert_clear(markers: Seq<bool>, k: int)
    requires
        0 <= k <= markers.len(),
    ensures
        hazards_in(markers.insert(k, false)) == hazards_in(markers),
{
    broadcast use vstd::multiset::group_multiset_axioms;

    lemma_hazards_in_is_multiplicity(markers);
    lemma_hazards_in_is_multiplicity(markers.insert(k, false));
    vstd::seq_lib::to_multiset_insert(markers, k, false);
}

/// Rearranges the markers at random, by `rand::seq::SliceRandom::shuffle`
/// with the generator that `rand::thread_rng` hands out. The shuffle only
/// swaps elements of the slice, so whatever the generator yields, the
/// markers afterwards are a rearrangement of the markers before: each value
/// occurs as often as it did. Which rearrangement comes out is not stated.
///
/// `rand::thread_rng` panics where the operating system gives it nothing to
/// seed the generator with; no argument of this function has a say in that.
#[verifier::external_body]
pub(crate) fn shuffle_in_place(markers: &mut Vec<bool>)
    ensures
        final(markers)@.to_multiset() == old(markers)@.to_multiset(),
{
    markers.shuffle(&mut rand::thread_rng());
}

} // verus!

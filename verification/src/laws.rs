//! What holds of the library as a whole, proved over the model that the
//! functions' contracts are stated in.

use crate::index::{element_at, index_of, BitIdx};
use crate::model::{
    ascending_from, cleared, combined, inserted, lemma_ascending_from,
    lemma_ascending_lists_members, lemma_members_combined, lemma_members_finite,
    lemma_members_inserted, lemma_members_removed, lists_ascending, members, removed, SetOp,
};
use vstd::prelude::*;
use vstd::std_specs::convert::{FromSpec, IntoSpec};

verus! {

/// Whether an element converts to a raw index that converts back to it.
pub open spec fn round_trips<T: Into<BitIdx> + From<BitIdx>>(value: T) -> bool {
    element_at::<T>(index_of(value)) == value
}

/// A plain index is its own raw index: both of its conversions obey their
/// specification, and each undoes the other.
pub proof fn law_plain_index_round_trip(v: usize)
    ensures
        <usize as IntoSpec<BitIdx>>::obeys_into_spec(),
        <usize as FromSpec<BitIdx>>::obeys_from_spec(),
        index_of(v) == v,
        element_at::<usize>(v) == v,
        round_trips(v),
        index_of(element_at::<usize>(v)) == v,
{
}

/// A borrowed plain index converts to the same raw index as the index
/// itself.
pub proof fn law_borrowed_index(v: &usize)
    ensures
        <&usize as IntoSpec<BitIdx>>::obeys_into_spec(),
        index_of(v) == *v,
{
}

/// An element that round-trips and whose bit is set comes back from a walk
/// over the set as itself.
pub proof fn law_member_comes_back<T: Into<BitIdx> + From<BitIdx>>(bits: Seq<bool>, value: T)
    requires
        bits.len() <= usize::MAX,
        round_trips(value),
        members(bits).contains(index_of(value)),
    ensures
        ascending_from(bits, 0).map_values(|idx: usize| element_at::<T>(idx)).contains(value),
{
    lemma_ascending_from(bits, 0);
    let listing = ascending_from(bits, 0);
    let k = choose|k: int| 0 <= k < listing.len() && listing[k] == index_of(value);
    let elements = listing.map_values(|idx: usize| element_at::<T>(idx));
    assert(elements[k] == value);
}

/// After one insertion into an empty set the element is a member and the
/// set has one member; inserting it again reports that it was there and
/// changes nothing.
pub proof fn law_insert_into_empty(i: usize)
    ensures
        members(Seq::<bool>::empty()) == Set::<usize>::empty(),
        members(inserted(Seq::<bool>::empty(), i)).contains(i),
        members(inserted(Seq::<bool>::empty(), i)).len() == 1,
        inserted(inserted(Seq::<bool>::empty(), i), i) == inserted(Seq::<bool>::empty(), i),
{
    let empty = Seq::<bool>::empty();
    let once = inserted(empty, i);
    lemma_members_inserted(empty, i);
    assert(members(empty) =~= Set::<usize>::empty());
    assert(inserted(once, i) =~= once);
}

/// Inserting an element makes it a member and leaves every other index as
/// it was. The set gains one member where the element is new and none
/// where it was there already, in which case the storage does not change
/// either.
pub proof fn law_insert(bits: Seq<bool>, i: usize)
    ensures
        members(inserted(bits, i)) == members(bits).insert(i),
        members(inserted(bits, i)).len() == members(bits).len() + if members(bits).contains(i) {
            0int
        } else {
            1int
        },
        members(bits).contains(i) ==> inserted(bits, i) == bits,
{
    lemma_members_inserted(bits, i);
    lemma_members_finite(bits);
    if members(bits).contains(i) {
        assert(inserted(bits, i) =~= bits);
    }
}

/// Removing a member takes one from the number of members; removing what
/// is no member changes nothing.
pub proof fn law_remove(bits: Seq<bool>, i: usize)
    ensures
        members(removed(bits, i)) == members(bits).remove(i),
        members(bits).contains(i) ==> members(removed(bits, i)).len() == members(bits).len() - 1,
        !members(bits).contains(i) ==> removed(bits, i) == bits,
{
    lemma_members_removed(bits, i);
    lemma_members_finite(bits);
    if !members(bits).contains(i) {
        assert(removed(bits, i) =~= bits);
    }
}

/// An index is in the union of two sets when it is in either, in the
/// intersection when it is in both, in the difference when it is in the
/// first and not in the second, and in the symmetric difference when it is
/// in exactly one.
pub proof fn law_set_algebra(left: Seq<bool>, right: Seq<bool>, i: usize)
    ensures
        members(combined(SetOp::Union, left, right)).contains(i) <==> members(left).contains(i)
            || members(right).contains(i),
        members(combined(SetOp::Intersection, left, right)).contains(i) <==> members(
            left,
        ).contains(i) && members(right).contains(i),
        members(combined(SetOp::Difference, left, right)).contains(i) <==> members(
            left,
        ).contains(i) && !members(right).contains(i),
        members(combined(SetOp::SymmetricDifference, left, right)).contains(i) <==> (members(
            left,
        ).contains(i) != members(right).contains(i)),
{
    lemma_members_combined(SetOp::Union, left, right);
    lemma_members_combined(SetOp::Intersection, left, right);
    lemma_members_combined(SetOp::Difference, left, right);
    lemma_members_combined(SetOp::SymmetricDifference, left, right);
}

/// A walk over a set names each member once, in strictly ascending order
/// of the raw indices, and names nothing else.
pub proof fn law_walk_ascending(bits: Seq<bool>)
    requires
        bits.len() <= usize::MAX,
    ensures
        lists_ascending(ascending_from(bits, 0), members(bits)),
        ascending_from(bits, 0).len() == members(bits).len(),
{
    lemma_ascending_lists_members(bits);
    lemma_members_finite(bits);
    let listing = ascending_from(bits, 0);
    assert(listing.no_duplicates());
    listing.unique_seq_to_set();
    assert(listing.to_set() =~= members(bits));
}

/// Clearing leaves no member, and clearing a set without members leaves
/// its storage as it was.
pub proof fn law_clear(bits: Seq<bool>)
    ensures
        members(cleared(bits)) == Set::<usize>::empty(),
        members(cleared(bits)).len() == 0,
        bits.len() <= usize::MAX && members(bits) == Set::<usize>::empty() ==> cleared(bits)
            == bits,
        cleared(cleared(bits)) == cleared(bits),
{
    assert(members(cleared(bits)) =~= Set::<usize>::empty());
    assert(cleared(cleared(bits)) =~= cleared(bits));
    if bits.len() <= usize::MAX && members(bits) == Set::<usize>::empty() {
        assert forall|k: int| 0 <= k < bits.len() implies !bits[k] by {
            if bits[k] {
                assert(members(bits).contains(k as usize));
            }
        }
        assert(cleared(bits) =~= bits);
    }
}

} // verus!

//! The set itself: a packed bit vector whose set bits are the raw indices
//! of the elements.

use crate::engine;
use crate::index::{converts_each, converts_to, index_of, BitIdx};
use crate::iter::{Difference, Indices, Intersection, Iter, MapBitIdx, SymmetricDifference, Union};
use crate::model::{
    ascending_from, cleared, combined, inserted, inserted_all, lemma_ascending_lists_members,
    lemma_members_combined, lemma_members_finite, lemma_members_inserted,
    lemma_members_inserted_all, lemma_members_removed, lemma_members_take_step,
    lemma_trimmed_keeps_members, lemma_trimmed_len_unique, lists_ascending, members, padded,
    removed, trimmed_len, SetOp,
};
use bit_vec::BitVec;
use std::marker::PhantomData;
use vstd::prelude::*;
use vstd::std_specs::convert::IntoSpec;

verus! {

/// A set of elements of type `T`, stored as one bit per raw index.
///
/// An element is a member when the bit at the index it converts to is set.
/// The set trusts the element type's two conversions to undo each other.
#[derive(Ord)]
pub struct BitSet<T>(BitVec<u32>, PhantomData<T>);

impl<T> Default for BitSet<T> {
    fn default() -> (s: Self)
        ensures
            s.bits() == Seq::<bool>::empty(),
            s@ == Set::<usize>::empty(),
    {
        Self::new()
    }
}

impl<T> Clone for BitSet<T> {
    fn clone(&self) -> (copy: Self)
        ensures
            copy.bits() == self.bits(),
            copy@ == self@,
    {
        BitSet(engine::duplicate(&self.0), PhantomData)
    }
}

impl<T> View for BitSet<T> {
    type V = Set<usize>;

    /// The raw indices of the members.
    open spec fn view(&self) -> Set<usize> {
        members(self.bits())
    }
}

impl<T> BitSet<T> {
    /// The bits of the underlying storage, in index order.
    pub closed spec fn bits(&self) -> Seq<bool> {
        engine::bits(self.0)
    }

    /// A set with no members and no storage.
    pub fn new() -> (s: Self)
        ensures
            s.bits() == Seq::<bool>::empty(),
            s@ == Set::<usize>::empty(),
    {
        let s = BitSet(engine::empty(), PhantomData);
        assert(s@ =~= Set::<usize>::empty());
        s
    }

    /// A set with no members whose storage already spans `nbits` bits.
    pub fn with_capacity(nbits: usize) -> (s: Self)
        ensures
            s.bits() == Seq::new(nbits as nat, |i: int| false),
            s@ == Set::<usize>::empty(),
    {
        let s = BitSet(engine::from_elem(nbits, false), PhantomData);
        assert(s@ =~= Set::<usize>::empty());
        s
    }

    /// The set whose members are the set bits of `bit_vec`.
    pub fn from_bit_vec(bit_vec: BitVec<u32>) -> (s: Self)
        ensures
            s.bits() == engine::bits(bit_vec),
    {
        BitSet(bit_vec, PhantomData)
    }

    /// The set whose members are the set bits of `bytes`, read eight per
    /// byte with the most significant bit of each byte first.
    pub fn from_bytes(bytes: &[u8]) -> (s: Self)
        requires
            8 * bytes@.len() <= usize::MAX,
        ensures
            s.bits() == engine::bits_of_bytes(bytes@),
    {
        BitSet(engine::from_bytes(bytes), PhantomData)
    }

    /// Hands the underlying storage over.
    pub fn into_bit_vec(self) -> (bit_vec: BitVec<u32>)
        ensures
            engine::bits(bit_vec) == self.bits(),
    {
        self.0
    }

    /// The underlying storage.
    pub fn get_ref(&self) -> (bit_vec: &BitVec<u32>)
        ensures
            engine::bits(*bit_vec) == self.bits(),
    {
        &self.0
    }

    /// Whether the bit at `idx` is set.
    fn holds(&self, idx: usize) -> (found: bool)
        ensures
            found == self@.contains(idx),
    {
        match engine::get(&self.0, idx) {
            Some(bit) => bit,
            None => false,
        }
    }

    /// Whether the element at the raw position `idx` is a member.
    pub fn contains_index(&self, idx: BitIdx) -> (found: bool)
        ensures
            found == self@.contains(idx.0),
    {
        self.holds(idx.0)
    }

    /// Makes the element at the raw position `idx` a member. Returns
    /// whether it was not one before.
    ///
    /// The storage grows to reach `idx`, so `idx` has to leave room for a
    /// length: it lies below `usize::MAX`.
    pub fn insert_index(&mut self, idx: BitIdx) -> (added: bool)
        requires
            idx.0 < usize::MAX,
        ensures
            added == !old(self)@.contains(idx.0),
            final(self).bits() == inserted(old(self).bits(), idx.0),
            final(self)@ == old(self)@.insert(idx.0),
            final(self)@.len() == old(self)@.len() + if added {
                1int
            } else {
                0int
            },
    {
        let at = idx.0;
        proof {
            lemma_members_inserted(self.bits(), at);
            lemma_members_finite(self.bits());
        }
        if self.holds(at) {
            assert(self.bits() =~= inserted(self.bits(), at));
            return false;
        }
        let len = engine::len(&self.0);
        if at >= len {
            engine::grow(&mut self.0, at - len + 1, false);
        }
        assert(self.bits() =~= padded(old(self).bits(), (at + 1) as nat));
        engine::set(&mut self.0, at, true);
        true
    }

    /// Makes the element at the raw position `idx` a non-member. Returns
    /// whether it was one before.
    pub fn remove_index(&mut self, idx: BitIdx) -> (was_present: bool)
        ensures
            was_present == old(self)@.contains(idx.0),
            final(self).bits() == removed(old(self).bits(), idx.0),
            final(self)@ == old(self)@.remove(idx.0),
            final(self)@.len() == old(self)@.len() - if was_present {
                1int
            } else {
                0int
            },
    {
        let at = idx.0;
        proof {
            lemma_members_removed(self.bits(), at);
            lemma_members_finite(self.bits());
        }
        if !self.holds(at) {
            assert(self.bits() =~= removed(self.bits(), at));
            return false;
        }
        engine::set(&mut self.0, at, false);
        true
    }
}

/// Combines `v` with a vector of the same length, bit for bit.
fn apply(v: &mut BitVec<u32>, other: &BitVec<u32>, op: SetOp)
    requires
        engine::bits(*old(v)).len() == engine::bits(*other).len(),
    ensures
        engine::bits(*final(v)) == combined(op, engine::bits(*old(v)), engine::bits(*other)),
{
    match op {
        SetOp::Union => engine::or(v, other),
        SetOp::Intersection => engine::and(v, other),
        SetOp::Difference => engine::difference(v, other),
        SetOp::SymmetricDifference => engine::xor(v, other),
    }
    assert(engine::bits(*v) =~= combined(op, engine::bits(*old(v)), engine::bits(*other)));
}

impl<T> BitSet<T> {
    /// The number of bits that the storage can hold without reallocating.
    pub fn capacity(&self) -> (c: usize)
        ensures
            c >= self.bits().len(),
    {
        engine::capacity(&self.0)
    }

    /// Makes room for a storage of `len` bits. The contents stay.
    pub fn reserve_len(&mut self, len: usize)
        ensures
            final(self).bits() == old(self).bits(),
    {
        let cur_len = engine::len(&self.0);
        if len >= cur_len {
            engine::reserve(&mut self.0, len - cur_len);
        }
    }

    /// Makes room for a storage of `len` bits, without room to spare. The
    /// contents stay.
    pub fn reserve_len_exact(&mut self, len: usize)
        ensures
            final(self).bits() == old(self).bits(),
    {
        let cur_len = engine::len(&self.0);
        if len >= cur_len {
            engine::reserve_exact(&mut self.0, len - cur_len);
        }
    }

    /// Cuts the storage to the least length that holds every member and
    /// gives the spare storage back. The members stay.
    pub fn shrink_to_fit(&mut self)
        ensures
            final(self).bits() == old(self).bits().take(trimmed_len(old(self).bits()) as int),
            final(self)@ == old(self)@,
    {
        let mut keep = engine::len(&self.0);
        while keep > 0
            invariant
                keep <= self.bits().len(),
                forall|i: int| keep <= i < self.bits().len() ==> !self.bits()[i],
            ensures
                keep <= self.bits().len(),
                keep == 0 || self.bits()[keep - 1],
                forall|i: int| keep <= i < self.bits().len() ==> !self.bits()[i],
            decreases keep,
        {
            if self.holds(keep - 1) {
                break ;
            }
            keep -= 1;
        }
        proof {
            lemma_trimmed_len_unique(self.bits(), keep as nat);
            lemma_trimmed_keeps_members(self.bits());
            assert(self.bits().take(self.bits().len() as int) =~= self.bits());
        }
        engine::truncate(&mut self.0, keep);
        engine::shrink_to_fit(&mut self.0);
    }

    /// Combines the set with `other` in place. The storage grows to the
    /// longer of the two.
    fn combine_with(&mut self, other: &Self, op: SetOp)
        ensures
            final(self).bits() == combined(op, old(self).bits(), other.bits()),
            final(self)@ == op.of_sets(old(self)@, other@),
    {
        proof {
            lemma_members_combined(op, self.bits(), other.bits());
        }
        let own_len = engine::len(&self.0);
        let other_len = engine::len(&other.0);
        if own_len < other_len {
            engine::grow(&mut self.0, other_len - own_len, false);
        }
        if other_len < own_len {
            let mut wide = engine::duplicate(&other.0);
            engine::grow(&mut wide, own_len - other_len, false);
            apply(&mut self.0, &wide, op);
            assert(self.bits() =~= combined(op, old(self).bits(), other.bits()));
        } else {
            apply(&mut self.0, &other.0, op);
            assert(self.bits() =~= combined(op, old(self).bits(), other.bits()));
        }
    }

    /// Adds every member of `other`.
    pub fn union_with(&mut self, other: &Self)
        ensures
            final(self).bits() == combined(SetOp::Union, old(self).bits(), other.bits()),
            final(self)@ == old(self)@.union(other@),
    {
        self.combine_with(other, SetOp::Union)
    }

    /// Keeps only the members that `other` has too.
    pub fn intersect_with(&mut self, other: &Self)
        ensures
            final(self).bits() == combined(SetOp::Intersection, old(self).bits(), other.bits()),
            final(self)@ == old(self)@.intersect(other@),
    {
        self.combine_with(other, SetOp::Intersection)
    }

    /// Drops every member of `other`.
    pub fn difference_with(&mut self, other: &Self)
        ensures
            final(self).bits() == combined(SetOp::Difference, old(self).bits(), other.bits()),
            final(self)@ == old(self)@.difference(other@),
    {
        self.combine_with(other, SetOp::Difference)
    }

    /// Keeps what is a member of exactly one of the two sets.
    pub fn symmetric_difference_with(&mut self, other: &Self)
        ensures
            final(self).bits() == combined(
                SetOp::SymmetricDifference,
                old(self).bits(),
                other.bits(),
            ),
            final(self)@ == old(self)@.difference(other@).union(other@.difference(old(self)@)),
    {
        self.combine_with(other, SetOp::SymmetricDifference)
    }

    /// The number of members.
    pub fn len(&self) -> (n: usize)
        ensures
            n == self@.len(),
    {
        let total = engine::len(&self.0);
        let mut count: usize = 0;
        let mut i: usize = 0;
        proof {
            assert(members(self.bits().take(0)) =~= Set::<usize>::empty());
        }
        while i < total
            invariant
                i <= total,
                total == self.bits().len(),
                count <= i,
                count == members(self.bits().take(i as int)).len(),
            decreases total - i,
        {
            proof {
                lemma_members_take_step(self.bits(), i);
                lemma_members_finite(self.bits().take(i as int));
            }
            if self.holds(i) {
                count += 1;
            }
            i += 1;
        }
        assert(self.bits().take(total as int) =~= self.bits());
        count
    }

    /// Whether the set has no member.
    pub fn is_empty(&self) -> (empty: bool)
        ensures
            empty == (self@ == Set::<usize>::empty()),
            empty == (self@.len() == 0),
    {
        let total = engine::len(&self.0);
        let empty = total == 0 || engine::none(&self.0);
        proof {
            lemma_members_finite(self.bits());
            if empty {
                assert(self@ =~= Set::<usize>::empty());
            } else {
                let i = choose|i: int| 0 <= i < self.bits().len() && self.bits()[i];
                assert(self@.contains(i as usize));
            }
        }
        empty
    }

    /// Removes every member. The storage keeps its length.
    pub fn clear(&mut self)
        ensures
            final(self).bits() == cleared(old(self).bits()),
            final(self)@ == Set::<usize>::empty(),
            final(self)@.len() == 0,
    {
        engine::clear(&mut self.0);
        assert(self.bits() =~= cleared(old(self).bits()));
        assert(self@ =~= Set::<usize>::empty());
    }

    /// Whether the two sets share no member.
    pub fn is_disjoint(&self, other: &Self) -> (disjoint: bool)
        ensures
            disjoint == self@.disjoint(other@),
    {
        let own_len = engine::len(&self.0);
        let other_len = engine::len(&other.0);
        let shared = if own_len < other_len {
            own_len
        } else {
            other_len
        };
        let mut i: usize = 0;
        while i < shared
            invariant
                i <= shared,
                shared <= self.bits().len(),
                shared <= other.bits().len(),
                shared == self.bits().len() || shared == other.bits().len(),
                forall|j: usize| j < i ==> !(self@.contains(j) && other@.contains(j)),
            decreases shared - i,
        {
            if self.holds(i) && other.holds(i) {
                return false;
            }
            i += 1;
        }
        true
    }

    /// Whether every member is a member of `other`.
    pub fn is_subset(&self, other: &Self) -> (subset: bool)
        ensures
            subset == self@.subset_of(other@),
    {
        let own_len = engine::len(&self.0);
        let mut i: usize = 0;
        while i < own_len
            invariant
                i <= own_len,
                own_len == self.bits().len(),
                forall|j: usize| j < i && self@.contains(j) ==> other@.contains(j),
            decreases own_len - i,
        {
            if self.holds(i) && !other.holds(i) {
                return false;
            }
            i += 1;
        }
        true
    }

    /// Whether every member of `other` is a member.
    pub fn is_superset(&self, other: &Self) -> (superset: bool)
        ensures
            superset == other@.subset_of(self@),
    {
        other.is_subset(self)
    }
}

impl<T: Into<BitIdx>> BitSet<T> {
    /// Whether `value` is a member.
    pub fn contains(&self, value: T) -> (found: bool)
        ensures
            exists|idx: usize| #[trigger] converts_to(value, idx) && found == self@.contains(idx),
            T::obeys_into_spec() ==> found == self@.contains(index_of(value)),
    {
        let idx: BitIdx = value.into();
        assert(converts_to(value, idx.0));
        self.contains_index(idx)
    }

    /// Makes `value` a member. Returns whether it was not one before.
    ///
    /// The storage grows to reach the element's index, so that index has to
    /// leave room for a length: it lies below `usize::MAX`.
    pub fn insert(&mut self, value: T) -> (added: bool)
        requires
            forall|idx: usize| converts_to(value, idx) ==> idx < usize::MAX,
        ensures
            exists|idx: usize|
                {
                    &&& #[trigger] converts_to(value, idx)
                    &&& added == !old(self)@.contains(idx)
                    &&& final(self).bits() == inserted(old(self).bits(), idx)
                    &&& final(self)@ == old(self)@.insert(idx)
                },
            T::obeys_into_spec() ==> {
                let idx = index_of(value);
                &&& added == !old(self)@.contains(idx)
                &&& final(self).bits() == inserted(old(self).bits(), idx)
                &&& final(self)@ == old(self)@.insert(idx)
            },
            final(self)@.len() == old(self)@.len() + if added {
                1int
            } else {
                0int
            },
    {
        let idx: BitIdx = value.into();
        assert(converts_to(value, idx.0));
        self.insert_index(idx)
    }

    /// Makes `value` a non-member. Returns whether it was one before.
    pub fn remove(&mut self, value: T) -> (was_present: bool)
        ensures
            exists|idx: usize|
                {
                    &&& #[trigger] converts_to(value, idx)
                    &&& was_present == old(self)@.contains(idx)
                    &&& final(self).bits() == removed(old(self).bits(), idx)
                    &&& final(self)@ == old(self)@.remove(idx)
                },
            T::obeys_into_spec() ==> {
                let idx = index_of(value);
                &&& was_present == old(self)@.contains(idx)
                &&& final(self).bits() == removed(old(self).bits(), idx)
                &&& final(self)@ == old(self)@.remove(idx)
            },
            final(self)@.len() == old(self)@.len() - if was_present {
                1int
            } else {
                0int
            },
    {
        let idx: BitIdx = value.into();
        assert(converts_to(value, idx.0));
        self.remove_index(idx)
    }
}

impl<T: Into<BitIdx>> BitSet<T> {
    /// Makes each of `values` a member, one after the other.
    ///
    /// As for `insert`, each element's index lies below `usize::MAX`.
    pub fn extend(&mut self, values: Vec<T>)
        requires
            forall|k: int, idx: usize|
                0 <= k < values@.len() && #[trigger] converts_to(values@[k], idx) ==> idx
                    < usize::MAX,
        ensures
            exists|idxs: Seq<usize>|
                {
                    &&& #[trigger] converts_each(values@, idxs)
                    &&& final(self).bits() == inserted_all(old(self).bits(), idxs)
                    &&& final(self)@ == old(self)@.union(idxs.to_set())
                },
            T::obeys_into_spec() ==> {
                let idxs = values@.map_values(|value: T| index_of(value));
                &&& final(self).bits() == inserted_all(old(self).bits(), idxs)
                &&& final(self)@ == old(self)@.union(idxs.to_set())
            },
    {
        let ghost mut idxs: Seq<usize> = Seq::empty();
        for value in it: values
            invariant
                forall|k: int, idx: usize|
                    0 <= k < values@.len() && #[trigger] converts_to(values@[k], idx) ==> idx
                        < usize::MAX,
                it.seq() == values@,
                converts_each(values@.take(it.index()), idxs),
                T::obeys_into_spec() ==> idxs == values@.take(it.index()).map_values(
                    |value: T| index_of(value),
                ),
                self.bits() == inserted_all(old(self).bits(), idxs),
        {
            let ghost at = it.index();
            let idx: BitIdx = value.into();
            assert(converts_to(values@[at], idx.0));
            self.insert_index(idx);
            proof {
                let longer = idxs.push(idx.0);
                assert(longer.drop_last() =~= idxs);
                assert(values@.take(at + 1).drop_last() =~= values@.take(at));
                idxs = longer;
            }
        }
        proof {
            assert(values@.take(values@.len() as int) =~= values@);
            lemma_members_inserted_all(old(self).bits(), idxs);
        }
    }

    /// The set whose members are `values`.
    ///
    /// As for `insert`, each element's index lies below `usize::MAX`.
    pub fn from_iter(values: Vec<T>) -> (s: Self)
        requires
            forall|k: int, idx: usize|
                0 <= k < values@.len() && #[trigger] converts_to(values@[k], idx) ==> idx
                    < usize::MAX,
        ensures
            exists|idxs: Seq<usize>|
                {
                    &&& #[trigger] converts_each(values@, idxs)
                    &&& s.bits() == inserted_all(Seq::<bool>::empty(), idxs)
                    &&& s@ == idxs.to_set()
                },
            T::obeys_into_spec() ==> {
                let idxs = values@.map_values(|value: T| index_of(value));
                &&& s.bits() == inserted_all(Seq::<bool>::empty(), idxs)
                &&& s@ == idxs.to_set()
            },
    {
        let mut s = Self::new();
        s.extend(values);
        proof {
            let idxs = choose|idxs: Seq<usize>|
                {
                    &&& #[trigger] converts_each(values@, idxs)
                    &&& s.bits() == inserted_all(Seq::<bool>::empty(), idxs)
                    &&& s@ == Set::<usize>::empty().union(idxs.to_set())
                };
            assert(Set::<usize>::empty().union(idxs.to_set()) =~= idxs.to_set());
            let spec_idxs = values@.map_values(|value: T| index_of(value));
            assert(Set::<usize>::empty().union(spec_idxs.to_set()) =~= spec_idxs.to_set());
        }
        s
    }
}

impl<T: From<BitIdx>> BitSet<T> {
    /// A walk over the members, in ascending order of their raw indices.
    pub fn iter<'a>(&'a self) -> (walk: Iter<'a, T>)
        ensures
            walk.remaining() == ascending_from(self.bits(), 0),
            lists_ascending(walk.remaining(), self@),
    {
        let indices = Indices::over(&self.0);
        proof {
            lemma_ascending_lists_members(self.bits());
        }
        MapBitIdx::over(indices)
    }

    /// A walk over what is a member of either set, in ascending order of
    /// the raw indices.
    pub fn union<'a>(&'a self, other: &'a Self) -> (walk: Union<'a, T>)
        ensures
            walk.remaining() == ascending_from(
                combined(SetOp::Union, self.bits(), other.bits()),
                0,
            ),
            lists_ascending(walk.remaining(), self@.union(other@)),
    {
        self.walk_both(SetOp::Union, other)
    }

    /// A walk over what is a member of both sets, in ascending order of
    /// the raw indices.
    pub fn intersection<'a>(&'a self, other: &'a Self) -> (walk: Intersection<'a, T>)
        ensures
            walk.remaining() == ascending_from(
                combined(SetOp::Intersection, self.bits(), other.bits()),
                0,
            ),
            lists_ascending(walk.remaining(), self@.intersect(other@)),
    {
        self.walk_both(SetOp::Intersection, other)
    }

    /// A walk over the members that `other` lacks, in ascending order of
    /// the raw indices.
    pub fn difference<'a>(&'a self, other: &'a Self) -> (walk: Difference<'a, T>)
        ensures
            walk.remaining() == ascending_from(
                combined(SetOp::Difference, self.bits(), other.bits()),
                0,
            ),
            lists_ascending(walk.remaining(), self@.difference(other@)),
    {
        self.walk_both(SetOp::Difference, other)
    }

    /// A walk over what is a member of exactly one of the two sets, in
    /// ascending order of the raw indices.
    pub fn symmetric_difference<'a>(&'a self, other: &'a Self) -> (walk: SymmetricDifference<
        'a,
        T,
    >)
        ensures
            walk.remaining() == ascending_from(
                combined(SetOp::SymmetricDifference, self.bits(), other.bits()),
                0,
            ),
            lists_ascending(
                walk.remaining(),
                self@.difference(other@).union(other@.difference(self@)),
            ),
    {
        self.walk_both(SetOp::SymmetricDifference, other)
    }

    /// A walk over the combination of the two sets by `op`.
    fn walk_both<'a>(&'a self, op: SetOp, other: &'a Self) -> (walk: MapBitIdx<'a, T>)
        ensures
            walk.remaining() == ascending_from(combined(op, self.bits(), other.bits()), 0),
            lists_ascending(walk.remaining(), op.of_sets(self@, other@)),
    {
        let indices = Indices::over_both(op, &self.0, &other.0);
        proof {
            lemma_members_combined(op, self.bits(), other.bits());
            lemma_ascending_lists_members(combined(op, self.bits(), other.bits()));
        }
        MapBitIdx::over(indices)
    }
}

} // verus!

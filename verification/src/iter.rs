//! Walking a set, or a combination of two sets, in ascending index order.

use crate::engine;
use crate::index::{converts_from, element_at, BitIdx};
use crate::model::{ascending_from, combined, SetOp};
use bit_vec::BitVec;
use std::marker::PhantomData;
use vstd::prelude::*;
use vstd::std_specs::convert::FromSpec;

verus! {

/// A position in the walk over one bit vector, or over two combined bit
/// for bit.
pub(crate) struct Indices<'a> {
    left: &'a BitVec<u32>,
    right: Option<(SetOp, &'a BitVec<u32>)>,
    pos: usize,
    end: usize,
}

impl<'a> Indices<'a> {
    /// The walk knows the length of the pattern that it walks.
    #[verifier::type_invariant]
    spec fn knows_end(self) -> bool {
        self.end == self.pattern().len()
    }

    /// The bit pattern that is walked.
    pub(crate) closed spec fn pattern(&self) -> Seq<bool> {
        match self.right {
            Some((op, right)) => combined(op, engine::bits(*self.left), engine::bits(*right)),
            None => engine::bits(*self.left),
        }
    }

    /// The indices still to come, in the order in which they come.
    pub(crate) closed spec fn remaining(&self) -> Seq<usize> {
        ascending_from(self.pattern(), self.pos as nat)
    }

    /// A walk over the set bits of `bits`.
    pub(crate) fn over(bits: &'a BitVec<u32>) -> (walk: Self)
        ensures
            walk.pattern() == engine::bits(*bits),
            walk.pattern().len() <= usize::MAX,
            walk.remaining() == ascending_from(walk.pattern(), 0),
    {
        let end = engine::len(bits);
        Indices { left: bits, right: None, pos: 0, end }
    }

    /// A walk over the set bits of two vectors combined by `op`.
    pub(crate) fn over_both(op: SetOp, left: &'a BitVec<u32>, right: &'a BitVec<u32>) -> (walk:
        Self)
        ensures
            walk.pattern() == combined(op, engine::bits(*left), engine::bits(*right)),
            walk.pattern().len() <= usize::MAX,
            walk.remaining() == ascending_from(walk.pattern(), 0),
    {
        let left_len = engine::len(left);
        let right_len = engine::len(right);
        let end = if left_len >= right_len {
            left_len
        } else {
            right_len
        };
        Indices { left, right: Some((op, right)), pos: 0, end }
    }

    /// The bit of the walked pattern at `i`.
    fn bit(&self, i: usize) -> (b: bool)
        requires
            i < self.pattern().len(),
        ensures
            b == self.pattern()[i as int],
    {
        let in_left = match engine::get(self.left, i) {
            Some(bit) => bit,
            None => false,
        };
        match self.right {
            Some((op, right)) => {
                let in_right = match engine::get(right, i) {
                    Some(bit) => bit,
                    None => false,
                };
                match op {
                    SetOp::Union => in_left || in_right,
                    SetOp::Intersection => in_left && in_right,
                    SetOp::Difference => in_left && !in_right,
                    SetOp::SymmetricDifference => in_left != in_right,
                }
            },
            None => in_left,
        }
    }

    /// The next index, or `None` when the walk is over.
    pub(crate) fn next(&mut self) -> (idx: Option<usize>)
        ensures
            final(self).pattern() == old(self).pattern(),
            match idx {
                Some(i) => {
                    &&& old(self).remaining().len() > 0
                    &&& i == old(self).remaining()[0]
                    &&& final(self).remaining() == old(self).remaining().drop_first()
                },
                None => {
                    &&& old(self).remaining().len() == 0
                    &&& final(self).remaining().len() == 0
                },
            },
    {
        proof {
            use_type_invariant(&*self);
        }
        let end = self.end;
        while self.pos < end
            invariant
                end == self.end,
                end == self.pattern().len(),
                self.pattern() == old(self).pattern(),
                self.remaining() == old(self).remaining(),
            decreases end - self.pos,
        {
            let at = self.pos;
            let hit = self.bit(at);
            self.pos = at + 1;
            if hit {
                assert(old(self).remaining().drop_first() =~= self.remaining());
                return Some(at);
            }
        }
        None
    }
}

/// A walk that hands out each raw index converted into an element.
pub struct MapBitIdx<'a, T>(Indices<'a>, PhantomData<T>);

pub type Iter<'a, T> = MapBitIdx<'a, T>;

pub type Union<'a, T> = MapBitIdx<'a, T>;

pub type Intersection<'a, T> = MapBitIdx<'a, T>;

pub type Difference<'a, T> = MapBitIdx<'a, T>;

pub type SymmetricDifference<'a, T> = MapBitIdx<'a, T>;

impl<'a, T> MapBitIdx<'a, T> {
    /// The raw indices of the elements still to come, in the order in
    /// which they come.
    pub closed spec fn remaining(&self) -> Seq<usize> {
        self.0.remaining()
    }

    /// A walk that converts what `indices` yields.
    pub(crate) fn over(indices: Indices<'a>) -> (walk: Self)
        ensures
            walk.remaining() == indices.remaining(),
    {
        MapBitIdx(indices, PhantomData)
    }
}

impl<'a, T: From<BitIdx>> MapBitIdx<'a, T> {
    /// The element of the next raw index, or `None` when the walk is over.
    pub fn next(&mut self) -> (item: Option<T>)
        ensures
            match item {
                Some(value) => {
                    &&& old(self).remaining().len() > 0
                    &&& converts_from(old(self).remaining()[0], value)
                    &&& T::obeys_from_spec() ==> value == element_at::<T>(
                        old(self).remaining()[0],
                    )
                    &&& final(self).remaining() == old(self).remaining().drop_first()
                },
                None => {
                    &&& old(self).remaining().len() == 0
                    &&& final(self).remaining().len() == 0
                },
            },
    {
        match self.0.next() {
            Some(idx) => Some(T::from(BitIdx(idx))),
            None => None,
        }
    }

    /// The elements still to come, in the order in which they come.
    pub fn collect(self) -> (items: Vec<T>)
        ensures
            items@.len() == self.remaining().len(),
            forall|k: int|
                0 <= k < items@.len() ==> converts_from(self.remaining()[k], #[trigger] items@[k]),
            T::obeys_from_spec() ==> items@ == self.remaining().map_values(
                |idx: usize| element_at::<T>(idx),
            ),
    {
        let mut walk = self;
        let mut items: Vec<T> = Vec::new();
        loop
            invariant
                items@.len() + walk.remaining().len() == self.remaining().len(),
                walk.remaining() == self.remaining().skip(items@.len() as int),
                forall|k: int|
                    0 <= k < items@.len() ==> converts_from(
                        self.remaining()[k],
                        #[trigger] items@[k],
                    ),
                T::obeys_from_spec() ==> forall|k: int|
                    0 <= k < items@.len() ==> #[trigger] items@[k] == element_at::<T>(
                        self.remaining()[k],
                    ),
            ensures
                items@.len() == self.remaining().len(),
            decreases walk.remaining().len(),
        {
            match walk.next() {
                Some(value) => {
                    items.push(value);
                    assert(walk.remaining() =~= self.remaining().skip(items@.len() as int));
                },
                None => {
                    break ;
                },
            }
        }
        assert(T::obeys_from_spec() ==> items@ =~= self.remaining().map_values(
            |idx: usize| element_at::<T>(idx),
        ));
        items
    }
}

} // verus!

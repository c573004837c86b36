//! The raw bit position that every element type converts to and from.

use vstd::prelude::*;
use vstd::std_specs::convert::{FromSpec, IntoSpec};

verus! {

/// A raw bit position.
///
/// An element type takes part in a set by converting into a `BitIdx` and
/// back. `usize` does both, so plain indices work as elements unchanged.
#[derive(Debug, Clone, Copy, PartialEq, Eq, Structural)]
pub struct BitIdx(pub usize);

impl Into<BitIdx> for usize {
    fn into(self) -> BitIdx {
        BitIdx(self)
    }
}

impl vstd::std_specs::convert::IntoSpecImpl<BitIdx> for usize {
    open spec fn obeys_into_spec() -> bool {
        true
    }

    open spec fn into_spec(self) -> BitIdx {
        BitIdx(self)
    }
}

impl<'a> Into<BitIdx> for &'a usize {
    fn into(self) -> BitIdx {
        BitIdx(*self)
    }
}

impl<'a> vstd::std_specs::convert::IntoSpecImpl<BitIdx> for &'a usize {
    open spec fn obeys_into_spec() -> bool {
        true
    }

    open spec fn into_spec(self) -> BitIdx {
        BitIdx(*self)
    }
}

impl From<BitIdx> for usize {
    fn from(bit: BitIdx) -> usize {
        bit.0
    }
}

impl vstd::std_specs::convert::FromSpecImpl<BitIdx> for usize {
    open spec fn obeys_from_spec() -> bool {
        true
    }

    open spec fn from_spec(bit: BitIdx) -> usize {
        bit.0
    }
}

impl AsRef<usize> for BitIdx {
    fn as_ref(&self) -> (raw: &usize)
        ensures
            *raw == self.0,
    {
        &self.0
    }
}

/// The raw index that `value` stands for, where the element type's
/// conversion obeys its specification.
pub open spec fn index_of<T: Into<BitIdx>>(value: T) -> usize {
    IntoSpec::<BitIdx>::into_spec(value).0
}

/// The element that the raw index `idx` stands for, where the element
/// type's conversion obeys its specification.
pub open spec fn element_at<T: From<BitIdx>>(idx: usize) -> T {
    T::from_spec(BitIdx(idx))
}

/// Whether converting `value` into a raw position may give `idx`.
///
/// For an element type whose conversion obeys its specification this holds
/// of one index only, `index_of(value)`.
pub open spec fn converts_to<T: Into<BitIdx>>(value: T, idx: usize) -> bool {
    call_ensures(T::into, (value,), BitIdx(idx))
}

/// Whether converting the raw position `idx` back may give `value`.
///
/// For an element type whose conversion obeys its specification this holds
/// of one value only, `element_at(idx)`.
pub open spec fn converts_from<T: From<BitIdx>>(idx: usize, value: T) -> bool {
    call_ensures(T::from, (BitIdx(idx),), value)
}

/// Whether converting each of `values` may give the index at the same
/// place in `idxs`.
pub open spec fn converts_each<T: Into<BitIdx>>(values: Seq<T>, idxs: Seq<usize>) -> bool {
    &&& values.len() == idxs.len()
    &&& forall|k: int| 0 <= k < values.len() ==> converts_to(values[k], #[trigger] idxs[k])
}

} // verus!

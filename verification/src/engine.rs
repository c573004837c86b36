//! The packed bit vector that stores a set, and what the library relies on
//! from it.
//!
//! Nothing in this module is proved. Each function states, over the sequence
//! of bits that a vector holds, what the corresponding `bit_vec::BitVec`
//! method does; everything else in the library is verified against these
//! statements.

use crate::order::lex_order;
use bit_vec::BitVec;
use std::cmp::Ordering;
use vstd::prelude::*;

verus! {

/// `bit_vec::BitVec`, taken as it is: what a vector holds is known only
/// through `bits` and the functions below.
#[verifier::external_type_specification]
#[verifier::external_body]
#[verifier::reject_recursive_types(B)]
pub struct ExBitVec<B>(BitVec<B>);

/// The bits that a vector holds, in index order: `bits(v)[i]` is what
/// `v.get(i)` yields, and `bits(v).len()` is `v.len()`.
pub uninterp spec fn bits(v: BitVec<u32>) -> Seq<bool>;

/// The bits that a byte buffer stands for: eight per byte, the most
/// significant bit of each byte first.
pub open spec fn bits_of_bytes(bytes: Seq<u8>) -> Seq<bool> {
    Seq::new(
        8 * bytes.len(),
        |i: int| (bytes[i / 8] >> ((7 - i % 8) as u8)) & 1u8 == 1u8,
    )
}

/// `BitVec::default`: a vector that holds no bits.
#[verifier::external_body]
pub(crate) fn empty() -> (v: BitVec<u32>)
    ensures
        bits(v) == Seq::<bool>::empty(),
{
    BitVec::default()
}

/// `BitVec::from_elem`: a vector of `nbits` bits, each equal to `bit`.
#[verifier::external_body]
pub(crate) fn from_elem(nbits: usize, bit: bool) -> (v: BitVec<u32>)
    ensures
        bits(v) == Seq::new(nbits as nat, |i: int| bit),
{
    BitVec::from_elem(nbits, bit)
}

/// `BitVec::from_bytes`: each byte becomes eight bits, most significant
/// first. The call panics when the bit count overflows `usize`.
#[verifier::external_body]
pub(crate) fn from_bytes(bytes: &[u8]) -> (v: BitVec<u32>)
    requires
        8 * bytes@.len() <= usize::MAX,
    ensures
        bits(v) == bits_of_bytes(bytes@),
{
    BitVec::from_bytes(bytes)
}

/// `BitVec::len`: the number of bits held.
#[verifier::external_body]
pub(crate) fn len(v: &BitVec<u32>) -> (n: usize)
    ensures
        n == bits(*v).len(),
{
    v.len()
}

/// `BitVec::get`: the bit at `i`, or `None` past the end.
#[verifier::external_body]
pub(crate) fn get(v: &BitVec<u32>, i: usize) -> (bit: Option<bool>)
    ensures
        bit == if i < bits(*v).len() {
            Some(bits(*v)[i as int])
        } else {
            None
        },
{
    v.get(i)
}

/// `BitVec::set`: overwrites the bit at `i`. The call panics when `i` is
/// out of bounds.
#[verifier::external_body]
pub(crate) fn set(v: &mut BitVec<u32>, i: usize, bit: bool)
    requires
        i < bits(*old(v)).len(),
    ensures
        bits(*final(v)) == bits(*old(v)).update(i as int, bit),
{
    v.set(i, bit)
}

/// `BitVec::grow`: appends `n` copies of `bit`. The call panics when the
/// new length overflows `usize`.
#[verifier::external_body]
pub(crate) fn grow(v: &mut BitVec<u32>, n: usize, bit: bool)
    requires
        bits(*old(v)).len() + n <= usize::MAX,
    ensures
        bits(*final(v)) == bits(*old(v)) + Seq::new(n as nat, |i: int| bit),
{
    v.grow(n, bit)
}

/// `BitVec::truncate`: drops the bits from `len` on; a `len` past the end
/// changes nothing.
#[verifier::external_body]
pub(crate) fn truncate(v: &mut BitVec<u32>, len: usize)
    ensures
        bits(*final(v)) == if len < bits(*old(v)).len() {
            bits(*old(v)).take(len as int)
        } else {
            bits(*old(v))
        },
{
    v.truncate(len)
}

/// `BitVec::clear`: sets every bit to `false` and keeps the length.
#[verifier::external_body]
pub(crate) fn clear(v: &mut BitVec<u32>)
    ensures
        bits(*final(v)) == Seq::new(bits(*old(v)).len(), |i: int| false),
{
    v.clear()
}

/// `BitVec::none`: whether no bit is set.
#[verifier::external_body]
pub(crate) fn none(v: &BitVec<u32>) -> (r: bool)
    ensures
        r == forall|i: int| 0 <= i < bits(*v).len() ==> !bits(*v)[i],
{
    v.none()
}

/// `BitVec::or`: bitwise or with a vector of the same length. The call
/// panics when the lengths differ.
#[verifier::external_body]
pub(crate) fn or(v: &mut BitVec<u32>, other: &BitVec<u32>)
    requires
        bits(*old(v)).len() == bits(*other).len(),
    ensures
        bits(*final(v)) == Seq::new(
            bits(*old(v)).len(),
            |i: int| bits(*old(v))[i] || bits(*other)[i],
        ),
{
    v.or(other);
}

/// `BitVec::and`: bitwise and with a vector of the same length. The call
/// panics when the lengths differ.
#[verifier::external_body]
pub(crate) fn and(v: &mut BitVec<u32>, other: &BitVec<u32>)
    requires
        bits(*old(v)).len() == bits(*other).len(),
    ensures
        bits(*final(v)) == Seq::new(
            bits(*old(v)).len(),
            |i: int| bits(*old(v))[i] && bits(*other)[i],
        ),
{
    v.and(other);
}

/// `BitVec::difference`: clears each bit that is set in a vector of the
/// same length. The call panics when the lengths differ.
#[verifier::external_body]
pub(crate) fn difference(v: &mut BitVec<u32>, other: &BitVec<u32>)
    requires
        bits(*old(v)).len() == bits(*other).len(),
    ensures
        bits(*final(v)) == Seq::new(
            bits(*old(v)).len(),
            |i: int| bits(*old(v))[i] && !bits(*other)[i],
        ),
{
    v.difference(other);
}

/// `BitVec::xor`: bitwise exclusive or with a vector of the same length.
/// The call panics when the lengths differ.
#[verifier::external_body]
pub(crate) fn xor(v: &mut BitVec<u32>, other: &BitVec<u32>)
    requires
        bits(*old(v)).len() == bits(*other).len(),
    ensures
        bits(*final(v)) == Seq::new(
            bits(*old(v)).len(),
            |i: int| bits(*old(v))[i] != bits(*other)[i],
        ),
{
    v.xor(other);
}

/// `BitVec::capacity`: the number of bits that fit without reallocating,
/// which is never below the number held.
#[verifier::external_body]
pub(crate) fn capacity(v: &BitVec<u32>) -> (c: usize)
    ensures
        c >= bits(*v).len(),
{
    v.capacity()
}

/// `BitVec::reserve`: makes room for `additional` more bits and leaves the
/// bits alone. The call panics when the wanted capacity overflows `usize`.
#[verifier::external_body]
pub(crate) fn reserve(v: &mut BitVec<u32>, additional: usize)
    requires
        bits(*old(v)).len() + additional <= usize::MAX,
    ensures
        bits(*final(v)) == bits(*old(v)),
{
    v.reserve(additional)
}

/// `BitVec::reserve_exact`: as `reserve`, without room to spare.
#[verifier::external_body]
pub(crate) fn reserve_exact(v: &mut BitVec<u32>, additional: usize)
    requires
        bits(*old(v)).len() + additional <= usize::MAX,
    ensures
        bits(*final(v)) == bits(*old(v)),
{
    v.reserve_exact(additional)
}

/// `BitVec::shrink_to_fit`: gives back spare storage and leaves the bits
/// alone.
#[verifier::external_body]
pub(crate) fn shrink_to_fit(v: &mut BitVec<u32>)
    ensures
        bits(*final(v)) == bits(*old(v)),
{
    v.shrink_to_fit()
}

/// `BitVec::clone`: a vector that holds the same bits.
#[verifier::external_body]
pub(crate) fn duplicate(v: &BitVec<u32>) -> (copy: BitVec<u32>)
    ensures
        bits(copy) == bits(*v),
{
    v.clone()
}

/// `BitVec::eq`: two vectors are equal when they hold the same bits.
#[verifier::external_body]
pub(crate) fn same(a: &BitVec<u32>, b: &BitVec<u32>) -> (r: bool)
    ensures
        r == (bits(*a) == bits(*b)),
{
    a.eq(b)
}

/// `BitVec::cmp`: the lexicographic order over the bits, an unset bit before
/// a set one, a vector before every longer one that it starts.
#[verifier::external_body]
pub(crate) fn order(a: &BitVec<u32>, b: &BitVec<u32>) -> (o: Ordering)
    ensures
        o == lex_order(bits(*a), bits(*b)),
{
    a.cmp(b)
}

} // verus!

//! A dense set whose elements are values of any type that converts to and
//! from a raw bit position, stored in a packed bit vector.
//!
//! - `index`: the raw bit position, `BitIdx`, and the conversions of plain
//!   indices.
//! - `engine`: the bit vector of the `bit_vec` crate and what is relied on
//!   from it.
//! - `model`: bit patterns, their members, and what each operation does to
//!   them.
//! - `set`: the set, `BitSet`.
//! - `iter`: walks over a set or over two sets combined, `MapBitIdx`.
//! - `order`: equality and order of sets.
//! - `laws`: what holds of the operations together.

pub mod engine;
pub mod index;
pub mod iter;
pub mod laws;
pub mod model;
pub mod order;
pub mod set;

pub use index::BitIdx;
pub use iter::MapBitIdx;
pub use model::SetOp;
pub use set::BitSet;

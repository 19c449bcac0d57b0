//! Bit-level access to fixed-width integers and to slices of them.
//!
//! [`BitField`] reads and writes single bits and contiguous bit ranges of one
//! integer; [`BitArray`] does the same for a slice of integers, addressed as
//! one flat sequence of bits in which earlier words hold the less significant
//! positions. Bit 0 is always the least significant bit.
//!
//! Every operation is specified over the sequence of bits of the value it
//! works on: see [`BitField::bits`] and [`layout::flat`], and the functions in
//! [`model`] that the contracts are written with.

pub mod model;
pub mod field;
pub mod word8;
pub mod word16;
pub mod word32;
pub mod word64;
pub mod wordsize;
pub mod layout;
pub mod array;
pub mod laws;

pub use crate::array::BitArray;
pub use crate::field::BitField;

//! N-byte floating point values, held as their raw little-endian bytes.
use vstd::prelude::*;
use crate::fixed_bytes::reverse_bytes;
use crate::u::U;

verus! {

/// N-byte floating point value. `F<4> == f32`, `F<8> == f64`, etc.
///
/// Represented as 1 sign bit, `3N - 1` exponent bits, and all remaining (`5N`) mantissa bits.
pub struct F<const N: usize>([u8; N]);

impl<const N: usize> F<N> {
    /// The raw bytes, lowest first.
    pub closed spec fn bytes(self) -> Seq<u8> {
        self.0@
    }

    /// The bits of this value as an unsigned integer.
    pub fn to_bits(self) -> (r: U<N>)
        ensures
            r.0@ == self.bytes(),
    {
        U::from_le_bytes(self.to_le_bytes())
    }

    /// The value whose bits are those of `val`.
    pub fn from_bits(val: U<N>) -> (r: F<N>)
        ensures
            r.bytes() == val.0@,
    {
        F(val.to_le_bytes())
    }

    /// Create a value from raw bytes, laid out in little-endian order
    pub fn from_le_bytes(bytes: [u8; N]) -> (r: F<N>)
        ensures
            r.bytes() == bytes@,
    {
        F(bytes)
    }

    /// Create a value from raw bytes, laid out in big-endian order
    pub fn from_be_bytes(bytes: [u8; N]) -> (r: F<N>)
        ensures
            r.bytes() == bytes@.reverse(),
    {
        F(reverse_bytes(bytes))
    }

    /// Create a value from raw bytes, laid out in the native endianness, which this library
    /// takes to be little-endian
    pub fn from_ne_bytes(bytes: [u8; N]) -> (r: F<N>)
        ensures
            r.bytes() == bytes@,
    {
        Self::from_le_bytes(bytes)
    }

    /// Convert this value to raw bytes, laid out in little-endian order
    pub fn to_le_bytes(self) -> (r: [u8; N])
        ensures
            r@ == self.bytes(),
    {
        self.0
    }

    /// Convert this value to raw bytes, laid out in big-endian order
    pub fn to_be_bytes(self) -> (r: [u8; N])
        ensures
            r@ == self.bytes().reverse(),
    {
        reverse_bytes(self.0)
    }

    /// Convert this value to raw bytes, laid out in the native endianness, which this library
    /// takes to be little-endian
    pub fn to_ne_bytes(self) -> (r: [u8; N])
        ensures
            r@ == self.bytes(),
    {
        self.to_le_bytes()
    }
}

} // verus!

//! Registers of memory-mapped devices: what can be read or written is part
//! of the type of a register, and so is the byte order in which the device
//! keeps the value. The processor is little-endian.
use vstd::prelude::*;

pub mod bitflags;
pub mod endianness;
pub mod read_write;
pub mod unaligned;

verus! {

/// An unsigned integer that a register can hold.
pub trait RawReg: Copy + Sized {
    /// The value with its bytes in reverse order.
    spec fn swapped(self) -> Self;

    /// The bits that are set in `self` or in `other`.
    spec fn or_spec(self, other: Self) -> Self;

    /// The bits that are set in `self` and in `other`.
    spec fn and_spec(self, other: Self) -> Self;

    /// The bits that are set in exactly one of `self` and `other`.
    spec fn xor_spec(self, other: Self) -> Self;

    /// The bits that are not set in `self`.
    spec fn not_spec(self) -> Self;

    /// Reversing the bytes twice gives the value back.
    proof fn lemma_swapped_twice(self)
        ensures
            self.swapped().swapped() == self,
    ;

    /// The value with its bytes in reverse order.
    fn swap_bytes(self) -> (r: Self)
        ensures
            r == self.swapped(),
    ;

    /// The value as a little-endian device keeps it.
    fn to_le(self) -> (r: Self)
        ensures
            r == self,
    ;

    /// The value that a little-endian device keeps as `self`.
    fn from_le(self) -> (r: Self)
        ensures
            r == self,
    ;

    /// The value as a big-endian device keeps it.
    fn to_be(self) -> (r: Self)
        ensures
            r == self.swapped(),
    ;

    /// The value that a big-endian device keeps as `self`.
    fn from_be(self) -> (r: Self)
        ensures
            r == self.swapped(),
    ;

    /// The bits that are set in `self` or in `other`.
    fn bit_or(self, other: Self) -> (r: Self)
        ensures
            r == self.or_spec(other),
    ;

    /// The bits that are set in `self` and in `other`.
    fn bit_and(self, other: Self) -> (r: Self)
        ensures
            r == self.and_spec(other),
    ;

    /// The bits that are set in exactly one of `self` and `other`.
    fn bit_xor(self, other: Self) -> (r: Self)
        ensures
            r == self.xor_spec(other),
    ;

    /// The bits that are not set in `self`.
    fn bit_not(self) -> (r: Self)
        ensures
            r == self.not_spec(),
    ;
}

/// A type of which every pattern of bits is a value.
pub trait BytePod: Copy {

}

impl RawReg for u8 {
    open spec fn swapped(self) -> u8 {
        self
    }

    open spec fn or_spec(self, other: u8) -> u8 {
        self | other
    }

    open spec fn and_spec(self, other: u8) -> u8 {
        self & other
    }

    open spec fn xor_spec(self, other: u8) -> u8 {
        self ^ other
    }

    open spec fn not_spec(self) -> u8 {
        !self
    }

    proof fn lemma_swapped_twice(self) {
    }

    fn swap_bytes(self) -> u8 {
        self
    }

    fn to_le(self) -> u8 {
        self
    }

    fn from_le(self) -> u8 {
        self
    }

    fn to_be(self) -> u8 {
        self
    }

    fn from_be(self) -> u8 {
        self
    }

    fn bit_or(self, other: u8) -> u8 {
        self | other
    }

    fn bit_and(self, other: u8) -> u8 {
        self & other
    }

    fn bit_xor(self, other: u8) -> u8 {
        self ^ other
    }

    fn bit_not(self) -> u8 {
        !self
    }
}

impl BytePod for u8 {

}

impl RawReg for u16 {
    open spec fn swapped(self) -> u16 {
        (self << 8) | (self >> 8)
    }

    open spec fn or_spec(self, other: u16) -> u16 {
        self | other
    }

    open spec fn and_spec(self, other: u16) -> u16 {
        self & other
    }

    open spec fn xor_spec(self, other: u16) -> u16 {
        self ^ other
    }

    open spec fn not_spec(self) -> u16 {
        !self
    }

    proof fn lemma_swapped_twice(self) {
        let x = self;
        assert((((x << 8) | (x >> 8)) << 8) | (((x << 8) | (x >> 8)) >> 8) == x) by (bit_vector);
    }

    fn swap_bytes(self) -> u16 {
        swap16(self)
    }

    fn to_le(self) -> u16 {
        self
    }

    fn from_le(self) -> u16 {
        self
    }

    fn to_be(self) -> u16 {
        swap16(self)
    }

    fn from_be(self) -> u16 {
        swap16(self)
    }

    fn bit_or(self, other: u16) -> u16 {
        self | other
    }

    fn bit_and(self, other: u16) -> u16 {
        self & other
    }

    fn bit_xor(self, other: u16) -> u16 {
        self ^ other
    }

    fn bit_not(self) -> u16 {
        !self
    }
}

impl BytePod for u16 {

}

impl RawReg for u32 {
    open spec fn swapped(self) -> u32 {
        (self << 24) | ((self & 0xff00) << 8) | ((self >> 8) & 0xff00) | (self >> 24)
    }

    open spec fn or_spec(self, other: u32) -> u32 {
        self | other
    }

    open spec fn and_spec(self, other: u32) -> u32 {
        self & other
    }

    open spec fn xor_spec(self, other: u32) -> u32 {
        self ^ other
    }

    open spec fn not_spec(self) -> u32 {
        !self
    }

    proof fn lemma_swapped_twice(self) {
        let x = self;
        let y = (x << 24) | ((x & 0xff00) << 8) | ((x >> 8) & 0xff00) | (x >> 24);
        assert(y == (x << 24) | ((x & 0xff00) << 8) | ((x >> 8) & 0xff00) | (x >> 24) ==> (y << 24)
            | ((y & 0xff00) << 8) | ((y >> 8) & 0xff00) | (y >> 24) == x) by (bit_vector);
    }

    fn swap_bytes(self) -> u32 {
        swap32(self)
    }

    fn to_le(self) -> u32 {
        self
    }

    fn from_le(self) -> u32 {
        self
    }

    fn to_be(self) -> u32 {
        swap32(self)
    }

    fn from_be(self) -> u32 {
        swap32(self)
    }

    fn bit_or(self, other: u32) -> u32 {
        self | other
    }

    fn bit_and(self, other: u32) -> u32 {
        self & other
    }

    fn bit_xor(self, other: u32) -> u32 {
        self ^ other
    }

    fn bit_not(self) -> u32 {
        !self
    }
}

impl BytePod for u32 {

}

impl RawReg for u64 {
    open spec fn swapped(self) -> u64 {
        (self << 56) | ((self & 0xff00) << 40) | ((self & 0xff_0000) << 24) | ((self & 0xff00_0000)
            << 8) | ((self >> 8) & 0xff00_0000) | ((self >> 24) & 0xff_0000) | ((self >> 40)
            & 0xff00) | (self >> 56)
    }

    open spec fn or_spec(self, other: u64) -> u64 {
        self | other
    }

    open spec fn and_spec(self, other: u64) -> u64 {
        self & other
    }

    open spec fn xor_spec(self, other: u64) -> u64 {
        self ^ other
    }

    open spec fn not_spec(self) -> u64 {
        !self
    }

    proof fn lemma_swapped_twice(self) {
        let x = self;
        let y = (x << 56) | ((x & 0xff00) << 40) | ((x & 0xff_0000) << 24) | ((x & 0xff00_0000)
            << 8) | ((x >> 8) & 0xff00_0000) | ((x >> 24) & 0xff_0000) | ((x >> 40) & 0xff00) | (x
            >> 56);
        assert(y == (x << 56) | ((x & 0xff00) << 40) | ((x & 0xff_0000) << 24) | ((x & 0xff00_0000)
            << 8) | ((x >> 8) & 0xff00_0000) | ((x >> 24) & 0xff_0000) | ((x >> 40) & 0xff00) | (x
            >> 56) ==> (y << 56) | ((y & 0xff00) << 40) | ((y & 0xff_0000) << 24) | ((y
            & 0xff00_0000) << 8) | ((y >> 8) & 0xff00_0000) | ((y >> 24) & 0xff_0000) | ((y >> 40)
            & 0xff00) | (y >> 56) == x) by (bit_vector);
    }

    fn swap_bytes(self) -> u64 {
        swap64(self)
    }

    fn to_le(self) -> u64 {
        self
    }

    fn from_le(self) -> u64 {
        self
    }

    fn to_be(self) -> u64 {
        swap64(self)
    }

    fn from_be(self) -> u64 {
        swap64(self)
    }

    fn bit_or(self, other: u64) -> u64 {
        self | other
    }

    fn bit_and(self, other: u64) -> u64 {
        self & other
    }

    fn bit_xor(self, other: u64) -> u64 {
        self ^ other
    }

    fn bit_not(self) -> u64 {
        !self
    }
}

impl BytePod for u64 {

}

/// The bytes of `x` in reverse order.
pub fn swap16(x: u16) -> (r: u16)
    ensures
        r == x.swapped(),
{
    (x << 8) | (x >> 8)
}

/// The bytes of `x` in reverse order.
pub fn swap32(x: u32) -> (r: u32)
    ensures
        r == x.swapped(),
{
    (x << 24) | ((x & 0xff00) << 8) | ((x >> 8) & 0xff00) | (x >> 24)
}

/// The bytes of `x` in reverse order.
pub fn swap64(x: u64) -> (r: u64)
    ensures
        r == x.swapped(),
{
    (x << 56) | ((x & 0xff00) << 40) | ((x & 0xff_0000) << 24) | ((x & 0xff00_0000) << 8) | ((x
        >> 8) & 0xff00_0000) | ((x >> 24) & 0xff_0000) | ((x >> 40) & 0xff00) | (x >> 56)
}

} // verus!

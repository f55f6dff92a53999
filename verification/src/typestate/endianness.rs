//! Registers that keep their value in a fixed byte order.
use vstd::prelude::*;
use crate::typestate::BytePod;
use crate::typestate::RawReg;

verus! {

/// A register that keeps its value in little-endian order. The field holds
/// the value as the device keeps it.
#[derive(Clone, Copy, Debug)]
pub struct Le<U: Copy + Clone>(pub U);

/// A register that keeps its value in big-endian order. The field holds the
/// value as the device keeps it.
#[derive(Clone, Copy, Debug)]
pub struct Be<U: Copy + Clone>(pub U);

impl<T: RawReg> Le<T> {
    /// The value of the register, as the processor reads it.
    pub open spec fn value(self) -> T {
        self.0
    }

    /// The register that a little-endian device keeps as `t`.
    pub fn new(t: T) -> (r: Self)
        ensures
            r.0 == t,
            r.value() == t,
    {
        Self(t.from_le())
    }

    /// The value of the register, in the byte order of the processor.
    pub fn read(&self) -> (r: T)
        ensures
            r == self.value(),
    {
        self.0.from_le()
    }

    /// Puts `val` into the register, in the byte order of the device.
    pub fn write(&mut self, val: T)
        ensures
            final(self).value() == val,
            final(self).0 == val,
    {
        self.0 = val.to_le();
    }
}

impl<T: RawReg> Be<T> {
    /// The value of the register, as the processor reads it.
    pub open spec fn value(self) -> T {
        self.0.swapped()
    }

    /// The register that a big-endian device keeps as `t`.
    pub fn new(t: T) -> (r: Self)
        ensures
            r.0 == t.swapped(),
            r.value() == t,
    {
        proof {
            t.lemma_swapped_twice();
        }
        Self(t.from_be())
    }

    /// The value of the register, in the byte order of the processor.
    pub fn read(&self) -> (r: T)
        ensures
            r == self.value(),
    {
        self.0.from_be()
    }

    /// Puts `val` into the register, in the byte order of the device.
    pub fn write(&mut self, val: T)
        ensures
            final(self).value() == val,
            final(self).0 == val.swapped(),
    {
        proof {
            val.lemma_swapped_twice();
        }
        self.0 = val.to_be();
    }
}

impl<T: BytePod> BytePod for Le<T> {

}

impl<T: BytePod> BytePod for Be<T> {

}

} // verus!

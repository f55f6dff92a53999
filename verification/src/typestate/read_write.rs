//! Registers by what the processor may do with them.
use vstd::prelude::*;
use crate::typestate::RawReg;

verus! {

/// What can be read.
pub trait Readable {
    /// The type of the value.
    type T: Copy;

    /// The value that a read gives.
    spec fn held(&self) -> Self::T;

    /// Reads the register once.
    fn read(&self) -> (r: Self::T)
        ensures
            r == self.held(),
    ;
}

/// What can be written.
pub trait Writable {
    /// The type of the value.
    type T;

    /// The value that was written last.
    spec fn stored(&self) -> Self::T;

    /// Writes the register once.
    fn write(&mut self, val: Self::T)
        ensures
            final(self).stored() == val,
    ;
}

/// A register that can be read. Nothing is said of what a read does to the device.
#[derive(Debug)]
pub struct ReadOnly<T>(pub T);

/// A register that can be read, and that a read leaves as it is.
#[derive(Debug)]
pub struct ReadPure<T>(pub T);

/// A register that can be written.
#[derive(Debug)]
pub struct WriteOnly<T>(pub T);

/// A register that can be read and written.
#[derive(Debug)]
pub struct ReadWrite<T>(pub T);

impl<T: RawReg> Readable for ReadOnly<T> {
    type T = T;

    open spec fn held(&self) -> T {
        self.0
    }

    fn read(&self) -> T {
        self.0
    }
}

impl<T: RawReg> Readable for ReadPure<T> {
    type T = T;

    open spec fn held(&self) -> T {
        self.0
    }

    fn read(&self) -> T {
        self.0
    }
}

impl<T: RawReg> Readable for ReadWrite<T> {
    type T = T;

    open spec fn held(&self) -> T {
        self.0
    }

    fn read(&self) -> T {
        self.0
    }
}

impl<T: RawReg> Writable for WriteOnly<T> {
    type T = T;

    open spec fn stored(&self) -> T {
        self.0
    }

    fn write(&mut self, val: T) {
        self.0 = val;
    }
}

impl<T: RawReg> Writable for ReadWrite<T> {
    type T = T;

    open spec fn stored(&self) -> T {
        self.0
    }

    fn write(&mut self, val: T) {
        self.0 = val;
    }
}

impl<T: RawReg> ReadWrite<T> {
    /// Sets the bits of `mask`, and leaves the others.
    pub fn set_bits(&mut self, mask: T)
        ensures
            final(self).0 == old(self).0.or_spec(mask),
    {
        let current = self.read();
        self.write(current.bit_or(mask));
    }

    /// Clears the bits of `mask`, and leaves the others.
    pub fn clear_bits(&mut self, mask: T)
        ensures
            final(self).0 == old(self).0.and_spec(mask.not_spec()),
    {
        let current = self.read();
        self.write(current.bit_and(mask.bit_not()));
    }

    /// Turns the bits of `mask` over, and leaves the others.
    pub fn toggle_bits(&mut self, mask: T)
        ensures
            final(self).0 == old(self).0.xor_spec(mask),
    {
        let current = self.read();
        self.write(current.bit_xor(mask));
    }
}

} // verus!

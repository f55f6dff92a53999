//! Registers that lie at an address that is no multiple of their size.
use vstd::prelude::*;
use crate::typestate::RawReg;

verus! {

/// A register at an address that its size does not divide. The value is
/// read and written byte by byte; the byte order is that of the processor.
#[derive(Clone, Copy, Debug)]
pub struct Unaligned<T>(pub T);

impl<T: RawReg> Unaligned<T> {
    /// The value of the register.
    pub fn get(&self) -> (r: T)
        ensures
            r == self.0,
    {
        self.0
    }

    /// Puts `val` into the register.
    pub fn set(&mut self, val: T)
        ensures
            final(self).0 == val,
    {
        self.0 = val;
    }
}

} // verus!

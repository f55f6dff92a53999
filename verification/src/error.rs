//! Failures surfaced by the allocator.
use vstd::prelude::*;

verus! {

/// Every way in which an operation of the memory core can fail.
#[derive(Clone, Copy, PartialEq, Eq, Debug, Structural)]
pub enum AllocError {
    /// An entry point was used before the allocator was initialised.
    NotInitialized,
    /// A region was ingested after the lists had been finalised.
    AlreadyFinalized,
    /// Memory was requested or returned before the lists were finalised.
    NotAllocatable,
    /// A list has no slot left for another region.
    CapacityExceeded,
    /// A reserved region lies outside every available region.
    ReservedOutsideAvailable,
    /// A reserved region crosses the boundary of the available region it starts in.
    ReservedLargerThanAvailable,
    /// No block large enough is left.
    OutOfMemory,
}

impl AllocError {
    /// The message that goes with each failure.
    pub fn message(&self) -> (r: &'static str)
        ensures
            r@ == Self::message_text(*self),
    {
        match self {
            AllocError::NotInitialized => "allocator not initialized",
            AllocError::AlreadyFinalized => "allocator already finalized",
            AllocError::NotAllocatable => "allocator not finalized",
            AllocError::CapacityExceeded => "region size overflow",
            AllocError::ReservedOutsideAvailable => "invalid reserved region: located outside of all available regions",
            AllocError::ReservedLargerThanAvailable => "the memory region is smaller than the reserved region",
            AllocError::OutOfMemory => "out of memory",
        }
    }

    /// The text of [`AllocError::message`], as a sequence of characters.
    pub open spec fn message_text(e: AllocError) -> Seq<char> {
        match e {
            AllocError::NotInitialized => "allocator not initialized"@,
            AllocError::AlreadyFinalized => "allocator already finalized"@,
            AllocError::NotAllocatable => "allocator not finalized"@,
            AllocError::CapacityExceeded => "region size overflow"@,
            AllocError::ReservedOutsideAvailable => "invalid reserved region: located outside of all available regions"@,
            AllocError::ReservedLargerThanAvailable => "the memory region is smaller than the reserved region"@,
            AllocError::OutOfMemory => "out of memory"@,
        }
    }
}

} // verus!

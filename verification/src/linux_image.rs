//! The header at the start of an arm64 Linux kernel image.
use vstd::prelude::*;
use crate::elf::read_u64;
use crate::elf::u64_at;
use crate::typestate::endianness::Le;

verus! {

/// The number of bytes of the header.
pub const LINUX_HEADER_BYTES: usize = 64;

/// What the header of an image says of where the image is to lie, each
/// number as the image keeps it, in little-endian order.
pub struct LinuxHeader {
    pub text_offset: Le<u64>,
    pub image_size: Le<u64>,
    pub flags: Le<u64>,
}

/// The bytes 56 to 59 spell `ARM` and the byte 0x64.
pub open spec fn has_magic(b: Seq<u8>) -> bool {
    b[56] == 0x41 && b[57] == 0x52 && b[58] == 0x4d && b[59] == 0x64
}

impl LinuxHeader {
    /// Reads the header of the image `bytes`, or gives `None` where the
    /// image is shorter than a header or lacks the magic number.
    pub fn read(bytes: &Vec<u8>) -> (r: Option<LinuxHeader>)
        ensures
            r is Some <==> bytes@.len() >= LINUX_HEADER_BYTES && has_magic(bytes@),
            r matches Some(h) ==> h.text_offset.value() == u64_at(bytes@, 8, false)
                && h.image_size.value() == u64_at(bytes@, 16, false) && h.flags.value() == u64_at(
                bytes@,
                24,
                false,
            ),
    {
        if bytes.len() < LINUX_HEADER_BYTES {
            return None;
        }
        if !(bytes[56] == 0x41 && bytes[57] == 0x52 && bytes[58] == 0x4d && bytes[59] == 0x64) {
            return None;
        }
        Some(
            LinuxHeader {
                text_offset: Le::new(read_u64(bytes, 8, false)),
                image_size: Le::new(read_u64(bytes, 16, false)),
                flags: Le::new(read_u64(bytes, 24, false)),
            },
        )
    }

    /// The number of bytes that the image needs where it is loaded: its
    /// size and the offset at which its text starts, or `None` where the sum
    /// is no machine word.
    pub fn load_size(&self) -> (r: Option<usize>)
        ensures
            match r {
                Some(n) => n == self.image_size.value() + self.text_offset.value(),
                None => self.image_size.value() + self.text_offset.value() > usize::MAX,
            },
    {
        let size = self.image_size.read();
        let offset = self.text_offset.read();
        if size > u64::MAX - offset {
            return None;
        }
        let sum = size + offset;
        if sum > usize::MAX as u64 {
            return None;
        }
        Some(sum as usize)
    }
}

} // verus!

//! The flattened device tree: its header, its block of reserved memory and
//! the pieces of its structure block, read from the bytes of the blob.
use vstd::prelude::*;
use crate::search::first_where;
use crate::search::lemma_first_where;
use crate::typestate::endianness::Be;

verus! {

/// The number that the first four bytes of a blob spell.
pub const DTB_HEADER_MAGIC: u32 = 0xd00d_feed;

/// The version of the format that this reader knows.
pub const DTB_VERSION: u32 = 17;

/// The number of bytes of the header.
pub const HEADER_BYTES: usize = 40;

/// The number of bytes of a token of the structure block.
pub const SIZEOF_FDT_TOKEN: usize = 4;

/// The number of bytes of an entry of the block of reserved memory.
pub const RESERVE_ENTRY_BYTES: usize = 16;

/// The token that opens a node.
pub const FDT_BEGIN_NODE: u32 = 1;

/// The token that closes a node.
pub const FDT_END_NODE: u32 = 2;

/// The token that opens a property.
pub const FDT_PROP: u32 = 3;

/// The token that stands for nothing.
pub const FDT_NOP: u32 = 4;

/// The token that closes the structure block.
pub const FDT_END: u32 = 9;

/// Why a blob cannot be read.
#[derive(Clone, Copy, PartialEq, Eq, Debug, Structural)]
pub enum DtbError {
    /// The blob is shorter than what is read from it.
    Truncated,
    /// The blob does not start with the magic number.
    InvalidMagic,
    /// The blob asks for a reader of a later version.
    IncompatibleVersion,
    /// A block of the blob does not lie within the blob.
    OutOfBounds,
    /// The strings of a property are longer than the property.
    TooSmall,
    /// The name of a property does not lie within the strings block.
    BadName,
    /// The root has a `reg` property.
    RegAtRoot,
    /// A node that the search asks for has no `reg` property.
    NoReg,
    /// An address or a size has more than two cells, or an entry has none.
    BadCells,
    /// The length of a property is no multiple of the length of its entries.
    BadLength,
    /// An address does not lie within the range that translates it.
    RangesOverflow,
    /// A token stands where the format allows none of its kind.
    UnexpectedToken,
    /// A node does not start with the token that opens a node.
    ExpectedBeginNode,
    /// The structure block does not end with the token that closes it.
    MissingEnd,
    /// A search names both a device type and a compatible string, or neither.
    BadQuery,
    /// A child of `reserved-memory` gives `reg` twice, or one of `size`,
    /// `alignment` and `alloc-ranges` twice, or mixes the two kinds.
    DuplicateProperty,
    /// A child of `reserved-memory` that is placed at will gives no `size`.
    MissingSize,
}

/// The four bytes at `off`, read as a big-endian number.
pub open spec fn be32(b: Seq<u8>, off: int) -> u32
    recommends
        0 <= off,
        off + 4 <= b.len(),
{
    (b[off] as u32 * 0x100_0000 + b[off + 1] as u32 * 0x1_0000 + b[off + 2] as u32 * 0x100 + b[off
        + 3] as u32) as u32
}

/// The eight bytes at `off`, read as a big-endian number.
pub open spec fn be64(b: Seq<u8>, off: int) -> u64
    recommends
        0 <= off,
        off + 8 <= b.len(),
{
    (be32(b, off) as u64 * 0x1_0000_0000 + be32(b, off + 4) as u64) as u64
}

/// Reads the four bytes at `off` as a big-endian number.
pub fn read_be32(bytes: &Vec<u8>, off: usize) -> (r: u32)
    requires
        off + 4 <= bytes@.len(),
    ensures
        r == be32(bytes@, off as int),
{
    let len = bytes.len();
    let b0: u32 = bytes[off] as u32;
    let b1: u32 = bytes[off + 1] as u32;
    let b2: u32 = bytes[off + 2] as u32;
    let b3: u32 = bytes[off + 3] as u32;
    b0 * 0x100_0000 + b1 * 0x1_0000 + b2 * 0x100 + b3
}

/// Reads the eight bytes at `off` as a big-endian number.
pub fn read_be64(bytes: &Vec<u8>, off: usize) -> (r: u64)
    requires
        off + 8 <= bytes@.len(),
    ensures
        r == be64(bytes@, off as int),
{
    let len = bytes.len();
    let high: u64 = read_be32(bytes, off) as u64;
    let low: u64 = read_be32(bytes, off + 4) as u64;
    high * 0x1_0000_0000 + low
}

/// The head of a property in the structure block: the length of its value
/// and the place of its name in the strings block, each as the blob keeps it.
pub struct FdtProperty {
    property_len: Be<u32>,
    name_offset: Be<u32>,
}

impl FdtProperty {
    /// The number of bytes of the head of a property.
    pub const BYTES: usize = 8;

    /// The head of the property whose eight bytes lie at `off`.
    pub fn read(bytes: &Vec<u8>, off: usize) -> (r: Self)
        requires
            off + 8 <= bytes@.len(),
        ensures
            r.spec_property_len() == be32(bytes@, off as int),
            r.spec_name_offset() == be32(bytes@, off + 4),
    {
        let len = bytes.len();
        FdtProperty {
            property_len: Be::new(read_be32(bytes, off)),
            name_offset: Be::new(read_be32(bytes, off + 4)),
        }
    }

    /// The number of bytes of the value.
    pub closed spec fn spec_property_len(&self) -> u32 {
        self.property_len.value()
    }

    /// The place of the name, counted from the start of the strings block.
    pub closed spec fn spec_name_offset(&self) -> u32 {
        self.name_offset.value()
    }

    /// The number of bytes of the value.
    pub fn get_property_len(&self) -> (r: u32)
        ensures
            r == self.spec_property_len(),
    {
        self.property_len.read()
    }

    /// The place of the name, counted from the start of the strings block.
    pub fn get_name_offset(&self) -> (r: u32)
        ensures
            r == self.spec_name_offset(),
    {
        self.name_offset.read()
    }
}

/// An entry of the block of reserved memory: a first address and a length.
#[derive(Clone, Copy, PartialEq, Eq, Debug, Structural)]
pub struct FdtReserveEntry {
    pub address: u64,
    pub size: u64,
}

impl FdtReserveEntry {
    /// The first address of the entry whose sixteen bytes lie at `off`.
    pub fn get_address(bytes: &Vec<u8>, off: usize) -> (r: u64)
        requires
            off + 16 <= bytes@.len(),
        ensures
            r == be64(bytes@, off as int),
    {
        read_be64(bytes, off)
    }

    /// The length of the entry whose sixteen bytes lie at `off`.
    pub fn get_size(bytes: &Vec<u8>, off: usize) -> (r: u64)
        requires
            off + 16 <= bytes@.len(),
        ensures
            r == be64(bytes@, off + 8),
    {
        let len = bytes.len();
        read_be64(bytes, off + 8)
    }
}

/// What the header of a blob says.
pub struct HeaderView {
    pub magic: u32,
    pub total_size: u32,
    pub off_dt_struct: u32,
    pub off_dt_strings: u32,
    pub off_mem_rsvmap: u32,
    pub version: u32,
    pub last_comp_version: u32,
    pub boot_cpuid_phys: u32,
    pub size_dt_strings: u32,
    pub size_dt_struct: u32,
}

/// The header that the first forty bytes of a blob spell.
pub open spec fn header_of(b: Seq<u8>) -> HeaderView {
    HeaderView {
        magic: be32(b, 0),
        total_size: be32(b, 4),
        off_dt_struct: be32(b, 8),
        off_dt_strings: be32(b, 12),
        off_mem_rsvmap: be32(b, 16),
        version: be32(b, 20),
        last_comp_version: be32(b, 24),
        boot_cpuid_phys: be32(b, 28),
        size_dt_strings: be32(b, 32),
        size_dt_struct: be32(b, 36),
    }
}

/// Why the blob `b` at `address` cannot be read, if it cannot: it is
/// shorter than a header, does not start with the magic number, asks for a
/// later reader, or one of its blocks does not lie within it.
pub open spec fn header_fault(b: Seq<u8>, address: int) -> Option<DtbError> {
    let h = header_of(b);
    if b.len() < HEADER_BYTES || address + b.len() > usize::MAX {
        Some(DtbError::Truncated)
    } else if h.magic != DTB_HEADER_MAGIC {
        Some(DtbError::InvalidMagic)
    } else if h.last_comp_version > DTB_VERSION {
        Some(DtbError::IncompatibleVersion)
    } else if h.off_dt_struct + h.size_dt_struct > b.len() || h.off_dt_strings + h.size_dt_strings
        > b.len() || h.off_mem_rsvmap > b.len() {
        Some(DtbError::OutOfBounds)
    } else {
        None
    }
}

/// A blob whose header has been checked.
pub struct Dtb {
    address: usize,
    bytes: Vec<u8>,
}

impl Dtb {
    /// The address at which the blob lies.
    pub closed spec fn base(&self) -> int {
        self.address as int
    }

    /// The bytes of the blob.
    pub closed spec fn blob(&self) -> Seq<u8> {
        self.bytes@
    }

    /// The invariant of a checked blob.
    pub open spec fn wf(&self) -> bool {
        header_fault(self.blob(), self.base()) is None
    }

    /// Checks the header of the blob `bytes` that lies at `address`.
    pub fn new(address: usize, bytes: Vec<u8>) -> (r: Result<Dtb, DtbError>)
        ensures
            match r {
                Ok(d) => header_fault(bytes@, address as int) is None && d.wf() && d.blob()
                    == bytes@ && d.base() == address,
                Err(e) => header_fault(bytes@, address as int) == Some(e),
            },
    {
        if bytes.len() < HEADER_BYTES || bytes.len() > usize::MAX - address {
            return Err(DtbError::Truncated);
        }
        if read_be32(&bytes, 0) != DTB_HEADER_MAGIC {
            return Err(DtbError::InvalidMagic);
        }
        if read_be32(&bytes, 24) > DTB_VERSION {
            return Err(DtbError::IncompatibleVersion);
        }
        let len: u64 = bytes.len() as u64;
        let off_struct: u64 = read_be32(&bytes, 8) as u64;
        let size_struct: u64 = read_be32(&bytes, 36) as u64;
        let off_strings: u64 = read_be32(&bytes, 12) as u64;
        let size_strings: u64 = read_be32(&bytes, 32) as u64;
        let off_rsvmap: u64 = read_be32(&bytes, 16) as u64;
        if off_struct + size_struct > len || off_strings + size_strings > len || off_rsvmap > len {
            return Err(DtbError::OutOfBounds);
        }
        Ok(Dtb { address, bytes })
    }

    /// The bytes of the blob.
    pub fn bytes(&self) -> (r: &Vec<u8>)
        ensures
            r@ == self.blob(),
    {
        &self.bytes
    }

    /// The address at which the blob lies.
    pub fn address(&self) -> (r: usize)
        ensures
            r == self.base(),
    {
        self.address
    }

    /// The address at which the structure block starts.
    pub fn get_struct_start_address(&self) -> (r: usize)
        requires
            self.wf(),
        ensures
            r == self.base() + header_of(self.blob()).off_dt_struct,
    {
        self.address + read_be32(&self.bytes, 8) as usize
    }

    /// The address at which the structure block ends.
    pub fn get_struct_end_address(&self) -> (r: usize)
        requires
            self.wf(),
        ensures
            r == self.base() + header_of(self.blob()).off_dt_struct + header_of(
                self.blob(),
            ).size_dt_struct,
    {
        self.get_struct_start_address() + read_be32(&self.bytes, 36) as usize
    }

    /// The address at which the strings block starts.
    pub fn get_string_start_address(&self) -> (r: usize)
        requires
            self.wf(),
        ensures
            r == self.base() + header_of(self.blob()).off_dt_strings,
    {
        self.address + read_be32(&self.bytes, 12) as usize
    }

    /// The address at which the strings block ends.
    pub fn get_string_end_address(&self) -> (r: usize)
        requires
            self.wf(),
        ensures
            r == self.base() + header_of(self.blob()).off_dt_strings + header_of(
                self.blob(),
            ).size_dt_strings,
    {
        self.get_string_start_address() + read_be32(&self.bytes, 32) as usize
    }

    /// The address at which the block of reserved memory starts.
    pub fn get_memory_reservation_start_address(&self) -> (r: usize)
        requires
            self.wf(),
        ensures
            r == self.base() + header_of(self.blob()).off_mem_rsvmap,
    {
        self.address + read_be32(&self.bytes, 16) as usize
    }
}

/// The test that a byte is the end of a string.
pub open spec fn is_nul() -> spec_fn(u8) -> bool {
    |b: u8| b == 0
}

/// The number of bytes of the string that starts at `off`, without the byte
/// that ends it. Where no byte ends the string it runs to the end of the blob.
pub open spec fn string_len(b: Seq<u8>, off: int) -> int {
    first_where(b.skip(off), is_nul())
}

/// The number of bytes of the string that starts at `off`, or `None` where
/// no byte ends it.
pub fn read_string_len(bytes: &Vec<u8>, off: usize) -> (r: Option<usize>)
    requires
        off <= bytes@.len(),
    ensures
        r matches Some(n) ==> n == string_len(bytes@, off as int) && off + n < bytes@.len(),
        r is None ==> off + string_len(bytes@, off as int) == bytes@.len(),
{
    let mut i: usize = off;
    let ghost tail = bytes@.skip(off as int);
    while i < bytes.len()
        invariant
            off <= i <= bytes.len(),
            tail == bytes@.skip(off as int),
            forall|j: int| 0 <= j < i - off ==> !is_nul()(#[trigger] tail[j]),
        decreases bytes.len() - i,
    {
        if bytes[i] == 0 {
            proof {
                assert(tail[i - off] == bytes@[i as int]);
                lemma_first_where(tail, is_nul(), i - off);
            }
            return Some(i - off);
        }
        proof {
            assert(tail[i - off] == bytes@[i as int]);
        }
        i += 1;
    }
    proof {
        lemma_first_where(tail, is_nul(), i - off);
    }
    None
}

/// What reading the next string of a property comes to, `position` being
/// the place of the string and `remaining` the number of bytes of the
/// property that are left. Nothing is read once no byte is left. The read
/// fails where no byte ends the string within the blob, and where the
/// string with its last byte is longer than what is left; otherwise it gives
/// the place and the length of the string. The position moves behind the
/// string wherever a byte ends it.
pub open spec fn string_step(
    b: Seq<u8>,
    position: int,
    remaining: int,
    next_position: int,
    next_remaining: int,
    r: Option<Result<(usize, usize), DtbError>>,
) -> bool {
    let n = string_len(b, position);
    if remaining == 0 {
        r is None && next_position == position && next_remaining == remaining
    } else if position + n >= b.len() {
        r == Some(Err::<(usize, usize), DtbError>(DtbError::Truncated)) && next_position
            == position && next_remaining == remaining
    } else if n + 1 > remaining {
        r == Some(Err::<(usize, usize), DtbError>(DtbError::TooSmall)) && next_position == position
            + n + 1 && next_remaining == remaining
    } else {
        r == Some(Ok::<(usize, usize), DtbError>((position as usize, n as usize)))
            && next_position == position + n + 1 && next_remaining == remaining - n - 1
    }
}

/// The strings of a property, one behind the other, each ended by a zero byte.
pub struct CharStringIter {
    pointer: usize,
    remain_size: u32,
}

impl CharStringIter {
    /// The place in the blob at which the next string starts.
    pub closed spec fn position(&self) -> int {
        self.pointer as int
    }

    /// The number of bytes of the property that are not read yet.
    pub closed spec fn remaining(&self) -> int {
        self.remain_size as int
    }

    /// The strings of the `remain_size` bytes at `pointer`.
    pub fn new(pointer: usize, remain_size: u32) -> (r: Self)
        ensures
            r.position() == pointer,
            r.remaining() == remain_size,
    {
        Self { pointer, remain_size }
    }

    /// The place and the length of the next string, or `None` once the
    /// property is read. Fails where no byte ends the string within the
    /// blob, and where the string is longer than the rest of the property.
    pub fn next(&mut self, bytes: &Vec<u8>) -> (r: Option<Result<(usize, usize), DtbError>>)
        requires
            old(self).position() <= bytes@.len(),
        ensures
            final(self).position() <= bytes@.len(),
            string_step(
                bytes@,
                old(self).position(),
                old(self).remaining(),
                final(self).position(),
                final(self).remaining(),
                r,
            ),
    {
        if self.remain_size == 0 {
            return None;
        }
        let start = self.pointer;
        let len = bytes.len();
        match read_string_len(bytes, start) {
            Some(n) => {
                self.pointer = start + n + 1;
                if n >= self.remain_size as usize {
                    return Some(Err(DtbError::TooSmall));
                }
                let used: u32 = n as u32;
                self.remain_size = self.remain_size - 1 - used;
                Some(Ok((start, n)))
            },
            None => Some(Err(DtbError::Truncated)),
        }
    }
}

/// The lowest bits of `x` that make a machine word.
pub open spec fn word_of(x: u64) -> usize {
    #[verifier::truncate]
    (x as usize)
}

/// The entries of the block of reserved memory that starts at `off`, up to
/// the entry whose address and length are 0, or to the end of the blob.
pub open spec fn reserve_entries(b: Seq<u8>, off: int) -> Seq<(usize, usize)>
    decreases b.len() - off,
{
    if off < 0 || off + RESERVE_ENTRY_BYTES > b.len() {
        Seq::empty()
    } else if be64(b, off) == 0 && be64(b, off + 8) == 0 {
        Seq::empty()
    } else {
        seq![(word_of(be64(b, off)), word_of(be64(b, off + 8)))] + reserve_entries(
            b,
            off + RESERVE_ENTRY_BYTES,
        )
    }
}

/// The reader of a blob.
pub struct DtbParser {
    dtb_header: Dtb,
}

impl DtbParser {
    /// The blob that is read.
    pub closed spec fn dtb(&self) -> Dtb {
        self.dtb_header
    }

    /// The invariant of the reader.
    pub open spec fn wf(&self) -> bool {
        self.dtb().wf()
    }

    /// A reader of the blob `bytes` that lies at `dtb_address`, once its header is checked.
    pub fn init(dtb_address: usize, bytes: Vec<u8>) -> (r: Result<Self, DtbError>)
        ensures
            match r {
                Ok(p) => header_fault(bytes@, dtb_address as int) is None && p.wf() && p.dtb().blob()
                    == bytes@ && p.dtb().base() == dtb_address,
                Err(e) => header_fault(bytes@, dtb_address as int) == Some(e),
            },
    {
        match Dtb::new(dtb_address, bytes) {
            Ok(dtb) => Ok(Self { dtb_header: dtb }),
            Err(e) => Err(e),
        }
    }

    /// The checked blob.
    pub fn header(&self) -> (r: &Dtb)
        ensures
            *r == self.dtb(),
    {
        &self.dtb_header
    }

    /// The token at `off`.
    pub fn get_types(&self, off: usize) -> (r: u32)
        requires
            off + 4 <= self.dtb().blob().len(),
        ensures
            r == be32(self.dtb().blob(), off as int),
    {
        read_be32(self.dtb_header.bytes(), off)
    }

    /// The place of the first token from `off` on that is no `FDT_NOP`, or
    /// the end of the structure block.
    pub fn skip_nop(&self, off: usize) -> (r: usize)
        requires
            self.wf(),
        ensures
            off <= r,
            r == nop_end(
                self.dtb().blob(),
                off as int,
                header_of(self.dtb().blob()).off_dt_struct + header_of(
                    self.dtb().blob(),
                ).size_dt_struct,
            ),
    {
        let bytes = self.dtb_header.bytes();
        let end: usize = read_be32(bytes, 8) as usize + read_be32(bytes, 36) as usize;
        let mut p = off;
        while p < end && end - p >= SIZEOF_FDT_TOKEN && read_be32(bytes, p) == FDT_NOP
            invariant
                off <= p,
                end <= bytes@.len(),
                nop_end(bytes@, p as int, end as int) == nop_end(bytes@, off as int, end as int),
            decreases end - p,
        {
            p += SIZEOF_FDT_TOKEN;
        }
        proof {
            assert(nop_end(bytes@, p as int, end as int) == p);
        }
        p
    }

    /// The entries of the block of reserved memory, each as a first address
    /// and a length, up to the entry that ends the block.
    pub fn find_memory_reservation_block(&self) -> (r: Vec<(usize, usize)>)
        requires
            self.wf(),
        ensures
            r@ == reserve_entries(
                self.dtb().blob(),
                header_of(self.dtb().blob()).off_mem_rsvmap as int,
            ),
    {
        let bytes = self.dtb_header.bytes();
        let start: usize = read_be32(bytes, 16) as usize;
        let mut out: Vec<(usize, usize)> = Vec::new();
        let mut off = start;
        while bytes.len() - off >= RESERVE_ENTRY_BYTES
            invariant
                start <= off <= bytes@.len(),
                bytes@ == self.dtb().blob(),
                start == header_of(self.dtb().blob()).off_mem_rsvmap,
                out@ + reserve_entries(bytes@, off as int) == reserve_entries(bytes@, start as int),
            decreases bytes@.len() - off,
        {
            let addr = FdtReserveEntry::get_address(bytes, off);
            let size = FdtReserveEntry::get_size(bytes, off);
            if addr == 0 && size == 0 {
                proof {
                    assert(out@ + Seq::<(usize, usize)>::empty() =~= out@);
                }
                return out;
            }
            proof {
                let rest = reserve_entries(bytes@, off + RESERVE_ENTRY_BYTES);
                assert(out@.push((word_of(addr), word_of(size))) + rest =~= out@ + (seq![
                    (word_of(addr), word_of(size)),
                ] + rest));
            }
            out.push((#[verifier::truncate] (addr as usize), #[verifier::truncate] (size as usize)));
            off += RESERVE_ENTRY_BYTES;
        }
        proof {
            assert(out@ + Seq::<(usize, usize)>::empty() =~= out@);
        }
        out
    }
}

/// The place of the first token from `off` on that is no `FDT_NOP`, or the
/// place from which no whole token lies before `end`.
pub open spec fn nop_end(b: Seq<u8>, off: int, end: int) -> int
    decreases end - off,
{
    if off >= 0 && off + SIZEOF_FDT_TOKEN <= end && end <= b.len() && be32(b, off) == FDT_NOP {
        nop_end(b, off + SIZEOF_FDT_TOKEN, end)
    } else {
        off
    }
}

} // verus!

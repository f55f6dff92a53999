//! The reader of 64-bit ELF executables: the header is checked, and the
//! segments that are to be loaded are listed.
use vstd::prelude::*;

verus! {

/// The number of bytes of the header of a file.
pub const ELF_HEADER_BYTES: usize = 64;

/// The number of bytes of the header of a segment.
pub const PROGRAM_HEADER_BYTES: usize = 56;

/// The machine that the files are made for: AArch64.
pub const EM_AARCH64: u16 = 183;

/// The type of the segments that are loaded.
pub const PT_LOAD: u32 = 1;

/// The type of the segments that hold what a dynamic linker needs.
pub const PT_DYNAMIC: u32 = 2;

/// The type of the segments that name an interpreter.
pub const PT_INTERP: u32 = 3;

/// The bit of a segment that may be executed.
pub const PF_EXECUTABLE: u8 = 1;

/// The bit of a segment that may be written.
pub const PF_WRITABLE: u8 = 2;

/// The bit of a segment that may be read.
pub const PF_READABLE: u8 = 4;

/// Why a file cannot be read.
#[derive(Debug, Clone, Copy, PartialEq, Eq, PartialOrd, Ord, Structural)]
pub enum ElfErr {
    TooShort,
    InvalidMagic,
    Unsupported,
    Invalid,
}

/// What may be done with a segment: the lowest three bits of its flags.
#[derive(Clone, Copy, Debug, PartialEq, Eq, Structural)]
pub struct ElfPermissions(pub u8);

impl ElfPermissions {
    /// Whether the segment may be executed.
    pub fn is_executable(&self) -> (r: bool)
        ensures
            r == (self.0 & PF_EXECUTABLE != 0),
    {
        self.0 & PF_EXECUTABLE != 0
    }

    /// Whether the segment may be written.
    pub fn is_writable(&self) -> (r: bool)
        ensures
            r == (self.0 & PF_WRITABLE != 0),
    {
        self.0 & PF_WRITABLE != 0
    }

    /// Whether the segment may be read.
    pub fn is_readable(&self) -> (r: bool)
        ensures
            r == (self.0 & PF_READABLE != 0),
    {
        self.0 & PF_READABLE != 0
    }
}

/// A segment that is to be loaded.
#[derive(Clone, Copy, Debug, PartialEq, Eq, Structural)]
pub struct ProgramHeaderData {
    /// What may be done with the segment.
    pub permission: ElfPermissions,
    /// The physical address at which the segment is to lie.
    pub address: u64,
    /// The number of bytes of the segment in the file.
    pub file_len: u64,
    /// The number of bytes of the segment in memory.
    pub mem_len: u64,
    /// The place of the segment in the file.
    pub offset: u64,
    /// The alignment of the segment.
    pub align: u64,
}

/// The two bytes at `off`, read in the byte order of the file.
pub open spec fn u16_at(b: Seq<u8>, off: int, big: bool) -> u16 {
    if big {
        (b[off] as u16 * 0x100 + b[off + 1] as u16) as u16
    } else {
        (b[off + 1] as u16 * 0x100 + b[off] as u16) as u16
    }
}

/// The four bytes at `off`, read in the byte order of the file.
pub open spec fn u32_at(b: Seq<u8>, off: int, big: bool) -> u32 {
    if big {
        (u16_at(b, off, big) as u32 * 0x1_0000 + u16_at(b, off + 2, big) as u32) as u32
    } else {
        (u16_at(b, off + 2, big) as u32 * 0x1_0000 + u16_at(b, off, big) as u32) as u32
    }
}

/// The eight bytes at `off`, read in the byte order of the file.
#[verifier::opaque]
pub open spec fn u64_at(b: Seq<u8>, off: int, big: bool) -> u64 {
    if big {
        (u32_at(b, off, big) as u64 * 0x1_0000_0000 + u32_at(b, off + 4, big) as u64) as u64
    } else {
        (u32_at(b, off + 4, big) as u64 * 0x1_0000_0000 + u32_at(b, off, big) as u64) as u64
    }
}

/// Reads the two bytes at `off`.
pub fn read_u16(data: &Vec<u8>, off: usize, big: bool) -> (r: u16)
    requires
        off + 2 <= data@.len(),
    ensures
        r == u16_at(data@, off as int, big),
{
    let len = data.len();
    let first: u16 = data[off] as u16;
    let second: u16 = data[off + 1] as u16;
    if big {
        first * 0x100 + second
    } else {
        second * 0x100 + first
    }
}

/// Reads the four bytes at `off`.
pub fn read_u32(data: &Vec<u8>, off: usize, big: bool) -> (r: u32)
    requires
        off + 4 <= data@.len(),
    ensures
        r == u32_at(data@, off as int, big),
{
    let len = data.len();
    let first: u32 = read_u16(data, off, big) as u32;
    let second: u32 = read_u16(data, off + 2, big) as u32;
    if big {
        first * 0x1_0000 + second
    } else {
        second * 0x1_0000 + first
    }
}

/// Reads the eight bytes at `off`.
pub fn read_u64(data: &Vec<u8>, off: usize, big: bool) -> (r: u64)
    requires
        off + 8 <= data@.len(),
    ensures
        r == u64_at(data@, off as int, big),
{
    reveal(u64_at);
    let len = data.len();
    let first: u64 = read_u32(data, off, big) as u64;
    let second: u64 = read_u32(data, off + 4, big) as u64;
    if big {
        first * 0x1_0000_0000 + second
    } else {
        second * 0x1_0000_0000 + first
    }
}

/// Why the file `b` cannot be read, if it cannot. The file is too short for
/// a header; does not start with the magic number; is no 64-bit executable
/// of version 1 for AArch64 in one of the two byte orders; or gives its
/// headers another size than they have.
pub open spec fn header_fault(b: Seq<u8>) -> Option<ElfErr> {
    let big = b[5] == 2;
    if b.len() < ELF_HEADER_BYTES {
        Some(ElfErr::TooShort)
    } else if !(b[0] == 0x7f && b[1] == 0x45 && b[2] == 0x4c && b[3] == 0x46) {
        Some(ElfErr::InvalidMagic)
    } else if b[4] != 2 || (b[5] != 1 && b[5] != 2) || b[6] != 1 {
        Some(ElfErr::Unsupported)
    } else if u16_at(b, 16, big) != 2 || u16_at(b, 18, big) != EM_AARCH64 || u32_at(b, 20, big)
        != 1 {
        Some(ElfErr::Unsupported)
    } else if u16_at(b, 52, big) != ELF_HEADER_BYTES || u16_at(b, 54, big)
        != PROGRAM_HEADER_BYTES {
        Some(ElfErr::Invalid)
    } else {
        None
    }
}

/// The place in the file of the header of the segment `i`.
pub open spec fn header_place(b: Seq<u8>, big: bool, i: int) -> int {
    u64_at(b, 32, big) + i * PROGRAM_HEADER_BYTES
}

/// The segment that the header at `at` describes.
#[verifier::opaque]
pub open spec fn segment_at(b: Seq<u8>, big: bool, at: int) -> ProgramHeaderData {
    ProgramHeaderData {
        permission: ElfPermissions((u32_at(b, at + 4, big) as u8) & 7),
        address: u64_at(b, at + 24, big),
        file_len: u64_at(b, at + 32, big),
        mem_len: u64_at(b, at + 40, big),
        offset: u64_at(b, at + 8, big),
        align: u64_at(b, at + 48, big),
    }
}

/// Why the header at `at` cannot be taken, if it cannot. A file with a
/// segment for a dynamic linker or an interpreter is refused. A segment to
/// be loaded is refused where its place in the file and its address differ
/// modulo its alignment, where it ends behind the file, and where it is
/// longer in the file than in memory.
#[verifier::opaque]
pub open spec fn segment_fault(b: Seq<u8>, big: bool, at: int) -> Option<ElfErr> {
    let kind = u32_at(b, at, big);
    let s = segment_at(b, big, at);
    let v_address = u64_at(b, at + 16, big);
    if kind == PT_INTERP || kind == PT_DYNAMIC {
        Some(ElfErr::Invalid)
    } else if kind != PT_LOAD {
        None
    } else if s.align > 0 && v_address % s.align != s.offset % s.align {
        Some(ElfErr::Invalid)
    } else if s.offset + s.file_len > u64::MAX {
        Some(ElfErr::Invalid)
    } else if s.offset + s.file_len > b.len() {
        Some(ElfErr::TooShort)
    } else if s.file_len > s.mem_len {
        Some(ElfErr::Invalid)
    } else {
        None
    }
}

/// The segments to be loaded among the first `n` headers, in the order of
/// the headers, up to the first header that cannot be taken, and the reason
/// for which that one cannot.
pub open spec fn segments(b: Seq<u8>, big: bool, n: int) -> (Seq<ProgramHeaderData>, Option<ElfErr>)
    decreases n,
{
    if n <= 0 {
        (Seq::empty(), None)
    } else {
        let before = segments(b, big, n - 1);
        let at = header_place(b, big, n - 1);
        if before.1 is Some {
            before
        } else if segment_fault(b, big, at) is Some {
            (before.0, segment_fault(b, big, at))
        } else if u32_at(b, at, big) == PT_LOAD {
            (before.0.push(segment_at(b, big, at)), None)
        } else {
            before
        }
    }
}

/// A file whose header has been checked.
#[derive(Debug)]
pub struct Elf64 {
    data: Vec<u8>,
    big_endian: bool,
}

impl Elf64 {
    /// The bytes of the file.
    pub closed spec fn bytes(&self) -> Seq<u8> {
        self.data@
    }

    /// Whether the file is in big-endian order.
    pub closed spec fn big(&self) -> bool {
        self.big_endian
    }

    /// The invariant of a checked file.
    pub open spec fn wf(&self) -> bool {
        header_fault(self.bytes()) is None && self.big() == (self.bytes()[5] == 2)
    }

    /// The number of bytes of the header of a file.
    pub fn elf_header_size() -> (r: usize)
        ensures
            r == ELF_HEADER_BYTES,
    {
        ELF_HEADER_BYTES
    }

    /// The number of bytes from the start of the file to the end of the
    /// headers of its segments, or `None` where that is no machine word.
    pub fn elf_real_header_size(&self) -> (r: Option<usize>)
        requires
            self.wf(),
        ensures
            match r {
                Some(n) => n == header_place(
                    self.bytes(),
                    self.big(),
                    u16_at(self.bytes(), 56, self.big()) as int,
                ),
                None => header_place(
                    self.bytes(),
                    self.big(),
                    u16_at(self.bytes(), 56, self.big()) as int,
                ) > usize::MAX,
            },
    {
        let phoff: u64 = read_u64(&self.data, 32, self.big_endian);
        let phnum: u64 = read_u16(&self.data, 56, self.big_endian) as u64;
        let table: u64 = phnum * 56;
        if phoff > u64::MAX - table {
            return None;
        }
        let end: u64 = phoff + table;
        if end > usize::MAX as u64 {
            return None;
        }
        Some(end as usize)
    }

    /// Checks the header of the file `elf`.
    pub fn new(elf: Vec<u8>) -> (r: Result<Self, ElfErr>)
        ensures
            match r {
                Ok(e) => header_fault(elf@) is None && e.wf() && e.bytes() == elf@,
                Err(e) => header_fault(elf@) == Some(e),
            },
    {
        if elf.len() < ELF_HEADER_BYTES {
            return Err(ElfErr::TooShort);
        }
        if !(elf[0] == 0x7f && elf[1] == 0x45 && elf[2] == 0x4c && elf[3] == 0x46) {
            return Err(ElfErr::InvalidMagic);
        }
        if elf[4] != 2 {
            return Err(ElfErr::Unsupported);
        }
        let big = if elf[5] == 1 {
            false
        } else if elf[5] == 2 {
            true
        } else {
            return Err(ElfErr::Unsupported);
        };
        if elf[6] != 1 {
            return Err(ElfErr::Unsupported);
        }
        if read_u16(&elf, 16, big) != 2 {
            return Err(ElfErr::Unsupported);
        }
        if read_u16(&elf, 18, big) != EM_AARCH64 {
            return Err(ElfErr::Unsupported);
        }
        if read_u32(&elf, 20, big) != 1 {
            return Err(ElfErr::Unsupported);
        }
        if read_u16(&elf, 52, big) != 64 {
            return Err(ElfErr::Invalid);
        }
        if read_u16(&elf, 54, big) != 56 {
            return Err(ElfErr::Invalid);
        }
        Ok(Self { data: elf, big_endian: big })
    }

    /// The segments that are to be loaded, in the order of their headers.
    /// Fails with `TooShort` where the headers do not lie within the file,
    /// and with the reason of the first header that cannot be taken.
    pub fn iterate_program_header(&self) -> (r: Result<Vec<ProgramHeaderData>, ElfErr>)
        requires
            self.wf(),
        ensures
            match r {
                Ok(list) => headers_fit(self.bytes(), self.big()) && segments(
                    self.bytes(),
                    self.big(),
                    u16_at(self.bytes(), 56, self.big()) as int,
                ) == (list@, None::<ElfErr>),
                Err(e) => if headers_fit(self.bytes(), self.big()) {
                    segments(
                        self.bytes(),
                        self.big(),
                        u16_at(self.bytes(), 56, self.big()) as int,
                    ).1 == Some(e)
                } else {
                    e == ElfErr::TooShort
                },
            },
    {
        let big = self.big_endian;
        let len = self.data.len();
        let end = match self.elf_real_header_size() {
            Some(n) => n,
            None => {
                return Err(ElfErr::TooShort);
            },
        };
        if len < end {
            return Err(ElfErr::TooShort);
        }
        let phoff: usize = read_u64(&self.data, 32, big) as usize;
        let phnum: usize = read_u16(&self.data, 56, big) as usize;
        let mut out: Vec<ProgramHeaderData> = Vec::new();
        let mut i: usize = 0;
        while i < phnum
            invariant
                i <= phnum,
                big == self.big(),
                phoff == u64_at(self.bytes(), 32, big),
                phnum == u16_at(self.bytes(), 56, big),
                end == phoff + phnum * 56,
                end <= self.bytes().len(),
                headers_fit(self.bytes(), big),
                segments(self.bytes(), big, i as int) == (out@, None::<ElfErr>),
            decreases phnum - i,
        {
            proof {
                assert(i * 56 + 56 <= phnum * 56) by (nonlinear_arith)
                    requires
                        i < phnum,
                ;
            }
            let at: usize = phoff + i * 56;
            match check_segment(&self.data, at, big) {
                Some(e) => {
                    proof {
                        lemma_segments_stop(self.bytes(), big, i + 1, phnum as int);
                    }
                    return Err(e);
                },
                None => {},
            }
            if read_u32(&self.data, at, big) == PT_LOAD {
                out.push(read_segment(&self.data, at, big));
            }
            i += 1;
        }
        Ok(out)
    }
}

/// Reads the segment that the header at `at` describes.
pub fn read_segment(data: &Vec<u8>, at: usize, big: bool) -> (r: ProgramHeaderData)
    requires
        at + PROGRAM_HEADER_BYTES <= data@.len(),
    ensures
        r == segment_at(data@, big, at as int),
{
    reveal(segment_at);
    let len = data.len();
    let flags: u8 = #[verifier::truncate]
    (read_u32(data, at + 4, big) as u8);
    ProgramHeaderData {
        permission: ElfPermissions(flags & 7),
        address: read_u64(data, at + 24, big),
        file_len: read_u64(data, at + 32, big),
        mem_len: read_u64(data, at + 40, big),
        offset: read_u64(data, at + 8, big),
        align: read_u64(data, at + 48, big),
    }
}

/// Tests whether the header at `at` can be taken.
pub fn check_segment(data: &Vec<u8>, at: usize, big: bool) -> (r: Option<ElfErr>)
    requires
        at + PROGRAM_HEADER_BYTES <= data@.len(),
    ensures
        r == segment_fault(data@, big, at as int),
{
    reveal(segment_fault);
    let len = data.len();
    let kind = read_u32(data, at, big);
    if kind == PT_INTERP || kind == PT_DYNAMIC {
        return Some(ElfErr::Invalid);
    }
    if kind != PT_LOAD {
        return None;
    }
    let s = read_segment(data, at, big);
    let v_address = read_u64(data, at + 16, big);
    if s.align > 0 && (v_address % s.align) != (s.offset % s.align) {
        return Some(ElfErr::Invalid);
    }
    if s.file_len > u64::MAX - s.offset {
        return Some(ElfErr::Invalid);
    }
    if s.offset + s.file_len > len as u64 {
        return Some(ElfErr::TooShort);
    }
    if s.file_len > s.mem_len {
        return Some(ElfErr::Invalid);
    }
    None
}

/// The headers of the segments lie within the file.
pub open spec fn headers_fit(b: Seq<u8>, big: bool) -> bool {
    header_place(b, big, u16_at(b, 56, big) as int) <= b.len()
}

/// Once a header cannot be taken, the headers behind it change nothing.
pub proof fn lemma_segments_stop(b: Seq<u8>, big: bool, n: int, m: int)
    requires
        0 <= n <= m,
        segments(b, big, n).1 is Some,
    ensures
        segments(b, big, m) == segments(b, big, n),
    decreases m - n,
{
    if n < m {
        lemma_segments_stop(b, big, n, m - 1);
    }
}

} // verus!

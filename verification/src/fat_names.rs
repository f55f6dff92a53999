//! The names of the files of a FAT32 volume: which names fit the short
//! form of eight and three characters, how a name is held against the two
//! forms of a directory entry, and what an entry says of its file.
use vstd::prelude::*;
use crate::elf::read_u16;
use crate::elf::read_u32;
use crate::elf::u16_at;
use crate::elf::u32_at;
use crate::filesystem::DirMeta;
use crate::filesystem::FileSystemErr;
use crate::search::first_where;
use crate::search::lemma_first_where;

verus! {

/// The number of bytes of a directory entry.
pub const DIR_ENTRY_BYTES: usize = 32;

/// The file cannot be written.
pub const ATTR_READ_ONLY: u8 = 0x01;

/// The entry names the volume.
pub const ATTR_VOLUME_ID: u8 = 0x08;

/// The entry is a directory.
pub const ATTR_DIRECTORY: u8 = 0x10;

/// The entry holds a part of a long name.
pub const ATTR_LONG_NAME: u8 = 0x0F;

/// A letter or a digit.
pub open spec fn is_alphanumeric(c: u8) -> bool {
    (0x30 <= c <= 0x39) || (0x41 <= c <= 0x5A) || (0x61 <= c <= 0x7A)
}

/// A character that a short name may hold: a letter, a digit, or one of
/// `. $ % ` - _ @ ~ ' ! ( ) { } ^ # &`.
pub open spec fn is_short_char(c: u8) -> bool {
    is_alphanumeric(c) || c == 0x2E || c == 0x24 || c == 0x25 || c == 0x60 || c == 0x2D || c == 0x5F
        || c == 0x40 || c == 0x7E || c == 0x27 || c == 0x21 || c == 0x28 || c == 0x29 || c == 0x7B
        || c == 0x7D || c == 0x5E || c == 0x23 || c == 0x26
}

/// A character that only a long name may hold: one of `+ , ; = [ ]` and the space.
pub open spec fn is_long_char(c: u8) -> bool {
    c == 0x2B || c == 0x2C || c == 0x3B || c == 0x3D || c == 0x5B || c == 0x5D || c == 0x20
}

/// The test that a character is none that a short name may hold.
pub open spec fn not_short() -> spec_fn(u8) -> bool {
    |c: u8| !is_short_char(c)
}

/// The test that a character is a dot.
pub open spec fn dot() -> spec_fn(u8) -> bool {
    |c: u8| c == 0x2E
}

/// The test that a character is no ASCII character.
pub open spec fn not_ascii() -> spec_fn(u8) -> bool {
    |c: u8| c >= 0x80
}

/// Whether `name` fits the short form, and if so the lengths of its two
/// parts: up to eight characters, and behind a dot up to three more. A name
/// with a character that no name may hold is refused; a name with a
/// character that only a long name may hold, with more than one dot, or with
/// a part that is empty or too long does not fit.
pub open spec fn short_form(name: Seq<u8>) -> Result<Option<(usize, usize)>, FileSystemErr> {
    let bad = first_where(name, not_short());
    let d = first_where(name, dot());
    let rest = name.skip(d + 1);
    if first_where(name, not_ascii()) < name.len() {
        Err(FileSystemErr::InvalidInput)
    } else if bad < name.len() {
        if is_long_char(name[bad]) {
            Ok(None)
        } else {
            Err(FileSystemErr::InvalidInput)
        }
    } else if d == 0 || d > 8 {
        Ok(None)
    } else if d == name.len() {
        Ok(Some((d as usize, 0usize)))
    } else if rest.len() == 0 || rest.len() > 3 || first_where(rest, dot()) < rest.len() {
        Ok(None)
    } else {
        Ok(Some((d as usize, rest.len() as usize)))
    }
}

/// Tests whether a character may stand in a short name.
pub fn short_char(c: u8) -> (r: bool)
    ensures
        r == is_short_char(c),
{
    (0x30 <= c && c <= 0x39) || (0x41 <= c && c <= 0x5A) || (0x61 <= c && c <= 0x7A) || c == 0x2E
        || c == 0x24 || c == 0x25 || c == 0x60 || c == 0x2D || c == 0x5F || c == 0x40 || c == 0x7E
        || c == 0x27 || c == 0x21 || c == 0x28 || c == 0x29 || c == 0x7B || c == 0x7D || c == 0x5E
        || c == 0x23 || c == 0x26
}

/// The position of the first dot from `from` on, or the length of the name.
pub fn find_dot(name: &Vec<u8>, from: usize) -> (r: usize)
    requires
        from <= name@.len(),
    ensures
        from <= r <= name@.len(),
        r - from == first_where(name@.skip(from as int), dot()),
{
    let ghost part = name@.skip(from as int);
    let mut i = from;
    while i < name.len() && name[i] != 0x2E
        invariant
            from <= i <= name@.len(),
            part == name@.skip(from as int),
            forall|j: int| 0 <= j < i - from ==> !dot()(#[trigger] part[j]),
        decreases name@.len() - i,
    {
        proof {
            assert(part[i - from] == name@[i as int]);
        }
        i += 1;
    }
    proof {
        if i < name@.len() {
            assert(part[i - from] == name@[i as int]);
        }
        lemma_first_where(part, dot(), i - from);
    }
    i
}

/// Tests whether a name fits the short form.
pub fn is_encode_83(name: &Vec<u8>) -> (r: Result<Option<(usize, usize)>, FileSystemErr>)
    ensures
        r == short_form(name@),
{
    let mut i: usize = 0;
    while i < name.len()
        invariant
            i <= name@.len(),
            forall|j: int| 0 <= j < i ==> !not_ascii()(#[trigger] name@[j]),
        decreases name@.len() - i,
    {
        if name[i] >= 0x80 {
            proof {
                lemma_first_where(name@, not_ascii(), i as int);
            }
            return Err(FileSystemErr::InvalidInput);
        }
        i += 1;
    }
    proof {
        lemma_first_where(name@, not_ascii(), i as int);
    }
    let mut k: usize = 0;
    while k < name.len()
        invariant
            k <= name@.len(),
            first_where(name@, not_ascii()) == name@.len(),
            forall|j: int| 0 <= j < k ==> !not_short()(#[trigger] name@[j]),
        decreases name@.len() - k,
    {
        let c = name[k];
        if !short_char(c) {
            proof {
                lemma_first_where(name@, not_short(), k as int);
            }
            if c == 0x2B || c == 0x2C || c == 0x3B || c == 0x3D || c == 0x5B || c == 0x5D || c
                == 0x20 {
                return Ok(None);
            }
            return Err(FileSystemErr::InvalidInput);
        }
        k += 1;
    }
    proof {
        lemma_first_where(name@, not_short(), k as int);
        assert(name@.skip(0) =~= name@);
    }
    let d = find_dot(name, 0);
    if d == 0 || d > 8 {
        return Ok(None);
    }
    if d == name.len() {
        return Ok(Some((d, 0)));
    }
    let rest = name.len() - d - 1;
    if rest == 0 || rest > 3 {
        return Ok(None);
    }
    let second = find_dot(name, d + 1);
    if second < name.len() {
        return Ok(None);
    }
    Ok(Some((d, rest)))
}

/// The capital letter of a small letter, and every other character as it is.
pub open spec fn upper(c: u8) -> u8 {
    if 0x61 <= c <= 0x7A {
        (c - 0x20) as u8
    } else {
        c
    }
}

/// The capital letter of a small letter, and every other character as it is.
pub fn to_upper(c: u8) -> (r: u8)
    ensures
        r == upper(c),
{
    if 0x61 <= c && c <= 0x7A {
        c - 0x20
    } else {
        c
    }
}

/// The `width` characters of a field of a short entry that stand for
/// `part`: its characters as capital letters, and spaces behind them.
pub open spec fn padded(part: Seq<u8>, width: int) -> Seq<u8> {
    Seq::new(
        width as nat,
        |i: int|
            if i < part.len() {
                upper(part[i])
            } else {
                0x20u8
            },
    )
}

/// Tests whether the `width` bytes at `at` of `entry` stand for the `len`
/// characters of `name` from `from` on.
pub fn field_matches(
    entry: &Vec<u8>,
    at: usize,
    width: usize,
    name: &Vec<u8>,
    from: usize,
    len: usize,
) -> (r: bool)
    requires
        at + width <= entry@.len(),
        from + len <= name@.len(),
    ensures
        r == (entry@.subrange(at as int, at + width) == padded(
            name@.subrange(from as int, from + len),
            width as int,
        )),
{
    let ghost field = entry@.subrange(at as int, at + width);
    let ghost part = name@.subrange(from as int, from + len);
    let total = entry.len();
    let names = name.len();
    let mut i: usize = 0;
    while i < width
        invariant
            i <= width,
            at + width <= entry@.len(),
            from + len <= name@.len(),
            total == entry@.len(),
            names == name@.len(),
            field == entry@.subrange(at as int, at + width),
            part == name@.subrange(from as int, from + len),
            forall|j: int| 0 <= j < i ==> field[j] == padded(part, width as int)[j],
        decreases width - i,
    {
        let wanted = if i < len {
            to_upper(name[from + i])
        } else {
            0x20
        };
        proof {
            assert(field[i as int] == entry@[at + i]);
            if i < len {
                assert(part[i as int] == name@[from + i]);
            }
        }
        if entry[at + i] != wanted {
            proof {
                assert(field[i as int] != padded(part, width as int)[i as int]);
            }
            return false;
        }
        i += 1;
    }
    proof {
        assert(field =~= padded(part, width as int));
    }
    true
}

/// What the short entry of 32 bytes at `at` says of its file.
pub open spec fn meta_at(b: Seq<u8>, at: int) -> DirMeta {
    DirMeta {
        is_dir: b[at + 11] & ATTR_DIRECTORY == ATTR_DIRECTORY,
        is_readonly: b[at + 11] & ATTR_READ_ONLY == ATTR_READ_ONLY,
        first_cluster: (u16_at(b, at + 20, false) as u32 * 0x1_0000 + u16_at(b, at + 26, false)
            as u32) as u32,
        file_size: u32_at(b, at + 28, false),
    }
}

/// Reads what a short entry says of its file.
pub fn calculate_next_dir(data: &Vec<u8>, at: usize) -> (r: DirMeta)
    requires
        at + DIR_ENTRY_BYTES <= data@.len(),
    ensures
        r == meta_at(data@, at as int),
{
    let total = data.len();
    let attr = data[at + 11];
    let high: u32 = read_u16(data, at + 20, false) as u32;
    let low: u32 = read_u16(data, at + 26, false) as u32;
    DirMeta {
        is_dir: attr & ATTR_DIRECTORY == ATTR_DIRECTORY,
        is_readonly: attr & ATTR_READ_ONLY == ATTR_READ_ONLY,
        first_cluster: high * 0x1_0000 + low,
        file_size: read_u32(data, at + 28, false),
    }
}

/// Tests whether the entry at `at` is a short one: its attributes are not
/// those of a part of a long name.
pub fn is_sde(data: &Vec<u8>, at: usize) -> (r: bool)
    requires
        at + DIR_ENTRY_BYTES <= data@.len(),
    ensures
        r == (data@[at + 11] != ATTR_LONG_NAME),
{
    let total = data.len();
    data[at + 11] != ATTR_LONG_NAME
}

/// The byte with its lowest bit moved to the top and the others one place down.
pub open spec fn rotated(c: u8) -> u8 {
    ((c / 2) + (c % 2) * 0x80) as u8
}

/// The sum that a long entry holds of the eleven bytes of the short name
/// of its file: for each byte the sum so far is rotated and the byte is
/// added, without the carry.
pub open spec fn name_sum(name: Seq<u8>) -> u8
    decreases name.len(),
{
    if name.len() == 0 {
        0
    } else {
        ((rotated(name_sum(name.drop_last())) + name.last()) % 0x100) as u8
    }
}

/// The sum of the eleven bytes of the short name at `at`.
pub fn short_name_checksum(data: &Vec<u8>, at: usize) -> (r: u8)
    requires
        at + 11 <= data@.len(),
    ensures
        r == name_sum(data@.subrange(at as int, at + 11)),
{
    let ghost name = data@.subrange(at as int, at + 11);
    let total = data.len();
    let mut sum: u8 = 0;
    let mut i: usize = 0;
    proof {
        assert(name.take(0) =~= Seq::<u8>::empty());
    }
    while i < 11
        invariant
            i <= 11,
            at + 11 <= data@.len(),
            total == data@.len(),
            name == data@.subrange(at as int, at + 11),
            sum == name_sum(name.take(i as int)),
        decreases 11 - i,
    {
        let byte = data[at + i];
        proof {
            assert(name.take(i + 1).drop_last() =~= name.take(i as int));
            assert(name.take(i + 1).last() == byte);
        }
        let turned: u8 = (sum / 2) + (sum % 2) * 0x80;
        let wide: u16 = turned as u16 + byte as u16;
        sum = (wide % 0x100) as u8;
        i += 1;
    }
    proof {
        assert(name.take(11) =~= name);
    }
    sum
}

/// How far a part of a long entry agrees with a name.
pub enum Compared {
    /// The characters of the part are those of the name from the place
    /// where the comparison started up to this place, and the part ends
    /// there or the name goes on.
    Agrees(usize),
    /// The part ends, at this place of the name: the name agrees if it ends
    /// there too.
    Ends(usize),
    /// A character differs, or the name is shorter than the part.
    Differs,
    /// The part holds a character that is none of ASCII.
    Unsupported,
}

/// The comparison of the characters of `utf16`, two bytes each, from the
/// character `k` on, with `ascii` from the place `idx` on, without regard to
/// small and capital letters. The character 0 ends the part; the character
/// 0xFFFF fills it up and is passed over.
pub open spec fn compared(utf16: Seq<u8>, k: int, ascii: Seq<u8>, idx: int) -> Compared
    decreases utf16.len() - 2 * k,
{
    if k < 0 || 2 * k + 2 > utf16.len() {
        Compared::Agrees(idx as usize)
    } else {
        let u = u16_at(utf16, 2 * k, false);
        if u == 0 {
            Compared::Ends(idx as usize)
        } else if u == 0xFFFF {
            compared(utf16, k + 1, ascii, idx)
        } else if u > 0x7F {
            Compared::Unsupported
        } else if idx >= ascii.len() || upper(ascii[idx]) != upper(u as u8) {
            Compared::Differs
        } else {
            compared(utf16, k + 1, ascii, idx + 1)
        }
    }
}

/// Holds a part of a long entry against a name.
pub fn compare_utf16_and_ascii(utf16: &Vec<u8>, ascii: &Vec<u8>, from: usize) -> (r: Compared)
    requires
        from <= ascii@.len(),
    ensures
        r == compared(utf16@, 0, ascii@, from as int),
{
    let mut k: usize = 0;
    let mut idx: usize = from;
    while k < utf16.len() / 2
        invariant
            from <= idx <= ascii@.len(),
            2 * k <= utf16@.len(),
            compared(utf16@, k as int, ascii@, idx as int) == compared(
                utf16@,
                0,
                ascii@,
                from as int,
            ),
        decreases utf16@.len() - 2 * k,
    {
        let u = read_u16(utf16, 2 * k, false);
        if u == 0 {
            return Compared::Ends(idx);
        } else if u == 0xFFFF {
        } else if u > 0x7F {
            return Compared::Unsupported;
        } else {
            if idx >= ascii.len() {
                return Compared::Differs;
            }
            if to_upper(ascii[idx]) != to_upper(u as u8) {
                return Compared::Differs;
            }
            idx += 1;
        }
        k += 1;
    }
    Compared::Agrees(idx)
}

/// The test that a character is neither a space nor a dot.
pub open spec fn solid() -> spec_fn(u8) -> bool {
    |c: u8| c != 0x20 && c != 0x2E
}

/// Nothing but spaces and dots is left of `name` from `idx` on.
pub open spec fn nothing_left(name: Seq<u8>, idx: int) -> bool {
    first_where(name.skip(idx), solid()) == name.len() - idx
}

/// Tests whether nothing but spaces and dots is left of a name.
pub fn is_nothing_left(name: &Vec<u8>, idx: usize) -> (r: bool)
    requires
        idx <= name@.len(),
    ensures
        r == nothing_left(name@, idx as int),
{
    let ghost part = name@.skip(idx as int);
    let mut i = idx;
    while i < name.len()
        invariant
            idx <= i <= name@.len(),
            part == name@.skip(idx as int),
            forall|j: int| 0 <= j < i - idx ==> !solid()(#[trigger] part[j]),
        decreases name@.len() - i,
    {
        proof {
            assert(part[i - idx] == name@[i as int]);
        }
        if name[i] != 0x20 && name[i] != 0x2E {
            proof {
                lemma_first_where(part, solid(), i - idx);
            }
            return false;
        }
        i += 1;
    }
    proof {
        lemma_first_where(part, solid(), i - idx);
    }
    true
}

/// What a long entry, or one of its three parts, makes of a name.
pub enum Step {
    /// The name agrees up to this place, and goes on.
    Next(usize),
    /// The name agrees to its end.
    Whole,
    /// The name differs.
    Mismatch,
    /// The entry is damaged.
    Corrupted,
    /// The entry holds a character that is none of ASCII.
    Unsupported,
}

/// What the `len` bytes at `at`, a part of a long entry, make of `name`
/// from `idx` on. The part agrees where its characters are the next ones of
/// the name; where it ends, the name has to end with it. The name agrees to
/// its end where nothing but spaces and dots is left of it.
pub open spec fn part_step(data: Seq<u8>, at: int, len: int, name: Seq<u8>, idx: int) -> Step {
    match compared(data.subrange(at, at + len), 0, name, idx) {
        Compared::Unsupported => Step::Unsupported,
        Compared::Differs => Step::Mismatch,
        Compared::Ends(i) => if i == name.len() {
            Step::Whole
        } else {
            Step::Mismatch
        },
        Compared::Agrees(i) => if nothing_left(name, i as int) {
            Step::Whole
        } else {
            Step::Next(i)
        },
    }
}

/// Holds a part of a long entry against a name.
pub fn compare_part(data: &Vec<u8>, at: usize, len: usize, name: &Vec<u8>, idx: usize) -> (r: Step)
    requires
        at + len <= data@.len(),
        idx <= name@.len(),
    ensures
        r == part_step(data@, at as int, len as int, name@, idx as int),
        r matches Step::Next(i) ==> i <= name@.len(),
{
    let total = data.len();
    let names = name.len();
    let mut part: Vec<u8> = Vec::new();
    let mut i: usize = 0;
    while i < len
        invariant
            i <= len,
            at + len <= data@.len(),
            total == data@.len(),
            part@ == data@.subrange(at as int, at + i),
        decreases len - i,
    {
        part.push(data[at + i]);
        proof {
            assert(part@ =~= data@.subrange(at as int, at + i + 1));
        }
        i += 1;
    }
    match compare_utf16_and_ascii(&part, name, idx) {
        Compared::Unsupported => Step::Unsupported,
        Compared::Differs => Step::Mismatch,
        Compared::Ends(e) => if e == name.len() {
            Step::Whole
        } else {
            Step::Mismatch
        },
        Compared::Agrees(e) => {
            proof {
                lemma_compared_within(data@.subrange(at as int, at + len), 0, name@, idx as int);
            }
            if is_nothing_left(name, e) {
                Step::Whole
            } else {
                Step::Next(e)
            }
        },
    }
}

/// A comparison that agrees ends at a place within the name.
pub proof fn lemma_compared_within(utf16: Seq<u8>, k: int, ascii: Seq<u8>, idx: int)
    requires
        0 <= k,
        0 <= idx <= ascii.len(),
        ascii.len() <= usize::MAX,
    ensures
        compared(utf16, k, ascii, idx) matches Compared::Agrees(i) ==> idx <= i <= ascii.len(),
    decreases utf16.len() - 2 * k,
{
    if 2 * k + 2 <= utf16.len() {
        let u = u16_at(utf16, 2 * k, false);
        if u == 0 {
        } else if u == 0xFFFF {
            lemma_compared_within(utf16, k + 1, ascii, idx);
        } else if u > 0x7F {
        } else if idx >= ascii.len() || upper(ascii[idx]) != upper(u as u8) {
        } else {
            lemma_compared_within(utf16, k + 1, ascii, idx + 1);
        }
    }
}

/// Whether the long entry at `at`, the `j`-th before the short entry of its
/// file and the last of them if `last`, is what it has to be: it has the
/// number `j + 1`, is marked as the last if it is, holds the sum `sum` of
/// the short name, and names no cluster.
pub open spec fn long_entry_ok(data: Seq<u8>, at: int, j: int, last: bool, sum: u8) -> bool {
    &&& (data[at] & 0x3F) as int == (j + 1) % 0x100
    &&& (data[at] & 0x40 != 0) == last
    &&& data[at + 13] == sum
    &&& u16_at(data, at + 26, false) == 0
}

/// What the long entry at `at` makes of `name` from `idx` on: its three
/// parts, of 10, 12 and 4 bytes, are held against the name one behind the
/// other.
#[verifier::opaque]
pub open spec fn long_entry_step(
    data: Seq<u8>,
    at: int,
    j: int,
    last: bool,
    sum: u8,
    name: Seq<u8>,
    idx: int,
) -> Step {
    if !long_entry_ok(data, at, j, last, sum) {
        Step::Corrupted
    } else {
        match part_step(data, at + 1, 10, name, idx) {
            Step::Next(a) => match part_step(data, at + 14, 12, name, a as int) {
                Step::Next(b) => part_step(data, at + 28, 4, name, b as int),
                other => other,
            },
            other => other,
        }
    }
}

/// Holds a long entry against a name.
pub fn compare_long_entry(
    data: &Vec<u8>,
    at: usize,
    j: usize,
    last: bool,
    sum: u8,
    name: &Vec<u8>,
    idx: usize,
) -> (r: Step)
    requires
        at + DIR_ENTRY_BYTES <= data@.len(),
        idx <= name@.len(),
    ensures
        r == long_entry_step(data@, at as int, j as int, last, sum, name@, idx as int),
        r matches Step::Next(i) ==> i <= name@.len(),
{
    reveal(long_entry_step);
    let total = data.len();
    let ord = data[at];
    let seq = ord & 0x3F;
    let expected: u8 = ((j % 0x100 + 1) % 0x100) as u8;
    proof {
        assert((j + 1) % 0x100 == (j % 0x100 + 1) % 0x100) by (nonlinear_arith)
            requires
                j >= 0,
        ;
    }
    if seq != expected {
        return Step::Corrupted;
    }
    if (ord & 0x40 != 0) != last {
        return Step::Corrupted;
    }
    if data[at + 13] != sum || read_u16(data, at + 26, false) != 0 {
        return Step::Corrupted;
    }
    match compare_part(data, at + 1, 10, name, idx) {
        Step::Next(a) => match compare_part(data, at + 14, 12, name, a) {
            Step::Next(b) => compare_part(data, at + 28, 4, name, b),
            other => other,
        },
        other => other,
    }
}

/// Whether the `lde` long entries before the short entry at `at` spell
/// `name` from `idx` on, the entries from the `j`-th on being held against
/// the name: `Some(true)` where they do, `Some(false)` where they do not, and
/// the failure where one of them is damaged or holds a character that is
/// none of ASCII.
pub open spec fn long_name_from(
    data: Seq<u8>,
    at: int,
    lde: int,
    sum: u8,
    name: Seq<u8>,
    j: int,
    idx: int,
) -> Result<bool, FileSystemErr>
    decreases lde - j,
{
    if j >= lde {
        Ok(false)
    } else {
        match long_entry_step(
            data,
            at - (j + 1) * DIR_ENTRY_BYTES,
            j,
            j == lde - 1,
            sum,
            name,
            idx,
        ) {
            Step::Corrupted => Err(FileSystemErr::Corrupted),
            Step::Unsupported => Err(FileSystemErr::UnsupportedFileName),
            Step::Mismatch => Ok(false),
            Step::Whole => Ok(j == lde - 1),
            Step::Next(i) => long_name_from(data, at, lde, sum, name, j + 1, i as int),
        }
    }
}

/// The number of long entries that a name of `len` characters takes.
pub open spec fn long_entries(len: int) -> int {
    (len + 12) / 13
}

/// Whether the short entry at `at`, with `lde` long entries before it,
/// is the entry of the file `name`, which has the short form `short` if it
/// has one. A name of the short form is held against the two fields of the
/// short entry; every other against the long entries, which have to be as
/// many as the name takes.
pub open spec fn entry_matches(
    data: Seq<u8>,
    at: int,
    lde: int,
    name: Seq<u8>,
    short: Option<(usize, usize)>,
) -> Result<bool, FileSystemErr> {
    match short {
        Some(parts) => Ok(
            data.subrange(at, at + 8) == padded(name.subrange(0, parts.0 as int), 8)
                && data.subrange(at + 8, at + 11) == padded(
                name.subrange(name.len() - parts.1, name.len() as int),
                3,
            ),
        ),
        None => if lde == 0 || lde != long_entries(name.len() as int) {
            Ok(false)
        } else {
            long_name_from(data, at, lde, name_sum(data.subrange(at, at + 11)), name, 0, 0)
        },
    }
}

/// Holds the short entry at `at` and the long entries before it against a name.
pub fn match_entry(
    data: &Vec<u8>,
    at: usize,
    lde: usize,
    name: &Vec<u8>,
    short: Option<(usize, usize)>,
) -> (r: Result<bool, FileSystemErr>)
    requires
        at + DIR_ENTRY_BYTES <= data@.len(),
        lde * DIR_ENTRY_BYTES <= at,
        short matches Some(parts) ==> parts.0 <= name@.len() && parts.1 <= name@.len(),
    ensures
        r == entry_matches(data@, at as int, lde as int, name@, short),
{
    let total = data.len();
    let names = name.len();
    match short {
        Some(parts) => {
            Ok(
                field_matches(data, at, 8, name, 0, parts.0) && field_matches(
                    data,
                    at + 8,
                    3,
                    name,
                    names - parts.1,
                    parts.1,
                ),
            )
        },
        None => {
            if lde == 0 || names > usize::MAX - 12 || lde != (names + 12) / 13 {
                return Ok(false);
            }
            let sum = short_name_checksum(data, at);
            let mut j: usize = 0;
            let mut idx: usize = 0;
            while j < lde
                invariant
                    j <= lde,
                    idx <= name@.len(),
                    at + DIR_ENTRY_BYTES <= data@.len(),
                    lde * DIR_ENTRY_BYTES <= at,
                    total == data@.len(),
                    short is None,
                    lde != 0,
                    lde == long_entries(name@.len() as int),
                    sum == name_sum(data@.subrange(at as int, at + 11)),
                    long_name_from(data@, at as int, lde as int, sum, name@, j as int, idx as int)
                        == long_name_from(data@, at as int, lde as int, sum, name@, 0, 0),
                decreases lde - j,
            {
                proof {
                    assert((j + 1) * DIR_ENTRY_BYTES <= lde * DIR_ENTRY_BYTES) by (nonlinear_arith)
                        requires
                            j < lde,
                    ;
                }
                let place = at - (j + 1) * DIR_ENTRY_BYTES;
                match compare_long_entry(data, place, j, j == lde - 1, sum, name, idx) {
                    Step::Corrupted => {
                        return Err(FileSystemErr::Corrupted);
                    },
                    Step::Unsupported => {
                        return Err(FileSystemErr::UnsupportedFileName);
                    },
                    Step::Mismatch => {
                        return Ok(false);
                    },
                    Step::Whole => {
                        return Ok(j == lde - 1);
                    },
                    Step::Next(i) => {
                        idx = i;
                    },
                }
                j += 1;
            }
            Ok(false)
        },
    }
}

/// What the search through the entries of a cluster from `at` on comes to,
/// `lde` long entries having been passed since the last short one: the file
/// if one of the entries is its entry, `None` if none is, and the failure of
/// the first entry that cannot be read. An entry that starts with 0 ends the
/// search in the cluster; one that starts with 0xE5 is free; the entry of
/// the name of the volume is passed over.
pub open spec fn search_from(
    data: Seq<u8>,
    at: int,
    lde: int,
    name: Seq<u8>,
    short: Option<(usize, usize)>,
) -> Result<Option<DirMeta>, FileSystemErr>
    decreases data.len() - at,
{
    if at < 0 || at + DIR_ENTRY_BYTES > data.len() || data[at] == 0 {
        Ok(None)
    } else if data[at] == 0xE5 {
        search_from(data, at + DIR_ENTRY_BYTES, 0, name, short)
    } else if data[at + 11] == ATTR_LONG_NAME {
        search_from(data, at + DIR_ENTRY_BYTES, lde + 1, name, short)
    } else if data[at + 11] & ATTR_VOLUME_ID == ATTR_VOLUME_ID {
        search_from(data, at + DIR_ENTRY_BYTES, 0, name, short)
    } else {
        match entry_matches(data, at, lde, name, short) {
            Err(e) => Err(e),
            Ok(found) => if found {
                Ok(Some(meta_at(data, at)))
            } else {
                search_from(data, at + DIR_ENTRY_BYTES, 0, name, short)
            },
        }
    }
}

/// Searches the entries of one cluster of a directory for the file `name`.
pub fn search_cluster(data: &Vec<u8>, name: &Vec<u8>, short: Option<(usize, usize)>) -> (r: Result<
    Option<DirMeta>,
    FileSystemErr,
>)
    requires
        short matches Some(parts) ==> parts.0 <= name@.len() && parts.1 <= name@.len(),
    ensures
        r == search_from(data@, 0, 0, name@, short),
{
    let total = data.len();
    let mut at: usize = 0;
    let mut lde_num: usize = 0;
    while total - at >= DIR_ENTRY_BYTES
        invariant
            at <= total,
            total == data@.len(),
            lde_num * DIR_ENTRY_BYTES <= at,
            short matches Some(parts) ==> parts.0 <= name@.len() && parts.1 <= name@.len(),
            search_from(data@, at as int, lde_num as int, name@, short) == search_from(
                data@,
                0,
                0,
                name@,
                short,
            ),
        decreases total - at,
    {
        let name0 = data[at];
        if name0 == 0x00 {
            return Ok(None);
        }
        if name0 == 0xE5 {
            lde_num = 0;
        } else if !is_sde(data, at) {
            lde_num = lde_num + 1;
        } else {
            let lde = lde_num;
            lde_num = 0;
            if data[at + 11] & ATTR_VOLUME_ID != ATTR_VOLUME_ID {
                match match_entry(data, at, lde, name, short) {
                    Err(e) => {
                        return Err(e);
                    },
                    Ok(found) => {
                        if found {
                            return Ok(Some(calculate_next_dir(data, at)));
                        }
                    },
                }
            }
        }
        at = at + DIR_ENTRY_BYTES;
    }
    Ok(None)
}

} // verus!

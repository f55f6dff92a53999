use bootcore::bump_allocator::BumpAllocator;
use bootcore::dtb::CharStringIter;
use bootcore::dtb::Dtb;
use bootcore::dtb::DtbError;
use bootcore::dtb::DtbParser;
use bootcore::dtb::FdtProperty;
use bootcore::dtb::FdtReserveEntry;
use bootcore::elf::Elf64;
use bootcore::elf::ElfErr;
use bootcore::elf::ElfPermissions;
use bootcore::elf::ProgramHeaderData;
use bootcore::layout::Layout;
use bootcore::linux_image::LinuxHeader;
use bootcore::mutex::RwLock;
use bootcore::mutex::SpinLock;

fn put32(bytes: &mut Vec<u8>, at: usize, value: u32) {
    bytes[at..at + 4].copy_from_slice(&value.to_be_bytes());
}

fn put64(bytes: &mut Vec<u8>, at: usize, value: u64) {
    bytes[at..at + 8].copy_from_slice(&value.to_be_bytes());
}

// header (40 bytes), reservation block at 40 (two entries and the end),
// structure block at 88 (16 bytes), strings block at 104 (8 bytes)
fn blob() -> Vec<u8> {
    let mut b = vec![0u8; 112];
    put32(&mut b, 0, 0xd00d_feed);
    put32(&mut b, 4, 112);
    put32(&mut b, 8, 88);
    put32(&mut b, 12, 104);
    put32(&mut b, 16, 40);
    put32(&mut b, 20, 17);
    put32(&mut b, 24, 16);
    put32(&mut b, 28, 0);
    put32(&mut b, 32, 8);
    put32(&mut b, 36, 16);
    put64(&mut b, 40, 0x8000_0000);
    put64(&mut b, 48, 0x1_0000);
    put64(&mut b, 56, 0x9000_0000);
    put64(&mut b, 64, 0x2000);
    // structure block: NOP, NOP, a property head
    put32(&mut b, 88, 4);
    put32(&mut b, 92, 4);
    put32(&mut b, 96, 11);
    put32(&mut b, 100, 3);
    b[104..112].copy_from_slice(b"ab\0cde\0\0");
    b
}

#[test]
fn dtb_header_is_checked() {
    let dtb = Dtb::new(0x4000_0000, blob()).unwrap_or_else(|_| panic!("valid blob"));
    assert_eq!(dtb.address(), 0x4000_0000);
    assert_eq!(dtb.get_struct_start_address(), 0x4000_0000 + 88);
    assert_eq!(dtb.get_struct_end_address(), 0x4000_0000 + 104);
    assert_eq!(dtb.get_string_start_address(), 0x4000_0000 + 104);
    assert_eq!(dtb.get_string_end_address(), 0x4000_0000 + 112);
    assert_eq!(dtb.get_memory_reservation_start_address(), 0x4000_0000 + 40);

    assert!(matches!(Dtb::new(0, vec![0u8; 39]), Err(DtbError::Truncated)));
    assert!(matches!(Dtb::new(usize::MAX, blob()), Err(DtbError::Truncated)));
    let mut bad = blob();
    bad[3] = 0;
    assert!(matches!(Dtb::new(0, bad), Err(DtbError::InvalidMagic)));
    let mut newer = blob();
    put32(&mut newer, 24, 18);
    assert!(matches!(Dtb::new(0, newer), Err(DtbError::IncompatibleVersion)));
    let mut beyond = blob();
    put32(&mut beyond, 36, 32);
    assert!(matches!(Dtb::new(0, beyond), Err(DtbError::OutOfBounds)));
    let mut strings = blob();
    put32(&mut strings, 12, 108);
    assert!(matches!(Dtb::new(0, strings), Err(DtbError::OutOfBounds)));
    let mut map = blob();
    put32(&mut map, 16, 113);
    assert!(matches!(DtbParser::init(0, map), Err(DtbError::OutOfBounds)));
}

#[test]
fn dtb_reservation_block_is_listed() {
    let parser = DtbParser::init(0x4000_0000, blob()).unwrap_or_else(|_| panic!("valid blob"));
    assert_eq!(
        parser.find_memory_reservation_block(),
        vec![(0x8000_0000, 0x1_0000), (0x9000_0000, 0x2000)]
    );
    assert_eq!(FdtReserveEntry::get_address(parser.header().bytes(), 56), 0x9000_0000);
    assert_eq!(FdtReserveEntry::get_size(parser.header().bytes(), 56), 0x2000);

    // a block that runs to the end of the blob without an entry of zeros
    let mut open = blob();
    put32(&mut open, 16, 96);
    let parser = DtbParser::init(0, open).unwrap_or_else(|_| panic!("valid blob"));
    assert_eq!(
        parser.find_memory_reservation_block(),
        vec![(0x0000_000b_0000_0003, 0x6162_0063_6465_0000)]
    );
}

#[test]
fn dtb_tokens_and_properties() {
    let parser = DtbParser::init(0, blob()).unwrap_or_else(|_| panic!("valid blob"));
    assert_eq!(parser.get_types(88), 4);
    assert_eq!(parser.skip_nop(88), 96);
    assert_eq!(parser.skip_nop(96), 96);
    assert_eq!(parser.skip_nop(104), 104);
    let property = FdtProperty::read(parser.header().bytes(), 96);
    assert_eq!(property.get_property_len(), 11);
    assert_eq!(property.get_name_offset(), 3);
    assert_eq!(bootcore::dtb::read_be32(parser.header().bytes(), 0), 0xd00d_feed);
    assert_eq!(bootcore::dtb::read_be64(parser.header().bytes(), 40), 0x8000_0000);
}

#[test]
fn dtb_strings_of_a_property() {
    let bytes = blob();
    let mut strings = CharStringIter::new(104, 7);
    assert_eq!(strings.next(&bytes), Some(Ok((104, 2))));
    assert_eq!(strings.next(&bytes), Some(Ok((107, 3))));
    assert_eq!(strings.next(&bytes), None);
    assert_eq!(strings.next(&bytes), None);

    // the property ends within the second string
    let mut short = CharStringIter::new(104, 5);
    assert_eq!(short.next(&bytes), Some(Ok((104, 2))));
    assert_eq!(short.next(&bytes), Some(Err(DtbError::TooSmall)));

    // no byte ends the string
    let open = vec![b'a', b'b'];
    let mut never = CharStringIter::new(0, 2);
    assert_eq!(never.next(&open), Some(Err(DtbError::Truncated)));
    assert_eq!(bootcore::dtb::read_string_len(&bytes, 107), Some(3));
    assert_eq!(bootcore::dtb::read_string_len(&bytes, 111), Some(0));
    assert_eq!(bootcore::dtb::read_string_len(&open, 1), None);
}

fn le16(b: &mut Vec<u8>, at: usize, v: u16) {
    b[at..at + 2].copy_from_slice(&v.to_le_bytes());
}

fn le32(b: &mut Vec<u8>, at: usize, v: u32) {
    b[at..at + 4].copy_from_slice(&v.to_le_bytes());
}

fn le64(b: &mut Vec<u8>, at: usize, v: u64) {
    b[at..at + 8].copy_from_slice(&v.to_le_bytes());
}

// a header, three segment headers (load, note, load) at 64, and 0x100 bytes behind them
fn elf() -> Vec<u8> {
    let mut b = vec![0u8; 64 + 3 * 56 + 0x100];
    b[0..4].copy_from_slice(&[0x7f, b'E', b'L', b'F']);
    b[4] = 2;
    b[5] = 1;
    b[6] = 1;
    le16(&mut b, 16, 2);
    le16(&mut b, 18, 183);
    le32(&mut b, 20, 1);
    le64(&mut b, 24, 0x4008_0000);
    le64(&mut b, 32, 64);
    le16(&mut b, 52, 64);
    le16(&mut b, 54, 56);
    le16(&mut b, 56, 3);
    // first segment: read and execute
    le32(&mut b, 64, 1);
    le32(&mut b, 68, 0xFFFF_FF05);
    le64(&mut b, 72, 0xE8);
    le64(&mut b, 80, 0x4008_00E8);
    le64(&mut b, 88, 0x4008_00E8);
    le64(&mut b, 96, 0x80);
    le64(&mut b, 104, 0x100);
    le64(&mut b, 112, 0x100);
    // second header: a note
    le32(&mut b, 120, 4);
    // third segment: read and write, no alignment
    le32(&mut b, 176, 1);
    le32(&mut b, 180, 6);
    le64(&mut b, 184, 0x168);
    le64(&mut b, 192, 0x5000_0000);
    le64(&mut b, 200, 0x6000_0000);
    le64(&mut b, 208, 0x40);
    le64(&mut b, 216, 0x40);
    le64(&mut b, 224, 0);
    b
}

#[test]
fn elf_segments_are_listed() {
    let file = Elf64::new(elf()).unwrap();
    assert_eq!(Elf64::elf_header_size(), 64);
    assert_eq!(file.elf_real_header_size(), Some(64 + 3 * 56));
    let segments = file.iterate_program_header().unwrap();
    assert_eq!(
        segments,
        vec![
            ProgramHeaderData {
                permission: ElfPermissions(5),
                address: 0x4008_00E8,
                file_len: 0x80,
                mem_len: 0x100,
                offset: 0xE8,
                align: 0x100,
            },
            ProgramHeaderData {
                permission: ElfPermissions(6),
                address: 0x6000_0000,
                file_len: 0x40,
                mem_len: 0x40,
                offset: 0x168,
                align: 0,
            },
        ]
    );
    assert!(segments[0].permission.is_executable());
    assert!(segments[0].permission.is_readable());
    assert!(!segments[0].permission.is_writable());
    assert!(segments[1].permission.is_writable());
}

#[test]
fn elf_big_endian_is_read() {
    let mut b = vec![0u8; 64 + 56 + 0x10];
    b[0..4].copy_from_slice(&[0x7f, b'E', b'L', b'F']);
    b[4] = 2;
    b[5] = 2;
    b[6] = 1;
    b[16..18].copy_from_slice(&2u16.to_be_bytes());
    b[18..20].copy_from_slice(&183u16.to_be_bytes());
    b[20..24].copy_from_slice(&1u32.to_be_bytes());
    b[32..40].copy_from_slice(&64u64.to_be_bytes());
    b[52..54].copy_from_slice(&64u16.to_be_bytes());
    b[54..56].copy_from_slice(&56u16.to_be_bytes());
    b[56..58].copy_from_slice(&1u16.to_be_bytes());
    b[64..68].copy_from_slice(&1u32.to_be_bytes());
    b[68..72].copy_from_slice(&4u32.to_be_bytes());
    b[72..80].copy_from_slice(&120u64.to_be_bytes());
    b[88..96].copy_from_slice(&0x1122_3344_5566_7788u64.to_be_bytes());
    b[96..104].copy_from_slice(&0x10u64.to_be_bytes());
    b[104..112].copy_from_slice(&0x20u64.to_be_bytes());
    let file = Elf64::new(b).unwrap();
    assert_eq!(
        file.iterate_program_header().unwrap(),
        vec![ProgramHeaderData {
            permission: ElfPermissions(4),
            address: 0x1122_3344_5566_7788,
            file_len: 0x10,
            mem_len: 0x20,
            offset: 120,
            align: 0,
        }]
    );
}

#[test]
fn elf_header_is_checked() {
    assert_eq!(Elf64::new(vec![0u8; 63]).err(), Some(ElfErr::TooShort));
    let mut b = elf();
    b[1] = b'e';
    assert_eq!(Elf64::new(b).err(), Some(ElfErr::InvalidMagic));
    let mut b = elf();
    b[4] = 1;
    assert_eq!(Elf64::new(b).err(), Some(ElfErr::Unsupported));
    let mut b = elf();
    b[5] = 3;
    assert_eq!(Elf64::new(b).err(), Some(ElfErr::Unsupported));
    let mut b = elf();
    b[6] = 0;
    assert_eq!(Elf64::new(b).err(), Some(ElfErr::Unsupported));
    let mut b = elf();
    le16(&mut b, 16, 3);
    assert_eq!(Elf64::new(b).err(), Some(ElfErr::Unsupported));
    let mut b = elf();
    le16(&mut b, 18, 62);
    assert_eq!(Elf64::new(b).err(), Some(ElfErr::Unsupported));
    let mut b = elf();
    le32(&mut b, 20, 2);
    assert_eq!(Elf64::new(b).err(), Some(ElfErr::Unsupported));
    let mut b = elf();
    le16(&mut b, 52, 52);
    assert_eq!(Elf64::new(b).err(), Some(ElfErr::Invalid));
    let mut b = elf();
    le16(&mut b, 54, 32);
    assert_eq!(Elf64::new(b).err(), Some(ElfErr::Invalid));
}

#[test]
fn elf_segments_are_checked() {
    let check = |change: &dyn Fn(&mut Vec<u8>)| {
        let mut b = elf();
        change(&mut b);
        Elf64::new(b).unwrap().iterate_program_header().err()
    };
    // the headers of the segments end behind the file
    assert_eq!(check(&|b| le16(b, 56, 9)), Some(ElfErr::TooShort));
    assert_eq!(check(&|b| le64(b, 32, u64::MAX - 8)), Some(ElfErr::TooShort));
    // an interpreter, a dynamic segment
    assert_eq!(check(&|b| le32(b, 120, 3)), Some(ElfErr::Invalid));
    assert_eq!(check(&|b| le32(b, 120, 2)), Some(ElfErr::Invalid));
    // offset and address differ modulo the alignment
    assert_eq!(check(&|b| le64(b, 80, 0x4008_00E0)), Some(ElfErr::Invalid));
    // the end of the segment is no 64-bit number
    assert_eq!(check(&|b| le64(b, 96, u64::MAX)), Some(ElfErr::Invalid));
    // the segment ends behind the file
    assert_eq!(check(&|b| le64(b, 208, 0x1000)), Some(ElfErr::TooShort));
    // longer in the file than in memory
    assert_eq!(check(&|b| le64(b, 216, 0x3F)), Some(ElfErr::Invalid));
    assert_eq!(check(&|_| ()), None);
}

#[test]
fn bump_allocator_hands_out_from_the_bottom() {
    let mut bump = BumpAllocator::new(0x1004, 0x100);
    let a = bump.allocate(Layout::from_size_align(8, 8).unwrap());
    assert_eq!(a, Some(0x1008));
    let b = bump.allocate(Layout::from_size_align(1, 1).unwrap());
    assert_eq!(b, Some(0x1010));
    let c = bump.allocate(Layout::from_size_align(0x20, 0x40).unwrap());
    assert_eq!(c, Some(0x1040));
    // no room for 0xA5 bytes above 0x1060, but for 0xA4
    assert_eq!(bump.allocate(Layout::from_size_align(0xA5, 1).unwrap()), None);
    bump.deallocate(0x1040, Layout::from_size_align(0x20, 0x40).unwrap());
    assert_eq!(bump.allocate(Layout::from_size_align(0xA4, 1).unwrap()), Some(0x1060));
    assert_eq!(bump.allocate(Layout::from_size_align(0, 1).unwrap()), Some(0x1104));
    assert_eq!(bump.allocate(Layout::from_size_align(1, 1).unwrap()), None);
}

#[test]
fn spin_lock_has_one_holder() {
    let mut lock = SpinLock::new(5u32);
    let mut guard = lock.lock();
    assert_eq!(*guard.get(), 5);
    assert!(lock.try_lock().is_none());
    guard.set(6);
    lock.unlock(guard);
    let second = lock.try_lock().expect("the lock is free");
    assert_eq!(*second.get(), 6);
    assert!(lock.try_lock().is_none());
    lock.unlock(second);
    assert_eq!(*lock.lock().get(), 6);
}

#[test]
fn rw_lock_counts_its_readers() {
    let mut lock = RwLock::new(vec![1, 2, 3]);
    let first = lock.read();
    let second = lock.read();
    assert_eq!(lock.peek(&first).len(), 3);
    assert_eq!(lock.peek(&second)[1], 2);
    lock.release_read(first);
    lock.release_read(second);
    let mut writer = lock.write();
    let mut data = writer.get().clone();
    data.push(4);
    writer.set(data);
    lock.release_write(writer);
    let reader = lock.read();
    assert_eq!(lock.peek(&reader), &vec![1, 2, 3, 4]);
    lock.release_read(reader);
}

#[test]
fn linux_header_is_read() {
    let mut image = vec![0u8; 64];
    image[8..16].copy_from_slice(&0x8_0000u64.to_le_bytes());
    image[16..24].copy_from_slice(&0x123_4000u64.to_le_bytes());
    image[24..32].copy_from_slice(&0xAu64.to_le_bytes());
    image[56..60].copy_from_slice(b"ARM\x64");
    let header = LinuxHeader::read(&image).expect("a header");
    assert_eq!(header.text_offset.read(), 0x8_0000);
    assert_eq!(header.image_size.read(), 0x123_4000);
    assert_eq!(header.flags.read(), 0xA);
    assert_eq!(header.load_size(), Some(0x12B_4000));
    image[59] = 0;
    assert!(LinuxHeader::read(&image).is_none());
    image[59] = 0x64;
    assert!(LinuxHeader::read(&image[..63].to_vec()).is_none());
    image[16..24].copy_from_slice(&u64::MAX.to_le_bytes());
    assert_eq!(LinuxHeader::read(&image).unwrap().load_size(), None);
}

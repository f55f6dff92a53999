use bootcore::fat_names::calculate_next_dir;
use bootcore::fat_names::compare_utf16_and_ascii;
use bootcore::fat_names::field_matches;
use bootcore::fat_names::find_dot;
use bootcore::fat_names::is_encode_83;
use bootcore::fat_names::is_sde;
use bootcore::fat_names::short_name_checksum;
use bootcore::fat_names::Compared;
use bootcore::filesystem::DirMeta;
use bootcore::filesystem::FileSystemErr;
use bootcore::filesystem::IoError;
use bootcore::typestate::read_write::ReadPure;
use bootcore::typestate::read_write::ReadWrite;
use bootcore::typestate::read_write::WriteOnly;
use bootcore::virtio::MmioDeviceRegister;
use bootcore::virtio::VirtIoCore;
use bootcore::virtio::VirtIoDeviceTypes;
use bootcore::virtio::VirtIoMmio;
use bootcore::virtio::VirtQueue;
use bootcore::virtio::VirtioErr;
use bootcore::virtio::VirtioFeatures;
use bootcore::virtio::VirtqDesc;
use bootcore::virtio::VirtqDescFlags;
use bootcore::virtio_blk::completion;
use bootcore::virtio_blk::error_from;
use bootcore::virtio_blk::flush_chain;
use bootcore::virtio_blk::transfer_chain;
use bootcore::virtio_blk::VirtIoBlk;
use bootcore::virtio_blk::VirtioBlkReq;

fn quiet() -> VirtIoMmio {
    let registers = MmioDeviceRegister {
        magic: ReadPure(0x7472_6976),
        version: ReadPure(2),
        device_id: ReadPure(2),
        vendor_id: ReadPure(0x554D_4551),
        device_features: ReadPure(0x0000_0020),
        device_features_sel: WriteOnly(0),
        driver_features: WriteOnly(0),
        driver_features_sel: WriteOnly(0),
        queue_sel: WriteOnly(0),
        queue_size_max: ReadPure(8),
        queue_size: WriteOnly(0),
        queue_ready: ReadWrite(0),
        queue_notify: WriteOnly(0),
        status: ReadWrite(0),
        queue_desc_low: WriteOnly(0),
        queue_desc_high: WriteOnly(0),
        queue_driver_low: WriteOnly(0),
        queue_driver_high: WriteOnly(0),
        queue_device_low: WriteOnly(0),
        queue_device_high: WriteOnly(0),
    };
    VirtIoMmio::new_mmio(0, registers).unwrap()
}

fn name(s: &str) -> Vec<u8> {
    s.as_bytes().to_vec()
}

#[test]
fn virtio_failures_become_io_failures() {
    assert_eq!(error_from(VirtioErr::BadMagic(1)), IoError::Protocol);
    assert_eq!(error_from(VirtioErr::UnsupportedVersion(3)), IoError::Unsupported);
    assert_eq!(error_from(VirtioErr::UnknownVirtioDevice(99)), IoError::Unsupported);
    assert_eq!(
        error_from(VirtioErr::UnsupportedDeviceFeature([0; 4])),
        IoError::Unsupported
    );
    assert_eq!(
        error_from(VirtioErr::UnsupportedDriverFeature([0; 4])),
        IoError::Unsupported
    );
    assert_eq!(error_from(VirtioErr::Invalid), IoError::InvalidParam);
    assert_eq!(error_from(VirtioErr::DeviceNeedsReset), IoError::NotReady);
    assert_eq!(error_from(VirtioErr::DeviceUninitialized), IoError::NotReady);
    assert_eq!(error_from(VirtioErr::OutOfAvailableDesc), IoError::Busy);
    assert_eq!(error_from(VirtioErr::QueueCorrupted), IoError::Corrupted);
}

#[test]
fn block_device_checks_a_transfer() {
    assert_eq!(
        VirtIoBlk::new(VirtIoCore::new_mmio(quiet()), VirtIoDeviceTypes::Console, 100).err(),
        Some(IoError::Unsupported)
    );
    let mut disk =
        VirtIoBlk::new(VirtIoCore::new_mmio(quiet()), VirtIoDeviceTypes::BlockDevice, 100)
            .unwrap_or_else(|_| panic!("a block device"));
    assert_eq!((disk.block_size(), disk.num_blocks(), disk.num_of_queue()), (512, 100, 1));
    assert_eq!(disk.max_io_bytes(), Err(IoError::NotReady));
    assert_eq!(disk.is_read_only(), Err(IoError::NotReady));
    assert_eq!(disk.check_transfer(false, 0, 512), Err(IoError::NotReady));
    disk.virtio.queues = Some(vec![VirtQueue::new(8, 0x1000, 0x2000, 0x3000)]);
    assert_eq!(disk.max_io_bytes(), Ok(None));
    assert_eq!(disk.check_transfer(false, 0, 512), Ok(()));
    assert_eq!(disk.check_transfer(true, 0, 512), Err(IoError::NotReady));
    assert_eq!(disk.driver_features(1, VirtioFeatures(0x20)), VirtioFeatures(0));
    assert_eq!(disk.is_read_only(), Err(IoError::NotReady));
    assert_eq!(disk.driver_features(0, VirtioFeatures(0x20)), VirtioFeatures(0));
    assert_eq!(disk.is_read_only(), Ok(true));
    assert_eq!(disk.check_transfer(true, 0, 512), Err(IoError::ReadOnly));
    assert_eq!(disk.driver_features(0, VirtioFeatures(0x1F)), VirtioFeatures(0));
    assert_eq!(disk.check_transfer(true, 0, 512), Ok(()));
    assert_eq!(disk.check_transfer(true, 0, 0), Err(IoError::InvalidParam));
    assert_eq!(disk.check_transfer(false, 0, 513), Err(IoError::Align));
    assert_eq!(disk.check_transfer(false, 99, 512), Ok(()));
    assert_eq!(disk.check_transfer(false, 99, 1024), Err(IoError::OutOfRange));
    assert_eq!(disk.check_transfer(false, u64::MAX, 512), Err(IoError::OutOfRange));
    disk.capacity = u64::MAX;
    assert_eq!(
        disk.check_transfer(false, 0, 0x1_0000_0000),
        Err(IoError::InvalidParam)
    );
}

#[test]
fn block_requests_are_laid_out() {
    let request = VirtioBlkReq::new(1, 0x1234);
    assert_eq!(
        (request.reg_type.read(), request.reserved.read(), request.sector.read()),
        (1, 0, 0x1234)
    );
    let read = transfer_chain(false, 0x100, 0x8000, 512, 0x200, 5, 6);
    assert_eq!(
        read.0,
        VirtqDesc {
            addr: 0x100,
            len: 16,
            flags: VirtqDescFlags(1),
            next: 5
        }
    );
    assert_eq!(
        read.1,
        VirtqDesc {
            addr: 0x8000,
            len: 512,
            flags: VirtqDescFlags(3),
            next: 6
        }
    );
    assert_eq!(
        read.2,
        VirtqDesc {
            addr: 0x200,
            len: 1,
            flags: VirtqDescFlags(2),
            next: 0
        }
    );
    assert_eq!(
        transfer_chain(true, 0x100, 0x8000, 512, 0x200, 5, 6).1.flags,
        VirtqDescFlags(1)
    );
    let flush = flush_chain(0x100, 0x200, 7);
    assert_eq!((flush.0.next, flush.0.flags, flush.1.flags), (7, VirtqDescFlags(1), VirtqDescFlags(2)));
    assert_eq!(completion(3, 3, 0), Ok(()));
    assert_eq!(completion(4, 3, 0), Err(IoError::Io));
    assert_eq!(completion(3, 3, 1), Err(IoError::Io));
    assert_eq!(completion(3, 3, 2), Err(IoError::Unsupported));
    assert_eq!(completion(3, 3, 0xFF), Err(IoError::Io));
    assert_eq!(completion(3, 3, 7), Err(IoError::Io));
}

#[test]
fn short_names_are_told_from_long_ones() {
    assert_eq!(is_encode_83(&name("image")), Ok(Some((5, 0))));
    assert_eq!(is_encode_83(&name("qemu.dtb")), Ok(Some((4, 3))));
    assert_eq!(is_encode_83(&name("KERNEL~1.I")), Ok(Some((8, 1))));
    assert_eq!(is_encode_83(&name("a.b.c")), Ok(None));
    assert_eq!(is_encode_83(&name("a.")), Ok(None));
    assert_eq!(is_encode_83(&name(".a")), Ok(None));
    assert_eq!(is_encode_83(&name("")), Ok(None));
    assert_eq!(is_encode_83(&name("longfilename")), Ok(None));
    assert_eq!(is_encode_83(&name("file.text")), Ok(None));
    assert_eq!(is_encode_83(&name("a b")), Ok(None));
    assert_eq!(is_encode_83(&name("a+b")), Ok(None));
    assert_eq!(is_encode_83(&name("a*b")), Err(FileSystemErr::InvalidInput));
    assert_eq!(is_encode_83(&name("a/b")), Err(FileSystemErr::InvalidInput));
    // a character that is no ASCII character is refused, wherever it stands
    assert_eq!(is_encode_83(&name("a b\u{e9}")), Err(FileSystemErr::InvalidInput));
    assert_eq!(find_dot(&name("ab.cd.e"), 0), 2);
    assert_eq!(find_dot(&name("ab.cd.e"), 3), 5);
    assert_eq!(find_dot(&name("ab"), 1), 2);
}

fn entry(short: &[u8; 11], attr: u8, cluster: u32, size: u32) -> Vec<u8> {
    let mut e = vec![0u8; 32];
    e[..11].copy_from_slice(short);
    e[11] = attr;
    e[20..22].copy_from_slice(&((cluster >> 16) as u16).to_le_bytes());
    e[26..28].copy_from_slice(&(cluster as u16).to_le_bytes());
    e[28..32].copy_from_slice(&size.to_le_bytes());
    e
}

#[test]
fn directory_entries_are_read() {
    let e = entry(b"QEMU    DTB", 0x21, 0x0012_3456, 0x4000);
    assert_eq!(
        calculate_next_dir(&e, 0),
        DirMeta {
            is_dir: false,
            is_readonly: true,
            first_cluster: 0x0012_3456,
            file_size: 0x4000,
        }
    );
    assert!(calculate_next_dir(&entry(b"BOOT       ", 0x10, 3, 0), 0).is_dir);
    assert!(is_sde(&e, 0));
    assert!(!is_sde(&entry(b"A l o n g n", 0x0F, 0, 0), 0));
    let file = name("qemu.dtb");
    assert!(field_matches(&e, 0, 8, &file, 0, 4));
    assert!(field_matches(&e, 8, 3, &file, 5, 3));
    assert!(!field_matches(&e, 0, 8, &file, 0, 3));
    assert!(!field_matches(&e, 8, 3, &name("qemu.dtc"), 5, 3));
    assert!(field_matches(&entry(b"IMAGE      ", 0, 0, 0), 8, 3, &name("image"), 5, 0));
    // the sum of the name, as every long entry of the file holds it
    let mut sum: u8 = 0;
    for byte in b"QEMU    DTB" {
        sum = sum.rotate_right(1).wrapping_add(*byte);
    }
    assert_eq!(short_name_checksum(&e, 0), sum);
    assert_eq!(short_name_checksum(&vec![1u8; 11], 0), {
        let mut s: u8 = 0;
        for _ in 0..11 {
            s = s.rotate_right(1).wrapping_add(1);
        }
        s
    });
}

fn utf16(text: &str, fill: usize) -> Vec<u8> {
    let mut out = Vec::new();
    for c in text.encode_utf16() {
        out.extend_from_slice(&c.to_le_bytes());
    }
    if fill > 0 {
        out.extend_from_slice(&[0, 0]);
        for _ in 1..fill {
            out.extend_from_slice(&[0xFF, 0xFF]);
        }
    }
    out
}

#[test]
fn long_names_are_compared() {
    let file = name("Kernel.IMG");
    assert!(matches!(
        compare_utf16_and_ascii(&utf16("kerne", 0), &file, 0),
        Compared::Agrees(5)
    ));
    assert!(matches!(
        compare_utf16_and_ascii(&utf16("L.img", 1), &file, 5),
        Compared::Ends(10)
    ));
    assert!(matches!(
        compare_utf16_and_ascii(&utf16("l.im", 2), &file, 5),
        Compared::Ends(9)
    ));
    assert!(matches!(
        compare_utf16_and_ascii(&utf16("kernal", 0), &file, 0),
        Compared::Differs
    ));
    // the name is shorter than the part
    assert!(matches!(
        compare_utf16_and_ascii(&utf16("l.imgs", 0), &file, 5),
        Compared::Differs
    ));
    assert!(matches!(
        compare_utf16_and_ascii(&utf16("k\u{e9}", 0), &file, 0),
        Compared::Unsupported
    ));
    // the filling is passed over
    let mut filled = vec![0xFFu8, 0xFF];
    filled.extend_from_slice(&utf16("ke", 0));
    assert!(matches!(
        compare_utf16_and_ascii(&filled, &file, 0),
        Compared::Agrees(2)
    ));
    assert!(matches!(
        compare_utf16_and_ascii(&vec![], &file, 3),
        Compared::Agrees(3)
    ));
}

fn long_entry(ord: u8, sum: u8, chars: &[u16; 13]) -> Vec<u8> {
    let mut e = vec![0u8; 32];
    e[0] = ord;
    e[11] = 0x0F;
    e[13] = sum;
    for (i, c) in chars.iter().enumerate() {
        let at = if i < 5 {
            1 + 2 * i
        } else if i < 11 {
            14 + 2 * (i - 5)
        } else {
            28 + 2 * (i - 11)
        };
        e[at..at + 2].copy_from_slice(&c.to_le_bytes());
    }
    e
}

fn long_entries(text: &str, sum: u8) -> Vec<u8> {
    let mut units: Vec<u16> = text.encode_utf16().collect();
    let count = (units.len() + 12) / 13;
    if units.len() % 13 != 0 {
        units.push(0);
    }
    while units.len() % 13 != 0 {
        units.push(0xFFFF);
    }
    let mut out = Vec::new();
    for j in (0..count).rev() {
        let mut chars = [0u16; 13];
        chars.copy_from_slice(&units[13 * j..13 * j + 13]);
        let ord = (j + 1) as u8 | if j == count - 1 { 0x40 } else { 0 };
        out.extend(long_entry(ord, sum, &chars));
    }
    out
}

fn sum_of(short: &[u8; 11]) -> u8 {
    let mut sum: u8 = 0;
    for byte in short {
        sum = sum.rotate_right(1).wrapping_add(*byte);
    }
    sum
}

fn directory() -> Vec<u8> {
    let mut d = Vec::new();
    d.extend(entry(b"BOOTVOLUME ", 0x08, 0, 0));
    d.extend(entry(b"QEMU    DTB", 0x20, 9, 0x4000));
    let mut gone = entry(b"OLD     TXT", 0x20, 5, 1);
    gone[0] = 0xE5;
    d.extend(gone);
    d.extend(long_entries("Kernel.Image", sum_of(b"KERNEL~1IMA")));
    d.extend(entry(b"KERNEL~1IMA", 0x21, 0x30, 0x80_0000));
    d.extend(long_entries("a rather long name.txt", sum_of(b"ARATHE~1TXT")));
    d.extend(entry(b"ARATHE~1TXT", 0x10, 0x44, 0));
    d.extend(vec![0u8; 64]);
    d.extend(entry(b"BEHIND  END", 0x20, 7, 7));
    d
}

fn find(data: &Vec<u8>, file: &str) -> Result<Option<DirMeta>, FileSystemErr> {
    let file = name(file);
    let short = is_encode_83(&file)?;
    bootcore::fat_names::search_cluster(data, &file, short)
}

#[test]
fn directory_is_searched() {
    let d = directory();
    assert_eq!(
        find(&d, "qemu.dtb"),
        Ok(Some(DirMeta {
            is_dir: false,
            is_readonly: false,
            first_cluster: 9,
            file_size: 0x4000
        }))
    );
    assert_eq!(
        find(&d, "kernel.image"),
        Ok(Some(DirMeta {
            is_dir: false,
            is_readonly: true,
            first_cluster: 0x30,
            file_size: 0x80_0000
        }))
    );
    assert_eq!(
        find(&d, "A Rather Long Name.TXT").map(|m| m.map(|m| (m.is_dir, m.first_cluster))),
        Ok(Some((true, 0x44)))
    );
    // a name of the short form is held against the short entries only
    assert_eq!(
        find(&d, "kernel~1.ima").map(|m| m.map(|m| m.first_cluster)),
        Ok(Some(0x30))
    );
    assert_eq!(find(&d, "old.txt"), Ok(None));
    assert_eq!(find(&d, "bootvolu.me"), Ok(None));
    assert_eq!(find(&d, "behind.end"), Ok(None));
    assert_eq!(find(&d, "kernel.images"), Ok(None));
    assert_eq!(find(&d, "a rather long name.tx"), Ok(None));
    assert_eq!(find(&d, "a rather long game.txt"), Ok(None));
    assert_eq!(find(&d, "b rather long name.txt"), Ok(None));
    assert_eq!(find(&d, "bad*name"), Err(FileSystemErr::InvalidInput));
    assert_eq!(find(&vec![], "qemu.dtb"), Ok(None));
}

#[test]
fn damaged_long_entries_are_reported() {
    let file = "Kernel.Image";
    let short = entry(b"KERNEL~1IMA", 0x20, 0x30, 1);
    let good = sum_of(b"KERNEL~1IMA");
    let build = |change: &dyn Fn(&mut Vec<u8>)| {
        let mut d = long_entries(file, good);
        change(&mut d);
        d.extend(short.clone());
        find(&d, file).map(|m| m.is_some())
    };
    assert_eq!(build(&|_| ()), Ok(true));
    // the sum of the short name
    assert_eq!(build(&|d| d[13] ^= 1), Err(FileSystemErr::Corrupted));
    // the number of the entry, and the mark of the last one
    assert_eq!(build(&|d| d[0] = 0x42), Err(FileSystemErr::Corrupted));
    assert_eq!(build(&|d| d[0] = 0x01), Err(FileSystemErr::Corrupted));
    // a cluster
    assert_eq!(build(&|d| d[26] = 1), Err(FileSystemErr::Corrupted));
    // a character that is none of ASCII
    assert_eq!(build(&|d| d[2] = 0x30), Err(FileSystemErr::UnsupportedFileName));
    // another name
    assert_eq!(build(&|d| d[1] = b'C'), Ok(false));
    // two entries of which the first is marked as the last
    let long = "a rather long name.txt";
    let mut d = long_entries(long, sum_of(b"ARATHE~1TXT"));
    d[32] |= 0x40;
    d.extend(entry(b"ARATHE~1TXT", 0x10, 0x44, 0));
    assert_eq!(find(&d, long), Err(FileSystemErr::Corrupted));
}

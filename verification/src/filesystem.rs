//! The rules of the file system on a block device: the table of partitions
//! of the first sector, the boot sector of a FAT32 volume, and the walk
//! along the chain of clusters of a file. Reading the sectors is left to the
//! device.
use vstd::prelude::*;
use crate::elf::read_u16;
use crate::elf::read_u32;
use crate::elf::u16_at;
use crate::elf::u32_at;

verus! {

/// What can go wrong with a block device.
#[derive(Debug, Clone, Copy, PartialEq, Eq, Structural)]
pub enum IoError {
    InvalidParam,
    OutOfRange,
    Align,
    Busy,
    Timeout,
    Device,
    ReadOnly,
    Unsupported,
    NoMemory,
    Io,
    Protocol,
    NotReady,
    Corrupted,
}

/// What can go wrong with a file system.
#[derive(Debug, Clone, Copy, PartialEq, Eq, Structural)]
pub enum FileSystemErr {
    BlockDeviceErr(IoError),
    UnknownPartition,
    UnusedPartition,
    UnsupportedFileSystem,
    NotFound,
    AlreadyExists,
    IsDir,
    NotDir,
    ReadOnly,
    NoSpace,
    InvalidInput,
    Busy,
    Corrupted,
    Closed,
    NotRootDir,
    UnsupportedFileName,
    TooBigBuffer,
    IncompleteRead,
}

/// What can go wrong with a storage device.
#[derive(Debug, Clone, Copy, PartialEq, Eq, Structural)]
pub enum StorageDeviceErr {
    IoErr(IoError),
    FileSystemErr(FileSystemErr),
    StillUsed,
}

/// The failure of a file system that stands for a failure of its device.
pub fn from_io_err(err: IoError) -> (r: FileSystemErr)
    ensures
        r == FileSystemErr::BlockDeviceErr(err),
{
    FileSystemErr::BlockDeviceErr(err)
}

/// The failure of a storage device that stands for a failure of its block device.
pub fn error_from_ioerror(err: IoError) -> (r: StorageDeviceErr)
    ensures
        r == StorageDeviceErr::IoErr(err),
{
    StorageDeviceErr::IoErr(err)
}

/// The failure of a storage device that stands for a failure of its file system.
pub fn error_from_file_system_err(err: FileSystemErr) -> (r: StorageDeviceErr)
    ensures
        r == StorageDeviceErr::FileSystemErr(err),
{
    StorageDeviceErr::FileSystemErr(err)
}

/// How a file is opened.
#[derive(PartialEq, Eq, Clone, Copy, Debug, Structural)]
pub enum OpenOptions {
    Read,
    Write,
}

/// What a directory says of a file.
#[derive(PartialEq, Eq, Clone, Copy, Debug, Structural)]
pub struct DirMeta {
    pub is_dir: bool,
    pub is_readonly: bool,
    pub first_cluster: u32,
    pub file_size: u32,
}

/// An open file.
#[derive(PartialEq, Eq, Clone, Copy, Debug, Structural)]
pub struct FileHandle {
    pub meta: DirMeta,
    pub opts: OpenOptions,
}

impl FileHandle {
    /// The number of bytes of the file.
    pub fn size(&self) -> (r: Result<u64, FileSystemErr>)
        ensures
            r == Ok::<u64, FileSystemErr>(self.meta.file_size as u64),
    {
        Ok(self.meta.file_size as u64)
    }
}

/// The number of bytes of a sector that holds a table of partitions or the
/// head of a volume.
pub const SECTOR_BYTES: usize = 512;

/// The number that the last two bytes of such a sector spell.
pub const BOOT_SIGNATURE: u16 = 0xAA55;

/// The kind of a partition that is not used.
pub const TYPE_UNUSED: u8 = 0x00;

/// The kind of a FAT32 partition.
pub const TYPE_FAT32: u8 = 0x0C;

/// The kind of the partition that stands for a table of the newer format.
pub const TYPE_GPT: u8 = 0xEE;

/// An entry of the table of partitions.
#[derive(PartialEq, Eq, Clone, Copy, Debug, Structural)]
pub struct MBRPartition {
    pub kind: u8,
    pub first_sector: u32,
    pub total_sector: u32,
}

/// The four entries of the table of partitions.
#[derive(PartialEq, Eq, Clone, Copy, Debug, Structural)]
pub struct MBRConfig {
    pub first: MBRPartition,
    pub second: MBRPartition,
    pub third: MBRPartition,
    pub fourth: MBRPartition,
}

/// What the first sector of a device is.
#[derive(PartialEq, Eq, Clone, Copy, Debug, Structural)]
pub enum BootSector {
    MBR(MBRConfig),
    GPT,
    Unknown,
}

/// The entry `i` of the table of partitions of the sector `b`.
pub open spec fn partition_at(b: Seq<u8>, i: int) -> MBRPartition {
    MBRPartition {
        kind: b[446 + 16 * i + 4],
        first_sector: u32_at(b, 446 + 16 * i + 8, false),
        total_sector: u32_at(b, 446 + 16 * i + 12, false),
    }
}

/// What the first sector `b` of a device is: a table of partitions where it
/// ends with the signature, of the newer format where the first partition
/// says so, and nothing that is known otherwise.
pub open spec fn boot_sector_of(b: Seq<u8>) -> BootSector {
    if u16_at(b, 510, false) != BOOT_SIGNATURE {
        BootSector::Unknown
    } else if partition_at(b, 0).kind == TYPE_GPT {
        BootSector::GPT
    } else {
        BootSector::MBR(
            MBRConfig {
                first: partition_at(b, 0),
                second: partition_at(b, 1),
                third: partition_at(b, 2),
                fourth: partition_at(b, 3),
            },
        )
    }
}

/// The first sector and the number of sectors of the partition
/// `partition_idx` of a device of `num_blocks` sectors. A device without a
/// table is one partition, the first. Fails for a partition that the table
/// has not or does not use, and for a table of the newer format.
pub open spec fn partition_range(kind: BootSector, partition_idx: u8, num_blocks: u64) -> Result<
    (u64, u64),
    FileSystemErr,
> {
    match kind {
        BootSector::MBR(x) => {
            let p = if partition_idx == 0 {
                x.first
            } else if partition_idx == 1 {
                x.second
            } else if partition_idx == 2 {
                x.third
            } else {
                x.fourth
            };
            if partition_idx >= 4 {
                Err(FileSystemErr::UnknownPartition)
            } else if p.kind == TYPE_UNUSED {
                Err(FileSystemErr::UnusedPartition)
            } else {
                Ok((p.first_sector as u64, p.total_sector as u64))
            }
        },
        BootSector::GPT => Err(FileSystemErr::UnsupportedFileSystem),
        BootSector::Unknown => if partition_idx == 0 {
            Ok((0u64, num_blocks))
        } else {
            Err(FileSystemErr::UnknownPartition)
        },
    }
}

/// Reads the entry `i` of the table of partitions.
pub fn read_partition(sector: &Vec<u8>, i: usize) -> (r: MBRPartition)
    requires
        sector@.len() >= SECTOR_BYTES,
        i < 4,
    ensures
        r == partition_at(sector@, i as int),
{
    let at = 446 + 16 * i;
    MBRPartition {
        kind: sector[at + 4],
        first_sector: read_u32(sector, at + 8, false),
        total_sector: read_u32(sector, at + 12, false),
    }
}

/// The partitions of a device.
#[derive(PartialEq, Eq, Clone, Copy, Debug, Structural)]
pub struct PartitionIndex {
    pub sector_kind: BootSector,
}

impl PartitionIndex {
    /// The partitions that the first sector of a device declares.
    pub fn new(sector: &Vec<u8>) -> (r: Self)
        requires
            sector@.len() >= SECTOR_BYTES,
        ensures
            r.sector_kind == boot_sector_of(sector@),
    {
        if read_u16(sector, 510, false) != BOOT_SIGNATURE {
            return Self { sector_kind: BootSector::Unknown };
        }
        let first = read_partition(sector, 0);
        if first.kind == TYPE_GPT {
            return Self { sector_kind: BootSector::GPT };
        }
        Self {
            sector_kind: BootSector::MBR(
                MBRConfig {
                    first,
                    second: read_partition(sector, 1),
                    third: read_partition(sector, 2),
                    fourth: read_partition(sector, 3),
                },
            ),
        }
    }

    /// The first sector and the number of sectors of a partition.
    pub fn get_partition_start_total_sector(&self, partition_idx: u8, num_blocks: u64) -> (r:
        Result<(u64, u64), FileSystemErr>)
        ensures
            r == partition_range(self.sector_kind, partition_idx, num_blocks),
    {
        match self.sector_kind {
            BootSector::MBR(x) => {
                if partition_idx >= 4 {
                    return Err(FileSystemErr::UnknownPartition);
                }
                let p = if partition_idx == 0 {
                    x.first
                } else if partition_idx == 1 {
                    x.second
                } else if partition_idx == 2 {
                    x.third
                } else {
                    x.fourth
                };
                if p.kind == TYPE_UNUSED {
                    return Err(FileSystemErr::UnusedPartition);
                }
                Ok((p.first_sector as u64, p.total_sector as u64))
            },
            BootSector::GPT => Err(FileSystemErr::UnsupportedFileSystem),
            BootSector::Unknown => {
                if partition_idx == 0 {
                    Ok((0, num_blocks))
                } else {
                    Err(FileSystemErr::UnknownPartition)
                }
            },
        }
    }
}

/// What the boot sector says of a FAT32 volume.
#[derive(PartialEq, Eq, Clone, Copy, Debug, Structural)]
pub struct FAT32FileSystem {
    pub bytes_per_sector: u16,
    pub sectors_per_cluster: u8,
    pub reserved_sectors: u16,
    pub num_fats: u8,
    pub sectors_per_fat: u32,
    pub root_dir_cluster: u32,
    pub hidden_sector: u32,
    pub total_sectors: u32,
    pub count_of_clusters: u32,
    pub first_data_sectors: u64,
}

/// The number of sectors of the root directory of the older formats.
pub open spec fn root_dir_sectors(b: Seq<u8>) -> int {
    (u16_at(b, 17, false) * 32 + (u16_at(b, 11, false) - 1)) / (u16_at(b, 11, false) as int)
}

/// The number of sectors that hold the data of the volume.
pub open spec fn data_sectors(b: Seq<u8>) -> int {
    u32_at(b, 32, false) - (u16_at(b, 14, false) + b[16] * u32_at(b, 36, false) + root_dir_sectors(
        b,
    ))
}

/// The number of clusters of the volume.
pub open spec fn cluster_count(b: Seq<u8>) -> int {
    data_sectors(b) / (b[13] as int)
}

/// The number is a size of a sector that the format allows.
pub open spec fn sector_size_ok(n: u16) -> bool {
    n == 512 || n == 1024 || n == 2048 || n == 4096
}

/// The number is a number of sectors of a cluster that the format allows.
pub open spec fn cluster_size_ok(n: u8) -> bool {
    n == 1 || n == 2 || n == 4 || n == 8 || n == 16 || n == 32 || n == 64 || n == 128
}

/// Why the sector `b`, the first of a partition that starts at
/// `first_sector` of a device with blocks of `block_size` bytes, is not the
/// head of a FAT32 volume, if it is none. A sector without the signature, or
/// with the marks or the size of one of the older formats, is of a file
/// system that is not supported; sizes that the format does not allow, that
/// differ from the blocks of the device or that do not fit each other, and a
/// place that is not the start of the partition, make the volume corrupted.
pub open spec fn volume_fault(b: Seq<u8>, block_size: int, first_sector: u64) -> Option<
    FileSystemErr,
> {
    let bps = u16_at(b, 11, false);
    if u16_at(b, 510, false) != BOOT_SIGNATURE || u16_at(b, 22, false) != 0 || u16_at(b, 19, false)
        != 0 {
        Some(FileSystemErr::UnsupportedFileSystem)
    } else if bps == 0 || b[13] == 0 || data_sectors(b) < 0 || b[16] * u32_at(b, 36, false)
        > u32::MAX {
        Some(FileSystemErr::Corrupted)
    } else if cluster_count(b) < 65525 {
        Some(FileSystemErr::UnsupportedFileSystem)
    } else if !sector_size_ok(bps) || !cluster_size_ok(b[13]) || bps != block_size
        || u32_at(b, 28, false) != first_sector || b[16] == 0 || u16_at(b, 14, false) == 0 {
        Some(FileSystemErr::Corrupted)
    } else {
        None
    }
}

/// What the boot sector `b` says of its volume.
pub open spec fn volume_of(b: Seq<u8>) -> FAT32FileSystem {
    FAT32FileSystem {
        bytes_per_sector: u16_at(b, 11, false),
        sectors_per_cluster: b[13],
        reserved_sectors: u16_at(b, 14, false),
        num_fats: b[16],
        sectors_per_fat: u32_at(b, 36, false),
        root_dir_cluster: u32_at(b, 44, false),
        hidden_sector: u32_at(b, 28, false),
        total_sectors: u32_at(b, 32, false),
        count_of_clusters: cluster_count(b) as u32,
        first_data_sectors: (u16_at(b, 14, false) + b[16] * u32_at(b, 36, false)) as u64,
    }
}

impl FAT32FileSystem {
    /// Reads the boot sector of a partition.
    pub fn new(sector: &Vec<u8>, block_size: usize, first_sector: u64) -> (r: Result<
        Self,
        FileSystemErr,
    >)
        requires
            sector@.len() >= SECTOR_BYTES,
        ensures
            match r {
                Ok(v) => volume_fault(sector@, block_size as int, first_sector) is None && v
                    == volume_of(sector@),
                Err(e) => volume_fault(sector@, block_size as int, first_sector) == Some(e),
            },
    {
        if read_u16(sector, 510, false) != BOOT_SIGNATURE {
            return Err(FileSystemErr::UnsupportedFileSystem);
        }
        if read_u16(sector, 22, false) != 0 || read_u16(sector, 19, false) != 0 {
            return Err(FileSystemErr::UnsupportedFileSystem);
        }
        let bytes_per_sector = read_u16(sector, 11, false);
        let sectors_per_cluster = sector[13];
        let reserved_sectors = read_u16(sector, 14, false);
        let num_fats = sector[16];
        let sectors_per_fat = read_u32(sector, 36, false);
        let hidden_sector = read_u32(sector, 28, false);
        let total_sectors = read_u32(sector, 32, false);
        let root_entries = read_u16(sector, 17, false);
        if bytes_per_sector == 0 || sectors_per_cluster == 0 {
            return Err(FileSystemErr::Corrupted);
        }
        let root_dir: u64 = (root_entries as u64 * 32 + (bytes_per_sector as u64 - 1))
            / bytes_per_sector as u64;
        proof {
            assert(num_fats as int * sectors_per_fat as int <= 255 * 0xFFFF_FFFF) by (nonlinear_arith)
                requires
                    0 <= num_fats <= 255,
                    0 <= sectors_per_fat <= 0xFFFF_FFFF,
            ;
        }
        let fats: u64 = num_fats as u64 * sectors_per_fat as u64;
        let before_data: u64 = reserved_sectors as u64 + fats + root_dir;
        if before_data > total_sectors as u64 || fats > u32::MAX as u64 {
            return Err(FileSystemErr::Corrupted);
        }
        let data_sec: u64 = total_sectors as u64 - before_data;
        let count_of_clusters: u64 = data_sec / sectors_per_cluster as u64;
        if count_of_clusters < 65525 {
            return Err(FileSystemErr::UnsupportedFileSystem);
        }
        if !(bytes_per_sector == 512 || bytes_per_sector == 1024 || bytes_per_sector == 2048
            || bytes_per_sector == 4096) {
            return Err(FileSystemErr::Corrupted);
        }
        if !(sectors_per_cluster == 1 || sectors_per_cluster == 2 || sectors_per_cluster == 4
            || sectors_per_cluster == 8 || sectors_per_cluster == 16 || sectors_per_cluster == 32
            || sectors_per_cluster == 64 || sectors_per_cluster == 128) {
            return Err(FileSystemErr::Corrupted);
        }
        if bytes_per_sector as usize != block_size {
            return Err(FileSystemErr::Corrupted);
        }
        if hidden_sector as u64 != first_sector || num_fats == 0 || reserved_sectors == 0 {
            return Err(FileSystemErr::Corrupted);
        }
        Ok(
            Self {
                bytes_per_sector,
                sectors_per_cluster,
                reserved_sectors,
                num_fats,
                sectors_per_fat,
                root_dir_cluster: read_u32(sector, 44, false),
                hidden_sector,
                total_sectors,
                count_of_clusters: count_of_clusters as u32,
                first_data_sectors: reserved_sectors as u64 + fats,
            },
        )
    }

    /// The first sector of the data of `cluster`.
    pub open spec fn cluster_sector(&self, cluster: u32) -> int {
        self.hidden_sector + self.reserved_sectors + self.num_fats * self.sectors_per_fat + (cluster
            - 2) * self.sectors_per_cluster
    }

    /// The sectors of the table that are read for the entry of `cluster`:
    /// the first of them, counted from the start of the table, and their
    /// number. Up to sixteen sectors are read, the sector of the entry in the
    /// middle of them where the table has room for that.
    pub open spec fn window(&self, cluster: u32) -> (int, int) {
        let entry_sector = (cluster * 4) / (self.bytes_per_sector as int);
        let count = if self.sectors_per_fat < 16 {
            self.sectors_per_fat as int
        } else {
            16
        };
        let start = if entry_sector < 8 {
            0
        } else {
            entry_sector - 8
        };
        if start + count > self.sectors_per_fat {
            (self.sectors_per_fat - count, count)
        } else {
            (start, count)
        }
    }

    /// The sector of the device at which the sectors of the table for the
    /// entry of `cluster` start, and their number.
    pub fn fat_window(&self, cluster: u32) -> (r: (u64, u64))
        requires
            self.bytes_per_sector > 0,
        ensures
            r.0 == self.hidden_sector + self.reserved_sectors + self.window(cluster).0,
            r.1 == self.window(cluster).1,
    {
        let spf = self.sectors_per_fat as u64;
        let bps = self.bytes_per_sector as u64;
        let entry_byte = cluster as u64 * 4;
        let entry_sector = entry_byte / bps;
        let mut fat_relative: u64 = if entry_sector < 8 {
            0
        } else {
            entry_sector - 8
        };
        let read_sectors: u64 = if spf < 16 {
            spf
        } else {
            16
        };
        if fat_relative + read_sectors > spf {
            fat_relative = spf - read_sectors;
        }
        (self.hidden_sector as u64 + self.reserved_sectors as u64 + fat_relative, read_sectors)
    }
}

/// The bits of an entry of the table that count.
pub const FAT_MASK: u32 = 0x0FFF_FFFF;

/// What the entry of a cluster says of the chain.
pub enum Link {
    /// The chain goes on with this cluster.
    Next(u32),
    /// The cluster is the last of the chain.
    Last,
    /// The entry is none that a chain can hold.
    Broken,
}

/// What the entry `entry` says, in a volume of `count_of_clusters`
/// clusters: the entries 0 and 1, those that mark a cluster as free,
/// reserved or bad, and those that name a cluster behind the last one break
/// the chain; the entries from 0x0FFFFFF8 on end it.
pub open spec fn link_of(entry: u32, count_of_clusters: u32) -> Link {
    let x = entry & FAT_MASK;
    if x == 0 || x == 1 || (0x0FFF_FFF0 <= x <= 0x0FFF_FFF7) {
        Link::Broken
    } else if x >= 0x0FFF_FFF8 {
        Link::Last
    } else if x > count_of_clusters + 1 {
        Link::Broken
    } else {
        Link::Next(x)
    }
}

/// The walk along the chain of clusters of a file.
#[derive(PartialEq, Eq, Clone, Copy, Debug, Structural)]
pub struct FAT32FATIter {
    pub next_cluster: Option<u32>,
}

impl FAT32FATIter {
    /// The walk along the chain that starts at `first_cluster`; a file
    /// without bytes starts at the cluster 0 and has no chain.
    pub fn new(first_cluster: u32) -> (r: Self)
        ensures
            r.next_cluster == (if first_cluster == 0 {
                None
            } else {
                Some(first_cluster)
            }),
    {
        Self {
            next_cluster: if first_cluster == 0 {
                None
            } else {
                Some(first_cluster)
            },
        }
    }

    /// One step along the chain, `entry` being the entry of the table for
    /// the cluster at which the walk stands: the first sector of that
    /// cluster, and the walk moves to the cluster that the entry names.
    /// `None` at the end of the chain. Fails, and stays, where the entry
    /// breaks the chain or the cluster is none of the data.
    pub fn advance(&mut self, file_system: &FAT32FileSystem, entry: u32) -> (r: Option<
        Result<u64, FileSystemErr>,
    >)
        ensures
            match old(self).next_cluster {
                None => r is None && *final(self) == *old(self),
                Some(cluster) => match link_of(entry, file_system.count_of_clusters) {
                    Link::Broken => r == Some(
                        Err::<u64, FileSystemErr>(FileSystemErr::Corrupted),
                    ) && *final(self) == *old(self),
                    other => if cluster < 2 || file_system.cluster_sector(cluster) > u64::MAX {
                        r == Some(Err::<u64, FileSystemErr>(FileSystemErr::Corrupted)) && *final(self)
                            == *old(self)
                    } else {
                        r == Some(
                            Ok::<u64, FileSystemErr>(file_system.cluster_sector(cluster) as u64),
                        ) && final(self).next_cluster == (match other {
                            Link::Next(x) => Some(x),
                            _ => None,
                        })
                    },
                },
            },
    {
        let cluster = match self.next_cluster {
            Some(c) => c,
            None => {
                return None;
            },
        };
        let x = entry & FAT_MASK;
        if x == 0 || x == 1 || (0x0FFF_FFF0 <= x && x <= 0x0FFF_FFF7) {
            return Some(Err(FileSystemErr::Corrupted));
        }
        let next = if x >= 0x0FFF_FFF8 {
            None
        } else if x as u64 > file_system.count_of_clusters as u64 + 1 {
            return Some(Err(FileSystemErr::Corrupted));
        } else {
            Some(x)
        };
        if cluster < 2 {
            return Some(Err(FileSystemErr::Corrupted));
        }
        proof {
            assert(file_system.num_fats as int * file_system.sectors_per_fat as int <= 255
                * 0xFFFF_FFFF) by (nonlinear_arith)
                requires
                    0 <= file_system.num_fats <= 255,
                    0 <= file_system.sectors_per_fat <= 0xFFFF_FFFF,
            ;
            assert((cluster as int - 2) * file_system.sectors_per_cluster as int <= 0xFFFF_FFFF
                * 255) by (nonlinear_arith)
                requires
                    2 <= cluster <= 0xFFFF_FFFF,
                    0 <= file_system.sectors_per_cluster <= 255,
            ;
            assert((cluster as int - 2) * file_system.sectors_per_cluster as int >= 0)
                by (nonlinear_arith)
                requires
                    2 <= cluster,
                    0 <= file_system.sectors_per_cluster,
            ;
        }
        let fats: u64 = file_system.num_fats as u64 * file_system.sectors_per_fat as u64;
        let data: u64 = (cluster as u64 - 2) * file_system.sectors_per_cluster as u64;
        let base: u64 = file_system.hidden_sector as u64 + file_system.reserved_sectors as u64
            + fats;
        if data > u64::MAX - base {
            return Some(Err(FileSystemErr::Corrupted));
        }
        self.next_cluster = next;
        Some(Ok(base + data))
    }
}

/// Why the file that a directory describes by `meta` cannot be opened
/// with `opts`, if it cannot: it is a directory, or it is to be written and
/// it, or its device, cannot be.
pub open spec fn open_fault(meta: DirMeta, opts: OpenOptions, device_read_only: bool) -> Option<
    FileSystemErr,
> {
    if meta.is_dir {
        Some(FileSystemErr::IsDir)
    } else if opts == OpenOptions::Write && (meta.is_readonly || device_read_only) {
        Some(FileSystemErr::ReadOnly)
    } else {
        None
    }
}

impl FileHandle {
    /// Opens the file that a directory describes by `meta`.
    pub fn open(meta: DirMeta, opts: OpenOptions, device_read_only: bool) -> (r: Result<
        FileHandle,
        FileSystemErr,
    >)
        ensures
            match r {
                Ok(h) => open_fault(meta, opts, device_read_only) is None && h == (FileHandle {
                    meta,
                    opts,
                }),
                Err(e) => open_fault(meta, opts, device_read_only) == Some(e),
            },
    {
        if meta.is_dir {
            return Err(FileSystemErr::IsDir);
        }
        let writing = match opts {
            OpenOptions::Write => true,
            OpenOptions::Read => false,
        };
        if writing && (meta.is_readonly || device_read_only) {
            return Err(FileSystemErr::ReadOnly);
        }
        Ok(FileHandle { meta, opts })
    }
}

/// The place and the length of the name that starts at `at` of the path
/// `path`, which ends before the next `/` or with the path.
pub open spec fn name_end(path: Seq<u8>, at: int) -> int {
    at + crate::search::first_where(path.skip(at), slash())
}

/// The test that a character is a `/`.
pub open spec fn slash() -> spec_fn(u8) -> bool {
    |c: u8| c == 0x2F
}

/// The names of the path `path` from `at` on, each as a place and a
/// length, behind the names `acc`. A name without characters is refused.
pub open spec fn names_from(path: Seq<u8>, at: int, acc: Seq<(usize, usize)>) -> Result<
    Seq<(usize, usize)>,
    FileSystemErr,
>
    decreases path.len() - at,
{
    let end = name_end(path, at);
    let name = (at as usize, (end - at) as usize);
    if at < 0 || at > path.len() || end <= at {
        Err(FileSystemErr::InvalidInput)
    } else if end >= path.len() {
        Ok(acc.push(name))
    } else {
        names_from(path, end + 1, acc.push(name))
    }
}

/// The names of the directories and of the file that the path `path`
/// leads through. The path has to start with `/`: an empty path is refused,
/// and so is one with a name without characters; a path that starts with
/// another character does not start at the root.
pub open spec fn path_names(path: Seq<u8>) -> Result<Seq<(usize, usize)>, FileSystemErr> {
    if path.len() == 0 {
        Err(FileSystemErr::InvalidInput)
    } else if path[0] != 0x2F {
        Err(FileSystemErr::NotRootDir)
    } else {
        names_from(path, 1, Seq::empty())
    }
}

/// Splits a path into its names.
pub fn split_path(path: &Vec<u8>) -> (r: Result<Vec<(usize, usize)>, FileSystemErr>)
    ensures
        match r {
            Ok(names) => path_names(path@) == Ok::<Seq<(usize, usize)>, FileSystemErr>(names@),
            Err(e) => path_names(path@) == Err::<Seq<(usize, usize)>, FileSystemErr>(e),
        },
{
    if path.len() == 0 {
        return Err(FileSystemErr::InvalidInput);
    }
    if path[0] != 0x2F {
        return Err(FileSystemErr::NotRootDir);
    }
    let mut out: Vec<(usize, usize)> = Vec::new();
    let mut at: usize = 1;
    loop
        invariant
            1 <= at <= path@.len(),
            path@[0] == 0x2F,
            names_from(path@, at as int, out@) == names_from(path@, 1, Seq::empty()),
        decreases path@.len() - at,
    {
        let ghost part = path@.skip(at as int);
        let mut end = at;
        while end < path.len() && path[end] != 0x2F
            invariant
                at <= end <= path@.len(),
                part == path@.skip(at as int),
                forall|j: int| 0 <= j < end - at ==> !slash()(#[trigger] part[j]),
            decreases path@.len() - end,
        {
            proof {
                assert(part[end - at] == path@[end as int]);
            }
            end += 1;
        }
        proof {
            if end < path@.len() {
                assert(part[end - at] == path@[end as int]);
            }
            crate::search::lemma_first_where(part, slash(), end - at);
        }
        if end == at {
            return Err(FileSystemErr::InvalidInput);
        }
        out.push((at, end - at));
        if end >= path.len() {
            return Ok(out);
        }
        at = end + 1;
    }
}

/// Where the bytes of a read lie on the device: the cluster of the file,
/// counted from its first, and the sector of that cluster with which the
/// read starts, the place of the first byte in that sector, and the number of
/// sectors that are read.
#[derive(PartialEq, Eq, Clone, Copy, Debug, Structural)]
pub struct ReadPlan {
    pub start_cluster: usize,
    pub start_sector_off: usize,
    pub start_byte_in_sector: usize,
    pub sectors_needed: usize,
}

/// The plan of a read of `len` bytes from the byte `offset` of a file of
/// `file_size` bytes, on a volume with sectors of `bs` bytes and clusters of
/// `spc` sectors. A read that starts behind the file is refused, and so is
/// one that ends behind it.
pub open spec fn read_plan_of(offset: u64, len: int, file_size: u64, bs: int, spc: int) -> Result<
    ReadPlan,
    FileSystemErr,
> {
    let bpc = bs * spc;
    let cluster_off = offset as int % bpc;
    if offset > file_size {
        Err(FileSystemErr::InvalidInput)
    } else if len > file_size - offset {
        Err(FileSystemErr::TooBigBuffer)
    } else {
        Ok(
            ReadPlan {
                start_cluster: (offset as int / bpc) as usize,
                start_sector_off: (cluster_off / bs) as usize,
                start_byte_in_sector: (cluster_off % bs) as usize,
                sectors_needed: ((cluster_off % bs + len + bs - 1) / bs) as usize,
            },
        )
    }
}

/// The sectors of the cluster `i` of a file that a read takes, of which
/// `sectors_remaining` sectors are still to be read: the first of them,
/// counted from the start of the cluster, and their number. The clusters
/// before the first of the plan give nothing.
pub open spec fn cluster_share(plan: ReadPlan, spc: int, i: int, sectors_remaining: int) -> (
    int,
    int,
) {
    let first = if i == plan.start_cluster {
        plan.start_sector_off as int
    } else {
        0
    };
    if i < plan.start_cluster {
        (0, 0)
    } else if spc - first < sectors_remaining {
        (first, spc - first)
    } else {
        (first, sectors_remaining)
    }
}

impl FAT32FileSystem {
    /// Plans a read of `len` bytes from the byte `offset` of a file of
    /// `file_size` bytes.
    pub fn read_plan(&self, offset: u64, len: usize, file_size: u32) -> (r: Result<
        ReadPlan,
        FileSystemErr,
    >)
        requires
            self.bytes_per_sector > 0,
            self.sectors_per_cluster > 0,
        ensures
            r == read_plan_of(
                offset,
                len as int,
                file_size as u64,
                self.bytes_per_sector as int,
                self.sectors_per_cluster as int,
            ),
    {
        let file_size = file_size as u64;
        let bs: u64 = self.bytes_per_sector as u64;
        let spc: u64 = self.sectors_per_cluster as u64;
        proof {
            assert(bs as int * spc as int <= 0xFFFF * 0xFF) by (nonlinear_arith)
                requires
                    0 < bs <= 0xFFFF,
                    0 < spc <= 0xFF,
            ;
            assert(bs as int * spc as int > 0) by (nonlinear_arith)
                requires
                    0 < bs,
                    0 < spc,
            ;
        }
        let bpc: u64 = bs * spc;
        if offset > file_size {
            return Err(FileSystemErr::InvalidInput);
        }
        if len as u64 > file_size - offset {
            return Err(FileSystemErr::TooBigBuffer);
        }
        let cluster_off: u64 = offset % bpc;
        let start_byte: u64 = cluster_off % bs;
        Ok(
            ReadPlan {
                start_cluster: (offset / bpc) as usize,
                start_sector_off: (cluster_off / bs) as usize,
                start_byte_in_sector: start_byte as usize,
                sectors_needed: ((start_byte + len as u64 + bs - 1) / bs) as usize,
            },
        )
    }

    /// The sectors of the cluster `i` of a file that a read takes.
    pub fn cluster_read(&self, plan: &ReadPlan, i: usize, sectors_remaining: usize) -> (r: (
        usize,
        usize,
    ))
        requires
            plan.start_sector_off < self.sectors_per_cluster,
        ensures
            r.0 == cluster_share(*plan, self.sectors_per_cluster as int, i as int, sectors_remaining as int).0,
            r.1 == cluster_share(*plan, self.sectors_per_cluster as int, i as int, sectors_remaining as int).1,
    {
        if i < plan.start_cluster {
            return (0, 0);
        }
        let first = if i == plan.start_cluster {
            plan.start_sector_off
        } else {
            0
        };
        let can_read = self.sectors_per_cluster as usize - first;
        if can_read < sectors_remaining {
            (first, can_read)
        } else {
            (first, sectors_remaining)
        }
    }
}

} // verus!

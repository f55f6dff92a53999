//! The rules of the virtio block device: which transfers it takes, how a
//! request is laid out in descriptors, and what its answer means.
use vstd::prelude::*;
use crate::filesystem::IoError;
use crate::typestate::endianness::Le;
use crate::virtio::VirtIoCore;
use crate::virtio::VirtIoDeviceTypes;
use crate::virtio::VirtioErr;
use crate::virtio::VirtioFeatures;
use crate::virtio::VirtioTransport;
use crate::virtio::VirtqDesc;
use crate::virtio::VirtqDescFlags;
use crate::virtio::VIRTQ_DESC_F_NEXT;
use crate::virtio::VIRTQ_DESC_F_WRITE;

verus! {

/// The device cannot be written.
pub const VIRTIO_BLK_F_RO: u32 = 0x20;

/// A request to read.
pub const VIRTIO_BLK_T_IN: u32 = 0;

/// A request to write.
pub const VIRTIO_BLK_T_OUT: u32 = 1;

/// A request to write out what the device holds back.
pub const VIRTIO_BLK_T_FLUSH: u32 = 4;

/// The request was carried out.
pub const VIRTIO_BLK_S_OK: u8 = 0;

/// The device failed to carry the request out.
pub const VIRTIO_BLK_S_IOERR: u8 = 1;

/// The device does not know the request.
pub const VIRTIO_BLK_S_UNSUPP: u8 = 2;

/// The device has not answered.
pub const VIRTIO_BLK_S_RESERVED: u8 = 0xFF;

/// The number of bytes of a block.
pub const BLOCK_SIZE: usize = 512;

/// The number of bytes of the head of a request.
pub const REQUEST_BYTES: u32 = 16;

/// The failure of a block device that stands for a failure of the virtio layer.
pub open spec fn io_error_of(e: VirtioErr) -> IoError {
    match e {
        VirtioErr::BadMagic(_) => IoError::Protocol,
        VirtioErr::UnsupportedVersion(_) => IoError::Unsupported,
        VirtioErr::UnknownVirtioDevice(_) => IoError::Unsupported,
        VirtioErr::UnsupportedDeviceFeature(_) => IoError::Unsupported,
        VirtioErr::UnsupportedDriverFeature(_) => IoError::Unsupported,
        VirtioErr::Invalid => IoError::InvalidParam,
        VirtioErr::DeviceNeedsReset => IoError::NotReady,
        VirtioErr::DeviceUninitialized => IoError::NotReady,
        VirtioErr::OutOfAvailableDesc => IoError::Busy,
        VirtioErr::QueueCorrupted => IoError::Corrupted,
    }
}

/// The failure of a block device that stands for a failure of the virtio layer.
pub fn error_from(e: VirtioErr) -> (r: IoError)
    ensures
        r == io_error_of(e),
{
    match e {
        VirtioErr::BadMagic(_) => IoError::Protocol,
        VirtioErr::UnsupportedVersion(_) => IoError::Unsupported,
        VirtioErr::UnknownVirtioDevice(_) => IoError::Unsupported,
        VirtioErr::UnsupportedDeviceFeature(_) => IoError::Unsupported,
        VirtioErr::UnsupportedDriverFeature(_) => IoError::Unsupported,
        VirtioErr::Invalid => IoError::InvalidParam,
        VirtioErr::DeviceNeedsReset => IoError::NotReady,
        VirtioErr::DeviceUninitialized => IoError::NotReady,
        VirtioErr::OutOfAvailableDesc => IoError::Busy,
        VirtioErr::QueueCorrupted => IoError::Corrupted,
    }
}

/// The head of a request, as the device reads it.
pub struct VirtioBlkReq {
    pub reg_type: Le<u32>,
    pub reserved: Le<u32>,
    pub sector: Le<u64>,
}

impl VirtioBlkReq {
    /// The head of a request of the kind `kind` for the block `lba`.
    pub fn new(kind: u32, lba: u64) -> (r: Self)
        ensures
            r.reg_type.value() == kind,
            r.reserved.value() == 0,
            r.sector.value() == lba,
    {
        Self { reg_type: Le::new(kind), reserved: Le::new(0), sector: Le::new(lba) }
    }
}

/// Why a transfer of `len` bytes from the block `lba` on is refused by a
/// device of `num_blocks` blocks, if it is: the device is not set up; a
/// write goes to a device that cannot be written; nothing is transferred;
/// the length is no multiple of a block; the blocks do not lie on the
/// device; or the length is no 32-bit number.
pub open spec fn transfer_fault(
    ready: bool,
    is_write: bool,
    read_only: Option<bool>,
    lba: u64,
    len: int,
    num_blocks: u64,
) -> Option<IoError> {
    if !ready {
        Some(IoError::NotReady)
    } else if is_write && read_only is None {
        Some(IoError::NotReady)
    } else if is_write && read_only == Some(true) {
        Some(IoError::ReadOnly)
    } else if len == 0 {
        Some(IoError::InvalidParam)
    } else if len % (BLOCK_SIZE as int) != 0 {
        Some(IoError::Align)
    } else if lba + len / (BLOCK_SIZE as int) > num_blocks {
        Some(IoError::OutOfRange)
    } else if len > u32::MAX {
        Some(IoError::InvalidParam)
    } else {
        None
    }
}

/// What the answer of the device to a request means: the device has to
/// name the first descriptor of the request, and to have set the status to
/// 0. The status 2 says that the device does not know the request; every
/// other status is a failure of the transfer.
pub open spec fn completion_of(used: u16, first: u16, status: u8) -> Result<(), IoError> {
    if used != first {
        Err(IoError::Io)
    } else if status == VIRTIO_BLK_S_OK {
        Ok(())
    } else if status == VIRTIO_BLK_S_UNSUPP {
        Err(IoError::Unsupported)
    } else {
        Err(IoError::Io)
    }
}

/// Reads the answer of the device to a request.
pub fn completion(used: u16, first: u16, status: u8) -> (r: Result<(), IoError>)
    ensures
        r == completion_of(used, first, status),
{
    if used != first {
        Err(IoError::Io)
    } else if status == VIRTIO_BLK_S_OK {
        Ok(())
    } else if status == VIRTIO_BLK_S_UNSUPP {
        Err(IoError::Unsupported)
    } else {
        Err(IoError::Io)
    }
}

/// The three descriptors of a transfer: the head of the request, which the
/// device reads; the buffer, which the device writes when it reads blocks;
/// and the status, which the device writes. Each but the last names the next.
pub fn transfer_chain(
    is_write: bool,
    request_addr: u64,
    buf_ptr: u64,
    buf_len: u32,
    status_addr: u64,
    second_idx: u16,
    third_idx: u16,
) -> (r: (VirtqDesc, VirtqDesc, VirtqDesc))
    ensures
        r.0 == (VirtqDesc {
            addr: request_addr,
            len: REQUEST_BYTES,
            flags: VirtqDescFlags(VIRTQ_DESC_F_NEXT),
            next: second_idx,
        }),
        r.1 == (VirtqDesc {
            addr: buf_ptr,
            len: buf_len,
            flags: VirtqDescFlags(
                if is_write {
                    VIRTQ_DESC_F_NEXT
                } else {
                    VIRTQ_DESC_F_NEXT | VIRTQ_DESC_F_WRITE
                },
            ),
            next: third_idx,
        }),
        r.2 == (VirtqDesc {
            addr: status_addr,
            len: 1,
            flags: VirtqDescFlags(VIRTQ_DESC_F_WRITE),
            next: 0,
        }),
{
    (
        VirtqDesc {
            addr: request_addr,
            len: REQUEST_BYTES,
            flags: VirtqDescFlags(VIRTQ_DESC_F_NEXT),
            next: second_idx,
        },
        VirtqDesc {
            addr: buf_ptr,
            len: buf_len,
            flags: VirtqDescFlags(
                if is_write {
                    VIRTQ_DESC_F_NEXT
                } else {
                    VIRTQ_DESC_F_NEXT | VIRTQ_DESC_F_WRITE
                },
            ),
            next: third_idx,
        },
        VirtqDesc { addr: status_addr, len: 1, flags: VirtqDescFlags(VIRTQ_DESC_F_WRITE), next: 0 },
    )
}

/// The two descriptors of a request to write out what the device holds
/// back: the head of the request and the status.
pub fn flush_chain(request_addr: u64, status_addr: u64, second_idx: u16) -> (r: (
    VirtqDesc,
    VirtqDesc,
))
    ensures
        r.0 == (VirtqDesc {
            addr: request_addr,
            len: REQUEST_BYTES,
            flags: VirtqDescFlags(VIRTQ_DESC_F_NEXT),
            next: second_idx,
        }),
        r.1 == (VirtqDesc {
            addr: status_addr,
            len: 1,
            flags: VirtqDescFlags(VIRTQ_DESC_F_WRITE),
            next: 0,
        }),
{
    (
        VirtqDesc {
            addr: request_addr,
            len: REQUEST_BYTES,
            flags: VirtqDescFlags(VIRTQ_DESC_F_NEXT),
            next: second_idx,
        },
        VirtqDesc { addr: status_addr, len: 1, flags: VirtqDescFlags(VIRTQ_DESC_F_WRITE), next: 0 },
    )
}

/// The driver of a block device.
pub struct VirtIoBlk<T: VirtioTransport> {
    pub virtio: VirtIoCore<T>,
    pub is_readonly: Option<bool>,
    pub capacity: u64,
}

impl<T: VirtioTransport> VirtIoBlk<T> {
    /// The driver of the device behind `virtio`, which is of the kind
    /// `kind` and holds `capacity` blocks. Fails for a device of another
    /// kind than a block device.
    pub fn new(virtio: VirtIoCore<T>, kind: VirtIoDeviceTypes, capacity: u64) -> (r: Result<
        Self,
        IoError,
    >)
        ensures
            match r {
                Ok(d) => kind == VirtIoDeviceTypes::BlockDevice && d.virtio == virtio
                    && d.is_readonly is None && d.capacity == capacity,
                Err(e) => kind != VirtIoDeviceTypes::BlockDevice && e == IoError::Unsupported,
            },
    {
        match kind {
            VirtIoDeviceTypes::BlockDevice => Ok(Self { virtio, is_readonly: None, capacity }),
            _ => Err(IoError::Unsupported),
        }
    }

    /// What the driver asks for of the features of the word `select` that
    /// the device offers: nothing. From the first word the driver learns
    /// whether the device can be written.
    pub fn driver_features(&mut self, select: u32, device_feature: VirtioFeatures) -> (r:
        VirtioFeatures)
        ensures
            r == VirtioFeatures(0),
            final(self).is_readonly == (if select == 0 {
                Some(device_feature.0 & VIRTIO_BLK_F_RO != 0)
            } else {
                old(self).is_readonly
            }),
            final(self).virtio == old(self).virtio,
            final(self).capacity == old(self).capacity,
    {
        if select == 0 {
            self.is_readonly = Some(device_feature.0 & VIRTIO_BLK_F_RO != 0);
        }
        VirtioFeatures(0)
    }

    /// The number of queues of the device.
    pub fn num_of_queue(&self) -> (r: u32)
        ensures
            r == 1,
    {
        1
    }

    /// The number of bytes of a block.
    pub fn block_size(&self) -> (r: usize)
        ensures
            r == BLOCK_SIZE,
    {
        BLOCK_SIZE
    }

    /// The number of blocks of the device.
    pub fn num_blocks(&self) -> (r: u64)
        ensures
            r == self.capacity,
    {
        self.capacity
    }

    /// The greatest number of bytes of one transfer: the device names none.
    /// Fails before the device is set up.
    pub fn max_io_bytes(&self) -> (r: Result<Option<usize>, IoError>)
        ensures
            r == (if self.virtio.queues is None {
                Err::<Option<usize>, IoError>(IoError::NotReady)
            } else {
                Ok::<Option<usize>, IoError>(None)
            }),
    {
        if self.virtio.queues.is_none() {
            Err(IoError::NotReady)
        } else {
            Ok(None)
        }
    }

    /// Whether the device cannot be written. Fails before the driver has
    /// seen the features of the device.
    pub fn is_read_only(&self) -> (r: Result<bool, IoError>)
        ensures
            r == (match self.is_readonly {
                Some(b) => Ok::<bool, IoError>(b),
                None => Err::<bool, IoError>(IoError::NotReady),
            }),
    {
        match self.is_readonly {
            Some(b) => Ok(b),
            None => Err(IoError::NotReady),
        }
    }

    /// Tests whether the device takes a transfer of `len` bytes from the
    /// block `lba` on.
    pub fn check_transfer(&self, is_write: bool, lba: u64, len: usize) -> (r: Result<(), IoError>)
        ensures
            match r {
                Ok(_) => transfer_fault(
                    self.virtio.queues is Some,
                    is_write,
                    self.is_readonly,
                    lba,
                    len as int,
                    self.capacity,
                ) is None,
                Err(e) => transfer_fault(
                    self.virtio.queues is Some,
                    is_write,
                    self.is_readonly,
                    lba,
                    len as int,
                    self.capacity,
                ) == Some(e),
            },
    {
        if self.virtio.queues.is_none() {
            return Err(IoError::NotReady);
        }
        if is_write {
            match self.is_readonly {
                None => {
                    return Err(IoError::NotReady);
                },
                Some(read_only) => {
                    if read_only {
                        return Err(IoError::ReadOnly);
                    }
                },
            }
        }
        if len == 0 {
            return Err(IoError::InvalidParam);
        }
        if len % BLOCK_SIZE != 0 {
            return Err(IoError::Align);
        }
        let blocks: u64 = (len / BLOCK_SIZE) as u64;
        if blocks > u64::MAX - lba || lba + blocks > self.capacity {
            return Err(IoError::OutOfRange);
        }
        if len > u32::MAX as usize {
            return Err(IoError::InvalidParam);
        }
        Ok(())
    }
}

} // verus!

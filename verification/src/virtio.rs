//! The part of a virtio driver that decides: what kind a device is, which
//! features driver and device agree on, and how the two rings of a queue
//! move. Reading and writing the registers of the device is left to the
//! transport.
use vstd::prelude::*;
use crate::intrusive_linked_list::IntrusiveLinkedList;
use crate::layout::is_pow2;
use crate::typestate::read_write::ReadPure;
use crate::typestate::read_write::ReadWrite;
use crate::typestate::read_write::Readable;
use crate::typestate::read_write::Writable;
use crate::typestate::read_write::WriteOnly;

verus! {

/// The number that the first register of a device holds.
pub const VIRTIO_MAGIC_VALUE: u32 = 0x74726976;

/// The version of the devices of the older kind.
pub const VIRTIO_SUPPORTED_VERSION_COMPATIBLE_MODE: u32 = 1;

/// The version of the devices of the newer kind.
pub const VIRTIO_SUPPORTED_VERSION: u32 = 2;

/// The number of words of feature bits.
pub const VIRTIO_FEATURE_SEL_SIZE: usize = 4;

/// The number of bytes of the registers of a device, behind which its
/// configuration lies.
pub const MMIO_REGISTER_BYTES: usize = 0x100;

/// The number of bytes of a descriptor.
pub const DESCRIPTOR_BYTES: usize = 16;

/// The kinds of devices.
#[derive(Debug, Clone, Copy, PartialEq, Eq, Structural)]
pub enum VirtIoDeviceTypes {
    /// Reserved (invalid)
    ReservedInvalid,
    /// Network device
    NetworkDevice,
    /// Block device
    BlockDevice,
    /// Console
    Console,
    /// Entropy source
    EntropySource,
    /// Memory ballooning (traditional)
    MemoryBalloonTraditional,
    /// IoMemory
    IoMemory,
    /// Rpmsg
    Rpmsg,
    /// SCSI host
    ScsiHost,
    /// 9P transport
    V9PTransport,
    /// Mac80211 wlan
    Mac80211Wlan,
    /// Rproc serial
    RprocSerial,
    /// Virtio CAIF
    VirtioCaif,
    /// Memory balloon
    MemoryBalloon,
    /// GPU device
    GpuDevice,
    /// Timer/Clock device
    TimerClockDevice,
    /// Input device
    InputDevice,
    /// Socket device
    SocketDevice,
    /// Crypto device
    CryptoDevice,
    /// Signal Distribution Module
    SignalDistributionModule,
    /// Pstore device
    PstoreDevice,
    /// IOMMU device
    IommuDevice,
    /// Memory device
    MemoryDevice,
    /// Sound device
    SoundDevice,
    /// File system device
    FileSystemDevice,
    /// PMEM device
    PmemDevice,
    /// RPMB device
    RpmbDevice,
    /// Mac80211 hwsim wireless simulation device
    Mac80211HwsimWirelessSimulationDevice,
    /// Video encoder device
    VideoEncoderDevice,
    /// Video decoder device
    VideoDecoderDevice,
    /// SCMI device
    ScmiDevice,
    /// NitroSecureModule
    NitroSecureModule,
    /// I2C adapter
    I2cAdapter,
    /// Watchdog
    Watchdog,
    /// CAN device
    CanDevice,
    /// Parameter Server
    ParameterServer,
    /// Audio policy device
    AudioPolicyDevice,
    /// Bluetooth device
    BluetoothDevice,
    /// GPIO device
    GpioDevice,
    /// RDMA device
    RdmaDevice,
    /// Camera device
    CameraDevice,
    /// ISM device
    IsmDevice,
    /// SPI master
    SpiMaster,
}

/// What can go wrong with a device.
#[derive(Debug, Clone, Copy, PartialEq, Eq)]
pub enum VirtioErr {
    BadMagic(u32),
    UnsupportedVersion(u32),
    UnknownVirtioDevice(u32),
    UnsupportedDeviceFeature([u32; 4]),
    UnsupportedDriverFeature([u32; 4]),
    Invalid,
    DeviceNeedsReset,
    DeviceUninitialized,
    OutOfAvailableDesc,
    QueueCorrupted,
}

impl VirtIoDeviceTypes {
    /// The number that stands for the kind.
    pub open spec fn id(self) -> u32 {
        match self {
            VirtIoDeviceTypes::ReservedInvalid => 0,
            VirtIoDeviceTypes::NetworkDevice => 1,
            VirtIoDeviceTypes::BlockDevice => 2,
            VirtIoDeviceTypes::Console => 3,
            VirtIoDeviceTypes::EntropySource => 4,
            VirtIoDeviceTypes::MemoryBalloonTraditional => 5,
            VirtIoDeviceTypes::IoMemory => 6,
            VirtIoDeviceTypes::Rpmsg => 7,
            VirtIoDeviceTypes::ScsiHost => 8,
            VirtIoDeviceTypes::V9PTransport => 9,
            VirtIoDeviceTypes::Mac80211Wlan => 10,
            VirtIoDeviceTypes::RprocSerial => 11,
            VirtIoDeviceTypes::VirtioCaif => 12,
            VirtIoDeviceTypes::MemoryBalloon => 13,
            VirtIoDeviceTypes::GpuDevice => 16,
            VirtIoDeviceTypes::TimerClockDevice => 17,
            VirtIoDeviceTypes::InputDevice => 18,
            VirtIoDeviceTypes::SocketDevice => 19,
            VirtIoDeviceTypes::CryptoDevice => 20,
            VirtIoDeviceTypes::SignalDistributionModule => 21,
            VirtIoDeviceTypes::PstoreDevice => 22,
            VirtIoDeviceTypes::IommuDevice => 23,
            VirtIoDeviceTypes::MemoryDevice => 24,
            VirtIoDeviceTypes::SoundDevice => 25,
            VirtIoDeviceTypes::FileSystemDevice => 26,
            VirtIoDeviceTypes::PmemDevice => 27,
            VirtIoDeviceTypes::RpmbDevice => 28,
            VirtIoDeviceTypes::Mac80211HwsimWirelessSimulationDevice => 29,
            VirtIoDeviceTypes::VideoEncoderDevice => 30,
            VirtIoDeviceTypes::VideoDecoderDevice => 31,
            VirtIoDeviceTypes::ScmiDevice => 32,
            VirtIoDeviceTypes::NitroSecureModule => 33,
            VirtIoDeviceTypes::I2cAdapter => 34,
            VirtIoDeviceTypes::Watchdog => 35,
            VirtIoDeviceTypes::CanDevice => 36,
            VirtIoDeviceTypes::ParameterServer => 38,
            VirtIoDeviceTypes::AudioPolicyDevice => 39,
            VirtIoDeviceTypes::BluetoothDevice => 40,
            VirtIoDeviceTypes::GpioDevice => 41,
            VirtIoDeviceTypes::RdmaDevice => 42,
            VirtIoDeviceTypes::CameraDevice => 43,
            VirtIoDeviceTypes::IsmDevice => 44,
            VirtIoDeviceTypes::SpiMaster => 45,
        }
    }

    /// The kind that `value` stands for.
    pub fn try_from(value: u32) -> (r: Result<VirtIoDeviceTypes, VirtioErr>)
        ensures
            match r {
                Ok(d) => d.id() == value,
                Err(e) => e == VirtioErr::UnknownVirtioDevice(value) && forall|
                    d: VirtIoDeviceTypes,
                | d.id() != value,
            },
    {
        if value == 0 {
            Ok(VirtIoDeviceTypes::ReservedInvalid)
        } else if value == 1 {
            Ok(VirtIoDeviceTypes::NetworkDevice)
        } else if value == 2 {
            Ok(VirtIoDeviceTypes::BlockDevice)
        } else if value == 3 {
            Ok(VirtIoDeviceTypes::Console)
        } else if value == 4 {
            Ok(VirtIoDeviceTypes::EntropySource)
        } else if value == 5 {
            Ok(VirtIoDeviceTypes::MemoryBalloonTraditional)
        } else if value == 6 {
            Ok(VirtIoDeviceTypes::IoMemory)
        } else if value == 7 {
            Ok(VirtIoDeviceTypes::Rpmsg)
        } else if value == 8 {
            Ok(VirtIoDeviceTypes::ScsiHost)
        } else if value == 9 {
            Ok(VirtIoDeviceTypes::V9PTransport)
        } else if value == 10 {
            Ok(VirtIoDeviceTypes::Mac80211Wlan)
        } else if value == 11 {
            Ok(VirtIoDeviceTypes::RprocSerial)
        } else if value == 12 {
            Ok(VirtIoDeviceTypes::VirtioCaif)
        } else if value == 13 {
            Ok(VirtIoDeviceTypes::MemoryBalloon)
        } else if value == 16 {
            Ok(VirtIoDeviceTypes::GpuDevice)
        } else if value == 17 {
            Ok(VirtIoDeviceTypes::TimerClockDevice)
        } else if value == 18 {
            Ok(VirtIoDeviceTypes::InputDevice)
        } else if value == 19 {
            Ok(VirtIoDeviceTypes::SocketDevice)
        } else if value == 20 {
            Ok(VirtIoDeviceTypes::CryptoDevice)
        } else if value == 21 {
            Ok(VirtIoDeviceTypes::SignalDistributionModule)
        } else if value == 22 {
            Ok(VirtIoDeviceTypes::PstoreDevice)
        } else if value == 23 {
            Ok(VirtIoDeviceTypes::IommuDevice)
        } else if value == 24 {
            Ok(VirtIoDeviceTypes::MemoryDevice)
        } else if value == 25 {
            Ok(VirtIoDeviceTypes::SoundDevice)
        } else if value == 26 {
            Ok(VirtIoDeviceTypes::FileSystemDevice)
        } else if value == 27 {
            Ok(VirtIoDeviceTypes::PmemDevice)
        } else if value == 28 {
            Ok(VirtIoDeviceTypes::RpmbDevice)
        } else if value == 29 {
            Ok(VirtIoDeviceTypes::Mac80211HwsimWirelessSimulationDevice)
        } else if value == 30 {
            Ok(VirtIoDeviceTypes::VideoEncoderDevice)
        } else if value == 31 {
            Ok(VirtIoDeviceTypes::VideoDecoderDevice)
        } else if value == 32 {
            Ok(VirtIoDeviceTypes::ScmiDevice)
        } else if value == 33 {
            Ok(VirtIoDeviceTypes::NitroSecureModule)
        } else if value == 34 {
            Ok(VirtIoDeviceTypes::I2cAdapter)
        } else if value == 35 {
            Ok(VirtIoDeviceTypes::Watchdog)
        } else if value == 36 {
            Ok(VirtIoDeviceTypes::CanDevice)
        } else if value == 38 {
            Ok(VirtIoDeviceTypes::ParameterServer)
        } else if value == 39 {
            Ok(VirtIoDeviceTypes::AudioPolicyDevice)
        } else if value == 40 {
            Ok(VirtIoDeviceTypes::BluetoothDevice)
        } else if value == 41 {
            Ok(VirtIoDeviceTypes::GpioDevice)
        } else if value == 42 {
            Ok(VirtIoDeviceTypes::RdmaDevice)
        } else if value == 43 {
            Ok(VirtIoDeviceTypes::CameraDevice)
        } else if value == 44 {
            Ok(VirtIoDeviceTypes::IsmDevice)
        } else if value == 45 {
            Ok(VirtIoDeviceTypes::SpiMaster)
        } else {
            Err(VirtioErr::UnknownVirtioDevice(value))
        }
    }
}

/// A word of feature bits.
#[derive(Clone, Copy, Debug, PartialEq, Eq, Structural)]
pub struct VirtioFeatures(pub u32);

/// The device can use lists of descriptors (first word).
pub const F_INDIRECT_DESC: u32 = 0x1000_0000;

/// The device can hold back notifications (first word).
pub const F_EVENT_IDX: u32 = 0x2000_0000;

/// The device follows version 1 of the standard (second word).
pub const F_VERSION_1: u32 = 0x1;

/// The device goes through the memory management of the platform (second word).
pub const F_ACCESS_PLATFORM: u32 = 0x2;

/// The device can use the packed layout of a queue (second word).
pub const F_RING_PACKED: u32 = 0x4;

/// The device uses the buffers in the order in which it got them (second word).
pub const F_IN_ORDER: u32 = 0x8;

/// The bits of the word `select` that a driver of a device may ask for.
pub open spec fn features_mask(select: int) -> u32 {
    if select == 0 {
        0x00FF_FFFF
    } else if select == 1 {
        0xFFFC_0000
    } else if select == 2 || select == 3 {
        0xFFFF_FFFF
    } else {
        0
    }
}

/// The features of the word `select` that the driver writes: those that the
/// driver asks for, the device offers and the word allows to a driver, and
/// besides them, in the second word, version 1 of the standard. A device
/// that does not offer that version is refused.
pub open spec fn agreed_features(select: int, device: u32, driver: u32, version: u32) -> Result<
    VirtioFeatures,
    VirtioErr,
> {
    if select == 1 && device & F_VERSION_1 == 0 {
        Err(VirtioErr::UnsupportedVersion(version))
    } else if select == 1 {
        Ok(VirtioFeatures((driver & device & features_mask(select)) | F_VERSION_1))
    } else {
        Ok(VirtioFeatures(driver & device & features_mask(select)))
    }
}

impl VirtioFeatures {
    /// The bits of the word `select` that a driver of a device may ask for.
    pub fn get_features_mask(select: usize) -> (r: VirtioFeatures)
        ensures
            r.0 == features_mask(select as int),
    {
        if select == 0 {
            VirtioFeatures(0x00FF_FFFF)
        } else if select == 1 {
            VirtioFeatures(0xFFFC_0000)
        } else if select == 2 || select == 3 {
            VirtioFeatures(0xFFFF_FFFF)
        } else {
            VirtioFeatures(0)
        }
    }

    /// The features of the word `select` that the driver writes.
    pub fn negotiate(
        select: usize,
        device_feature: VirtioFeatures,
        driver_feature: VirtioFeatures,
        version: u32,
    ) -> (r: Result<VirtioFeatures, VirtioErr>)
        ensures
            r == agreed_features(select as int, device_feature.0, driver_feature.0, version),
    {
        let mask = Self::get_features_mask(select);
        let wanted = driver_feature.0 & device_feature.0 & mask.0;
        if select == 1 {
            if device_feature.0 & F_VERSION_1 == 0 {
                return Err(VirtioErr::UnsupportedVersion(version));
            }
            Ok(VirtioFeatures(wanted | F_VERSION_1))
        } else {
            Ok(VirtioFeatures(wanted))
        }
    }
}

/// The state of a device, as the driver and the device tell it to each other.
#[derive(Clone, Copy, Debug, PartialEq, Eq, Structural)]
pub struct DeviceStatus(pub u32);

/// The device is reset.
pub const STATUS_RESET: u32 = 0;

/// The driver has seen the device.
pub const STATUS_ACKNOWLEDGE: u32 = 1;

/// The driver knows how to drive the device.
pub const STATUS_DRIVER: u32 = 2;

/// The driver is ready.
pub const STATUS_DRIVER_OK: u32 = 4;

/// The driver has chosen its features.
pub const STATUS_FEATURES_OK: u32 = 8;

/// The device has met an error from which only a reset recovers.
pub const STATUS_DEVICE_NEEDS_RESET: u32 = 64;

/// The driver has given up the device.
pub const STATUS_FAILED: u32 = 128;

/// What the status of the device says once the driver has written its
/// features: the device has not taken them, the device needs a reset, or
/// the set-up can go on.
pub open spec fn features_verdict(status: u32, offered: [u32; 4]) -> Result<(), VirtioErr> {
    if status & STATUS_FEATURES_OK == 0 {
        Err(VirtioErr::UnsupportedDriverFeature(offered))
    } else if status & STATUS_DEVICE_NEEDS_RESET != 0 {
        Err(VirtioErr::DeviceNeedsReset)
    } else {
        Ok(())
    }
}

impl DeviceStatus {
    /// Reads the status after the driver has written its features.
    pub fn check_features(&self, offered: [u32; 4]) -> (r: Result<(), VirtioErr>)
        ensures
            r == features_verdict(self.0, offered),
    {
        if self.0 & STATUS_FEATURES_OK == 0 {
            Err(VirtioErr::UnsupportedDriverFeature(offered))
        } else if self.0 & STATUS_DEVICE_NEEDS_RESET != 0 {
            Err(VirtioErr::DeviceNeedsReset)
        } else {
            Ok(())
        }
    }
}

/// The greatest power of two that is no larger than `max`.
pub fn ring_size(max: u32) -> (r: u32)
    requires
        max > 0,
    ensures
        is_pow2(r as int),
        r <= max,
        max < 2 * r,
{
    let mut size: u32 = 1;
    while size <= max / 2
        invariant
            is_pow2(size as int),
            1 <= size <= max,
        decreases max - size,
    {
        proof {
            crate::layout::lemma_pow2_double(size as int);
        }
        size = size * 2;
    }
    size
}

/// The flags of a descriptor.
#[derive(Clone, Copy, Debug, PartialEq, Eq, Structural)]
pub struct VirtqDescFlags(pub u16);

/// The buffer goes on in the descriptor that `next` names.
pub const VIRTQ_DESC_F_NEXT: u16 = 1;

/// The device writes the buffer; otherwise it reads it.
pub const VIRTQ_DESC_F_WRITE: u16 = 2;

/// The buffer holds a list of descriptors.
pub const VIRTQ_DESC_F_INDIRECT: u16 = 4;

/// A descriptor: a buffer of `len` bytes at `addr`.
#[derive(Clone, Copy, Debug, PartialEq, Eq, Structural)]
pub struct VirtqDesc {
    pub addr: u64,
    pub len: u32,
    pub flags: VirtqDescFlags,
    pub next: u16,
}

/// The difference of two counters that wrap at 65536.
pub open spec fn wrap_sub(a: u16, b: u16) -> u16 {
    if a >= b {
        (a - b) as u16
    } else {
        (a + 0x1_0000 - b) as u16
    }
}

/// The counter behind `a`.
pub open spec fn wrap_next(a: u16) -> u16 {
    if a == 0xFFFF {
        0
    } else {
        (a + 1) as u16
    }
}

/// What a queue holds.
pub struct QueueState {
    /// The number of descriptors.
    pub size: u32,
    /// The address of the first descriptor.
    pub descriptor: int,
    /// The addresses of the free descriptors.
    pub free: Seq<usize>,
    /// The number of buffers that the driver has made available.
    pub avail_idx: u16,
    /// The number of buffers that the driver has taken back.
    pub used_idx: u16,
    /// The addresses of the ring of the driver and of the ring of the device.
    pub rings: (u64, u64),
}

/// A queue of a device.
#[derive(Debug)]
pub struct VirtQueue {
    size: u32,
    descriptor_paddr: u64,
    avail_paddr: u64,
    used_paddr: u64,
    free_list: IntrusiveLinkedList,
    avail_idx: u16,
    used_idx: u16,
}

impl View for VirtQueue {
    type V = QueueState;

    closed spec fn view(&self) -> QueueState {
        QueueState {
            size: self.size,
            descriptor: self.descriptor_paddr as int,
            free: self.free_list@,
            avail_idx: self.avail_idx,
            used_idx: self.used_idx,
            rings: (self.avail_paddr, self.used_paddr),
        }
    }
}

/// The addresses of the first `n` descriptors from `base` on, last first.
pub open spec fn descriptors(base: int, n: int) -> Seq<usize> {
    Seq::new(n as nat, |i: int| (base + (n - 1 - i) * DESCRIPTOR_BYTES) as usize)
}

impl VirtQueue {
    /// The invariant of a queue: it has between 1 and 32768 descriptors,
    /// which end within the address space, and every free descriptor is one
    /// of them.
    pub open spec fn wf(&self) -> bool {
        &&& 0 < self@.size <= 0x8000
        &&& 0 <= self@.descriptor
        &&& self@.descriptor + self@.size * DESCRIPTOR_BYTES <= usize::MAX
        &&& forall|i: int|
            0 <= i < self@.free.len() ==> self@.descriptor <= (#[trigger] self@.free[i])
                < self@.descriptor + self@.size * DESCRIPTOR_BYTES
    }

    /// A queue of `size` descriptors at `descriptor_paddr`, all of them
    /// free, with its two rings at `avail_paddr` and `used_paddr`.
    pub fn new(size: u32, descriptor_paddr: usize, avail_paddr: usize, used_paddr: usize) -> (r:
        Self)
        requires
            0 < size <= 0x8000,
            descriptor_paddr + size * DESCRIPTOR_BYTES <= usize::MAX,
        ensures
            r.wf(),
            r@.size == size,
            r@.descriptor == descriptor_paddr,
            r@.free == descriptors(descriptor_paddr as int, size as int),
            r@.avail_idx == 0,
            r@.used_idx == 0,
            r@.rings == (avail_paddr as u64, used_paddr as u64),
    {
        let mut free_list = IntrusiveLinkedList::new();
        let mut i: usize = 0;
        proof {
            assert(free_list@ =~= descriptors(descriptor_paddr as int, 0));
        }
        while i < size as usize
            invariant
                i <= size,
                size <= 0x8000,
                descriptor_paddr + size * DESCRIPTOR_BYTES <= usize::MAX,
                free_list@ == descriptors(descriptor_paddr as int, i as int),
                forall|k: int|
                    0 <= k < free_list@.len() ==> descriptor_paddr <= (#[trigger] free_list@[k])
                        < descriptor_paddr + size * DESCRIPTOR_BYTES,
            decreases size - i,
        {
            let ghost before = free_list@;
            free_list.push(descriptor_paddr + i * DESCRIPTOR_BYTES);
            proof {
                assert forall|k: int| 0 <= k < free_list@.len() implies descriptor_paddr <= (
                #[trigger] free_list@[k]) < descriptor_paddr + size * DESCRIPTOR_BYTES by {
                    if k > 0 {
                        assert(free_list@[k] == before[k - 1]);
                    }
                }
            }
            proof {
                assert(free_list@ =~= descriptors(descriptor_paddr as int, i + 1));
            }
            i += 1;
        }
        Self {
            size,
            descriptor_paddr: descriptor_paddr as u64,
            avail_paddr: avail_paddr as u64,
            used_paddr: used_paddr as u64,
            free_list,
            avail_idx: 0,
            used_idx: 0,
        }
    }

    /// The number of descriptors.
    pub fn size(&self) -> (r: u32)
        ensures
            r == self@.size,
    {
        self.size
    }

    /// The number of buffers that the driver has made available.
    pub fn avail_idx(&self) -> (r: u16)
        ensures
            r == self@.avail_idx,
    {
        self.avail_idx
    }

    /// The number of buffers that the driver has taken back.
    pub fn used_idx(&self) -> (r: u16)
        ensures
            r == self@.used_idx,
    {
        self.used_idx
    }

    /// The addresses of the two rings.
    pub fn rings(&self) -> (r: (u64, u64))
        ensures
            r == self@.rings,
    {
        (self.avail_paddr, self.used_paddr)
    }

    /// Takes a free descriptor: its number and its address. Fails where none is free.
    pub fn allocate_descriptor(&mut self) -> (r: Result<(u16, usize), VirtioErr>)
        requires
            old(self).wf(),
        ensures
            final(self).wf(),
            match r {
                Ok(d) => old(self)@.free.len() > 0 && d.1 == old(self)@.free[0] && d.0 == (d.1
                    - old(self)@.descriptor) / (DESCRIPTOR_BYTES as int) && final(self)@ == (
                QueueState { free: old(self)@.free.remove(0), ..old(self)@ }),
                Err(e) => old(self)@.free.len() == 0 && e == VirtioErr::OutOfAvailableDesc
                    && final(self)@ == old(self)@,
            },
    {
        let ghost before = self.free_list@;
        match self.free_list.pop() {
            Some(ptr) => {
                proof {
                    assert(before[0] == ptr);
                    assert forall|k: int| 0 <= k < self@.free.len() implies self@.descriptor <= (
                    #[trigger] self@.free[k]) < self@.descriptor + self@.size * DESCRIPTOR_BYTES by {
                        assert(self@.free[k] == before[k + 1]);
                    }
                }
                let idx = (ptr - self.descriptor_paddr as usize) / DESCRIPTOR_BYTES;
                Ok((idx as u16, ptr))
            },
            None => Err(VirtioErr::OutOfAvailableDesc),
        }
    }

    /// Makes one more buffer available to the device, and gives the place
    /// in the ring at which its descriptor is to be written. Fails where as
    /// many buffers are with the device as the queue has descriptors.
    pub fn set_available_ring(&mut self) -> (r: Result<u16, VirtioErr>)
        requires
            old(self).wf(),
        ensures
            final(self).wf(),
            match r {
                Ok(slot) => wrap_sub(old(self)@.avail_idx, old(self)@.used_idx) < old(self)@.size
                    && slot == old(self)@.avail_idx % (old(self)@.size as u16) && final(self)@ == (
                QueueState { avail_idx: wrap_next(old(self)@.avail_idx), ..old(self)@ }),
                Err(e) => wrap_sub(old(self)@.avail_idx, old(self)@.used_idx) >= old(self)@.size
                    && e == VirtioErr::OutOfAvailableDesc && final(self)@ == old(self)@,
            },
    {
        let in_flight: u32 = wrapping_difference(self.avail_idx, self.used_idx) as u32;
        if in_flight >= self.size {
            return Err(VirtioErr::OutOfAvailableDesc);
        }
        let ring_slot = self.avail_idx % (self.size as u16);
        self.avail_idx = wrapping_successor(self.avail_idx);
        Ok(ring_slot)
    }

    /// Takes back the next buffer that the device has used, `device_idx`
    /// being the number of buffers that the device says it has used, and
    /// gives the place in the ring at which the buffer is named; `None`
    /// where the device has used no more. Fails where the device claims to
    /// have used more buffers than the queue has descriptors.
    pub fn pop_used(&mut self, device_idx: u16) -> (r: Result<Option<u16>, VirtioErr>)
        requires
            old(self).wf(),
        ensures
            final(self).wf(),
            wrap_sub(device_idx, old(self)@.used_idx) == 0 ==> r == Ok::<Option<u16>, VirtioErr>(
                None,
            ) && final(self)@ == old(self)@,
            wrap_sub(device_idx, old(self)@.used_idx) > old(self)@.size ==> r == Err::<
                Option<u16>,
                VirtioErr,
            >(VirtioErr::QueueCorrupted) && final(self)@ == old(self)@,
            0 < wrap_sub(device_idx, old(self)@.used_idx) <= old(self)@.size ==> r == Ok::<
                Option<u16>,
                VirtioErr,
            >(Some((old(self)@.used_idx % (old(self)@.size as u16)) as u16)) && final(self)@ == (
            QueueState { used_idx: wrap_next(old(self)@.used_idx), ..old(self)@ }),
    {
        let delta = wrapping_difference(device_idx, self.used_idx);
        if delta == 0 {
            return Ok(None);
        }
        if delta as u32 > self.size {
            return Err(VirtioErr::QueueCorrupted);
        }
        let ring_idx = self.used_idx % (self.size as u16);
        self.used_idx = wrapping_successor(self.used_idx);
        Ok(Some(ring_idx))
    }

    /// Gives the descriptor with the number `desc_idx` back to the free ones.
    pub fn dequeue_used(&mut self, desc_idx: u16)
        requires
            old(self).wf(),
            desc_idx < old(self)@.size,
        ensures
            final(self).wf(),
            final(self)@ == (QueueState {
                free: old(self)@.free.insert(
                    0,
                    (old(self)@.descriptor + desc_idx * DESCRIPTOR_BYTES) as usize,
                ),
                ..old(self)@
            }),
    {
        proof {
            assert(desc_idx * DESCRIPTOR_BYTES <= self@.size * DESCRIPTOR_BYTES) by (nonlinear_arith)
                requires
                    desc_idx < self@.size,
            ;
        }
        let ghost before = self.free_list@;
        self.free_list.push(self.descriptor_paddr as usize + desc_idx as usize * DESCRIPTOR_BYTES);
        proof {
            assert forall|k: int| 0 <= k < self@.free.len() implies self@.descriptor <= (
            #[trigger] self@.free[k]) < self@.descriptor + self@.size * DESCRIPTOR_BYTES by {
                if k > 0 {
                    assert(self@.free[k] == before[k - 1]);
                }
            }
        }
    }
}

/// The difference of two counters that wrap at 65536.
pub fn wrapping_difference(a: u16, b: u16) -> (r: u16)
    ensures
        r == wrap_sub(a, b),
{
    if a >= b {
        a - b
    } else {
        let wide: u32 = a as u32 + 0x1_0000 - b as u32;
        wide as u16
    }
}

/// The counter behind `a`, which wraps at 65536.
pub fn wrapping_successor(a: u16) -> (r: u16)
    ensures
        r == wrap_next(a),
{
    if a == 0xFFFF {
        0
    } else {
        a + 1
    }
}

/// What carries the words between the driver and the device.
pub trait VirtioTransport {
    /// The kind of the device behind the transport.
    spec fn device_kind(&self) -> VirtIoDeviceTypes;

    /// The address at which the configuration of the device lies.
    spec fn configuration_addr(&self) -> usize;

    /// The kind of the device.
    fn get_device(&self) -> (r: VirtIoDeviceTypes)
        ensures
            r == self.device_kind(),
    ;

    /// The address of the configuration of the device.
    fn get_configuration_addr(&self) -> (r: usize)
        ensures
            r == self.configuration_addr(),
    ;

    fn get_device_version(&self) -> u32;

    fn set_status(&mut self, status: DeviceStatus);

    fn bitmask_set_status(&mut self, status: DeviceStatus);

    fn get_status(&self) -> DeviceStatus;

    fn get_device_features(&mut self, select: u32) -> VirtioFeatures;

    fn set_driver_features(&mut self, select: u32, val: VirtioFeatures);

    fn select_queue(&mut self, index: u16);

    fn is_queue_ready_equal_0(&self) -> bool;

    fn enable_queue_ready(&mut self);

    fn get_max_queue_size(&self) -> u32;

    fn set_queue_size(&mut self, size: u32);

    fn queue_set_descriptor(&mut self, paddr: usize);

    fn queue_set_available(&mut self, paddr: usize);

    fn queue_set_used(&mut self, paddr: usize);

    fn queue_notify(&mut self, index: u16);
}

/// What a driver of one kind of device adds to the set-up.
pub trait VirtIoDevice {
    /// The features of the word `select` that the driver asks for, of
    /// those that the device offers.
    fn driver_features(&self, select: u32, device_feature: VirtioFeatures) -> Result<
        VirtioFeatures,
        VirtioErr,
    >;

    /// The number of queues of the device.
    fn num_of_queue(&self) -> Result<u32, VirtioErr>;
}

/// The registers of a device in memory, each as the value that it holds.
#[derive(Debug)]
pub struct MmioDeviceRegister {
    pub magic: ReadPure<u32>,
    pub version: ReadPure<u32>,
    pub device_id: ReadPure<u32>,
    pub vendor_id: ReadPure<u32>,
    pub device_features: ReadPure<u32>,
    pub device_features_sel: WriteOnly<u32>,
    pub driver_features: WriteOnly<u32>,
    pub driver_features_sel: WriteOnly<u32>,
    pub queue_sel: WriteOnly<u32>,
    pub queue_size_max: ReadPure<u32>,
    pub queue_size: WriteOnly<u32>,
    pub queue_ready: ReadWrite<u32>,
    pub queue_notify: WriteOnly<u32>,
    pub status: ReadWrite<u32>,
    pub queue_desc_low: WriteOnly<u32>,
    pub queue_desc_high: WriteOnly<u32>,
    pub queue_driver_low: WriteOnly<u32>,
    pub queue_driver_high: WriteOnly<u32>,
    pub queue_device_low: WriteOnly<u32>,
    pub queue_device_high: WriteOnly<u32>,
}

/// A device behind registers in memory: the registers, where its
/// configuration lies, and the kind of device that was found.
#[derive(Debug)]
pub struct VirtIoMmio {
    registers: MmioDeviceRegister,
    configuration: usize,
    device: VirtIoDeviceTypes,
}

/// The upper 32 bits of an address.
pub open spec fn upper_half(paddr: usize) -> u32 {
    (paddr as int / 0x1_0000_0000) as u32
}

/// The lower 32 bits of an address.
pub open spec fn lower_half(paddr: usize) -> u32 {
    (paddr as int % 0x1_0000_0000) as u32
}

impl VirtIoMmio {
    /// The address of the registers.
    pub closed spec fn base(&self) -> int {
        self.configuration - MMIO_REGISTER_BYTES
    }

    /// The kind of the device.
    pub closed spec fn kind(&self) -> VirtIoDeviceTypes {
        self.device
    }

    /// What the registers hold.
    pub closed spec fn regs(&self) -> MmioDeviceRegister {
        self.registers
    }

    /// Whether `after` is this device with `registers` for its registers.
    pub open spec fn becomes(&self, after: &VirtIoMmio, registers: MmioDeviceRegister) -> bool {
        &&& after.base() == self.base()
        &&& after.kind() == self.kind()
        &&& after.regs() == registers
    }

    /// The device behind the registers `registers`, which lie at `paddr`
    /// with the configuration of the device behind them, all within the
    /// address space. Fails where the magic number is another, the version
    /// is neither 1 nor 2, or the kind of device is unknown.
    pub fn new_mmio(paddr: usize, registers: MmioDeviceRegister) -> (r: Result<
        VirtIoMmio,
        VirtioErr,
    >)
        requires
            paddr + MMIO_REGISTER_BYTES <= usize::MAX,
        ensures
            match r {
                Ok(m) => registers.magic.0 == VIRTIO_MAGIC_VALUE && (registers.version.0
                    == VIRTIO_SUPPORTED_VERSION || registers.version.0
                    == VIRTIO_SUPPORTED_VERSION_COMPATIBLE_MODE) && m.kind().id()
                    == registers.device_id.0 && m.base() == paddr && m.regs() == registers,
                Err(e) => if registers.magic.0 != VIRTIO_MAGIC_VALUE {
                    e == VirtioErr::BadMagic(registers.magic.0)
                } else if registers.version.0 != VIRTIO_SUPPORTED_VERSION && registers.version.0
                    != VIRTIO_SUPPORTED_VERSION_COMPATIBLE_MODE {
                    e == VirtioErr::UnsupportedVersion(registers.version.0)
                } else {
                    e == VirtioErr::UnknownVirtioDevice(registers.device_id.0) && forall|
                        d: VirtIoDeviceTypes,
                    | d.id() != registers.device_id.0
                },
            },
    {
        let magic = registers.magic.read();
        if magic != VIRTIO_MAGIC_VALUE {
            return Err(VirtioErr::BadMagic(magic));
        }
        let version = registers.version.read();
        if version != VIRTIO_SUPPORTED_VERSION && version
            != VIRTIO_SUPPORTED_VERSION_COMPATIBLE_MODE {
            return Err(VirtioErr::UnsupportedVersion(version));
        }
        match VirtIoDeviceTypes::try_from(registers.device_id.read()) {
            Ok(device) => Ok(
                VirtIoMmio { registers, configuration: paddr + MMIO_REGISTER_BYTES, device },
            ),
            Err(e) => Err(e),
        }
    }

    /// The registers.
    pub fn registers(&self) -> (r: &MmioDeviceRegister)
        ensures
            *r == self.regs(),
    {
        &self.registers
    }

    /// The two halves of an address, as the registers of a queue take them:
    /// the upper 32 bits and the lower 32 bits.
    pub fn split_address(paddr: u64) -> (r: (u32, u32))
        ensures
            r.0 as int * 0x1_0000_0000 + r.1 == paddr,
            r.0 == paddr / 0x1_0000_0000,
            r.1 == paddr % 0x1_0000_0000,
    {
        ((paddr / 0x1_0000_0000) as u32, (paddr % 0x1_0000_0000) as u32)
    }
}

impl VirtioTransport for VirtIoMmio {
    open spec fn device_kind(&self) -> VirtIoDeviceTypes {
        self.kind()
    }

    open spec fn configuration_addr(&self) -> usize {
        (self.base() + MMIO_REGISTER_BYTES) as usize
    }

    /// The kind of device that was found behind the registers.
    fn get_device(&self) -> (r: VirtIoDeviceTypes) {
        self.device
    }

    /// The address behind the registers.
    fn get_configuration_addr(&self) -> (r: usize) {
        self.configuration
    }

    /// What the version register holds.
    fn get_device_version(&self) -> (r: u32)
        ensures
            r == self.regs().version.0,
    {
        self.registers.version.read()
    }

    /// Writes `status` to the status register.
    fn set_status(&mut self, status: DeviceStatus)
        ensures
            old(self).becomes(
                final(self),
                (MmioDeviceRegister { status: ReadWrite(status.0), ..old(self).regs() }),
            ),
    {
        self.registers.status.write(status.0);
    }

    /// Sets the bits of `status` in the status register.
    fn bitmask_set_status(&mut self, status: DeviceStatus)
        ensures
            old(self).becomes(
                final(self),
                (MmioDeviceRegister {
                    status: ReadWrite(old(self).regs().status.0 | status.0),
                    ..old(self).regs()
                }),
            ),
    {
        self.registers.status.set_bits(status.0);
    }

    /// What the status register holds.
    fn get_status(&self) -> (r: DeviceStatus)
        ensures
            r.0 == self.regs().status.0,
    {
        DeviceStatus(self.registers.status.read())
    }

    /// Selects the word `select` of the features of the device, and reads
    /// the features register.
    fn get_device_features(&mut self, select: u32) -> (r: VirtioFeatures)
        ensures
            r.0 == old(self).regs().device_features.0,
            old(self).becomes(
                final(self),
                (MmioDeviceRegister {
                    device_features_sel: WriteOnly(select),
                    ..old(self).regs()
                }),
            ),
    {
        self.registers.device_features_sel.write(select);
        VirtioFeatures(self.registers.device_features.read())
    }

    /// Selects the word `select` of the features of the driver, and writes
    /// `val` to it.
    fn set_driver_features(&mut self, select: u32, val: VirtioFeatures)
        ensures
            old(self).becomes(
                final(self),
                (MmioDeviceRegister {
                    driver_features_sel: WriteOnly(select),
                    driver_features: WriteOnly(val.0),
                    ..old(self).regs()
                }),
            ),
    {
        self.registers.driver_features_sel.write(select);
        self.registers.driver_features.write(val.0);
    }

    /// Selects the queue `index`.
    fn select_queue(&mut self, index: u16)
        ensures
            old(self).becomes(
                final(self),
                (MmioDeviceRegister { queue_sel: WriteOnly(index as u32), ..old(self).regs() }),
            ),
    {
        self.registers.queue_sel.write(index as u32);
    }

    /// Whether the selected queue is not in use yet.
    fn is_queue_ready_equal_0(&self) -> (r: bool)
        ensures
            r == (self.regs().queue_ready.0 == 0),
    {
        self.registers.queue_ready.read() == 0
    }

    /// Takes the selected queue into use.
    fn enable_queue_ready(&mut self)
        ensures
            old(self).becomes(
                final(self),
                (MmioDeviceRegister { queue_ready: ReadWrite(1u32), ..old(self).regs() }),
            ),
    {
        self.registers.queue_ready.write(1);
    }

    /// The largest size that the device takes for the selected queue.
    fn get_max_queue_size(&self) -> (r: u32)
        ensures
            r == self.regs().queue_size_max.0,
    {
        self.registers.queue_size_max.read()
    }

    /// Sets the size of the selected queue.
    fn set_queue_size(&mut self, size: u32)
        ensures
            old(self).becomes(
                final(self),
                (MmioDeviceRegister { queue_size: WriteOnly(size), ..old(self).regs() }),
            ),
    {
        self.registers.queue_size.write(size);
    }

    /// Tells the device where the descriptors of the selected queue lie.
    fn queue_set_descriptor(&mut self, paddr: usize)
        ensures
            old(self).becomes(
                final(self),
                (MmioDeviceRegister {
                    queue_desc_high: WriteOnly(upper_half(paddr)),
                    queue_desc_low: WriteOnly(lower_half(paddr)),
                    ..old(self).regs()
                }),
            ),
    {
        let halves = Self::split_address(paddr as u64);
        self.registers.queue_desc_high.write(halves.0);
        self.registers.queue_desc_low.write(halves.1);
    }

    /// Tells the device where the available ring of the selected queue lies.
    fn queue_set_available(&mut self, paddr: usize)
        ensures
            old(self).becomes(
                final(self),
                (MmioDeviceRegister {
                    queue_driver_high: WriteOnly(upper_half(paddr)),
                    queue_driver_low: WriteOnly(lower_half(paddr)),
                    ..old(self).regs()
                }),
            ),
    {
        let halves = Self::split_address(paddr as u64);
        self.registers.queue_driver_high.write(halves.0);
        self.registers.queue_driver_low.write(halves.1);
    }

    /// Tells the device where the used ring of the selected queue lies.
    fn queue_set_used(&mut self, paddr: usize)
        ensures
            old(self).becomes(
                final(self),
                (MmioDeviceRegister {
                    queue_device_high: WriteOnly(upper_half(paddr)),
                    queue_device_low: WriteOnly(lower_half(paddr)),
                    ..old(self).regs()
                }),
            ),
    {
        let halves = Self::split_address(paddr as u64);
        self.registers.queue_device_high.write(halves.0);
        self.registers.queue_device_low.write(halves.1);
    }

    /// Tells the device that the queue `index` holds something new.
    fn queue_notify(&mut self, index: u16)
        ensures
            old(self).becomes(
                final(self),
                (MmioDeviceRegister {
                    queue_notify: WriteOnly(index as u32),
                    ..old(self).regs()
                }),
            ),
    {
        self.registers.queue_notify.write(index as u32);
    }
}

/// The driver's side of a device: its transport and, once they are set up,
/// its queues.
pub struct VirtIoCore<T: VirtioTransport> {
    pub transport: T,
    pub queues: Option<Vec<VirtQueue>>,
}

impl<T: VirtioTransport> VirtIoCore<T> {
    /// The driver's side of the device behind `transport`, before its
    /// queues are set up.
    pub fn new_mmio(transport: T) -> (r: Self)
        ensures
            r.queues is None,
            r.transport == transport,
    {
        Self { transport, queues: None }
    }

    /// The kind of the device, as the transport tells it.
    pub fn get_device(&self) -> (r: VirtIoDeviceTypes)
        ensures
            r == self.transport.device_kind(),
    {
        self.transport.get_device()
    }

    /// The address of the configuration of the device, as the transport tells it.
    pub fn get_configuration_addr(&self) -> (r: usize)
        ensures
            r == self.transport.configuration_addr(),
    {
        self.transport.get_configuration_addr()
    }

    /// What the queues hold, one after the other; nothing before they are set up.
    pub open spec fn states(&self) -> Seq<QueueState> {
        match self.queues {
            Some(q) => q@.map_values(|x: VirtQueue| x@),
            None => Seq::empty(),
        }
    }

    /// Every queue keeps its invariant.
    pub open spec fn wf(&self) -> bool {
        self.queues matches Some(q) ==> forall|i: int|
            0 <= i < q@.len() ==> (#[trigger] q@[i]).wf()
    }

    /// Takes a free descriptor of the queue `queue_idx`: its number and its
    /// address. Fails before the queues are set up, for a queue that the
    /// device has not, and where no descriptor is free.
    pub fn allocate_descriptor(&mut self, queue_idx: u16) -> (r: Result<(u16, usize), VirtioErr>)
        requires
            old(self).wf(),
        ensures
            final(self).wf(),
            match old(self).queues {
                None => r == Err::<(u16, usize), VirtioErr>(VirtioErr::DeviceUninitialized),
                Some(q) => if queue_idx >= q@.len() {
                    r == Err::<(u16, usize), VirtioErr>(VirtioErr::Invalid)
                } else if q@[queue_idx as int]@.free.len() == 0 {
                    r == Err::<(u16, usize), VirtioErr>(VirtioErr::OutOfAvailableDesc)
                } else {
                    r matches Ok(d) && d.1 == q@[queue_idx as int]@.free[0] && d.0 == (d.1
                        - q@[queue_idx as int]@.descriptor) / (DESCRIPTOR_BYTES as int)
                },
            },
            final(self).queues is Some == old(self).queues is Some,
            final(self).states() == (if r is Ok {
                old(self).states().update(
                    queue_idx as int,
                    QueueState {
                        free: old(self).states()[queue_idx as int].free.remove(0),
                        ..old(self).states()[queue_idx as int]
                    },
                )
            } else {
                old(self).states()
            }),
    {
        match &mut self.queues {
            Some(queues) => {
                if queue_idx as usize >= queues.len() {
                    return Err(VirtioErr::Invalid);
                }
                let ghost before = queues@;
                let mut queue = queues.remove(queue_idx as usize);
                let answer = queue.allocate_descriptor();
                queues.insert(queue_idx as usize, queue);
                proof {
                    assert forall|i: int| 0 <= i < queues@.len() implies (#[trigger] queues@[i]).wf() by {
                        if i != queue_idx {
                            assert(queues@[i] == before[i]);
                        }
                    }
                    assert(queues@.map_values(|x: VirtQueue| x@) =~= before.map_values(
                        |x: VirtQueue| x@,
                    ).update(queue_idx as int, queues@[queue_idx as int]@)) by {
                        assert forall|i: int| 0 <= i < queues@.len() && i != queue_idx implies queues@[i]
                            == before[i] by {}
                    }
                    assert(before.map_values(|x: VirtQueue| x@).update(
                        queue_idx as int,
                        before[queue_idx as int]@,
                    ) =~= before.map_values(|x: VirtQueue| x@));
                }
                answer
            },
            None => Err(VirtioErr::DeviceUninitialized),
        }
    }

    /// Takes back the next buffer that the device has used of the queue
    /// `queue_idx`. See [`VirtQueue::pop_used`]. Fails before the queues are
    /// set up, and for a queue that the device has not.
    pub fn pop_used(&mut self, queue_idx: u16, device_idx: u16) -> (r: Result<
        Option<u16>,
        VirtioErr,
    >)
        requires
            old(self).wf(),
        ensures
            final(self).wf(),
            match old(self).queues {
                None => r == Err::<Option<u16>, VirtioErr>(VirtioErr::DeviceUninitialized),
                Some(q) => if queue_idx >= q@.len() {
                    r == Err::<Option<u16>, VirtioErr>(VirtioErr::Invalid)
                } else {
                    let d = wrap_sub(device_idx, q@[queue_idx as int]@.used_idx);
                    if d == 0 {
                        r == Ok::<Option<u16>, VirtioErr>(None)
                    } else if d > q@[queue_idx as int]@.size {
                        r == Err::<Option<u16>, VirtioErr>(VirtioErr::QueueCorrupted)
                    } else {
                        r == Ok::<Option<u16>, VirtioErr>(
                            Some(
                                (q@[queue_idx as int]@.used_idx % (q@[queue_idx as int]@.size
                                    as u16)) as u16,
                            ),
                        )
                    }
                },
            },
            final(self).queues is Some == old(self).queues is Some,
            final(self).states() == (if r matches Ok(Some(_)) {
                old(self).states().update(
                    queue_idx as int,
                    QueueState {
                        used_idx: wrap_next(old(self).states()[queue_idx as int].used_idx),
                        ..old(self).states()[queue_idx as int]
                    },
                )
            } else {
                old(self).states()
            }),
    {
        match &mut self.queues {
            Some(queues) => {
                if queue_idx as usize >= queues.len() {
                    return Err(VirtioErr::Invalid);
                }
                let ghost before = queues@;
                let mut queue = queues.remove(queue_idx as usize);
                let answer = queue.pop_used(device_idx);
                queues.insert(queue_idx as usize, queue);
                proof {
                    assert forall|i: int| 0 <= i < queues@.len() implies (#[trigger] queues@[i]).wf() by {
                        if i != queue_idx {
                            assert(queues@[i] == before[i]);
                        }
                    }
                    assert(queues@.map_values(|x: VirtQueue| x@) =~= before.map_values(
                        |x: VirtQueue| x@,
                    ).update(queue_idx as int, queues@[queue_idx as int]@)) by {
                        assert forall|i: int| 0 <= i < queues@.len() && i != queue_idx implies queues@[i]
                            == before[i] by {}
                    }
                    assert(before.map_values(|x: VirtQueue| x@).update(
                        queue_idx as int,
                        before[queue_idx as int]@,
                    ) =~= before.map_values(|x: VirtQueue| x@));
                }
                answer
            },
            None => Err(VirtioErr::DeviceUninitialized),
        }
    }

    /// Gives the descriptor `desc_idx` of the queue `queue_idx` back to the
    /// free ones. Fails before the queues are set up, and for a queue or a
    /// descriptor that there is not.
    pub fn dequeue_used(&mut self, queue_idx: u16, desc_idx: u16) -> (r: Result<(), VirtioErr>)
        requires
            old(self).wf(),
        ensures
            final(self).wf(),
            match old(self).queues {
                None => r == Err::<(), VirtioErr>(VirtioErr::DeviceUninitialized),
                Some(q) => if queue_idx >= q@.len() || desc_idx >= q@[queue_idx as int]@.size {
                    r == Err::<(), VirtioErr>(VirtioErr::Invalid)
                } else {
                    r is Ok
                },
            },
            final(self).queues is Some == old(self).queues is Some,
            final(self).states() == (if r is Ok {
                old(self).states().update(
                    queue_idx as int,
                    QueueState {
                        free: old(self).states()[queue_idx as int].free.insert(
                            0,
                            (old(self).states()[queue_idx as int].descriptor + desc_idx
                                * DESCRIPTOR_BYTES) as usize,
                        ),
                        ..old(self).states()[queue_idx as int]
                    },
                )
            } else {
                old(self).states()
            }),
    {
        match &mut self.queues {
            Some(queues) => {
                if queue_idx as usize >= queues.len() {
                    return Err(VirtioErr::Invalid);
                }
                if desc_idx as u32 >= queues[queue_idx as usize].size() {
                    return Err(VirtioErr::Invalid);
                }
                let ghost before = queues@;
                let mut queue = queues.remove(queue_idx as usize);
                queue.dequeue_used(desc_idx);
                queues.insert(queue_idx as usize, queue);
                proof {
                    assert forall|i: int| 0 <= i < queues@.len() implies (#[trigger] queues@[i]).wf() by {
                        if i != queue_idx {
                            assert(queues@[i] == before[i]);
                        }
                    }
                    assert(queues@.map_values(|x: VirtQueue| x@) =~= before.map_values(
                        |x: VirtQueue| x@,
                    ).update(queue_idx as int, queues@[queue_idx as int]@)) by {
                        assert forall|i: int| 0 <= i < queues@.len() && i != queue_idx implies queues@[i]
                            == before[i] by {}
                    }
                    assert(before.map_values(|x: VirtQueue| x@).update(
                        queue_idx as int,
                        before[queue_idx as int]@,
                    ) =~= before.map_values(|x: VirtQueue| x@));
                }
                Ok(())
            },
            None => Err(VirtioErr::DeviceUninitialized),
        }
    }

    /// Makes one more buffer of the queue `queue_idx` available, tells the
    /// device, and gives the place in the ring at which the descriptor is
    /// named. Fails before the queues are set up, for a queue that the
    /// device has not, and where the queue is full.
    pub fn set_and_notify(&mut self, queue_idx: u16) -> (r: Result<u16, VirtioErr>)
        requires
            old(self).wf(),
        ensures
            final(self).wf(),
            old(self).queues is None ==> r == Err::<u16, VirtioErr>(
                VirtioErr::DeviceUninitialized,
            ),
            old(self).queues matches Some(q) ==> (queue_idx >= q@.len() ==> r == Err::<
                u16,
                VirtioErr,
            >(VirtioErr::Invalid)),
            old(self).queues matches Some(q) ==> (queue_idx < q@.len() ==> (if wrap_sub(
                q@[queue_idx as int]@.avail_idx,
                q@[queue_idx as int]@.used_idx,
            ) < q@[queue_idx as int]@.size {
                r == Ok::<u16, VirtioErr>(
                    (q@[queue_idx as int]@.avail_idx % (q@[queue_idx as int]@.size as u16)) as u16,
                )
            } else {
                r == Err::<u16, VirtioErr>(VirtioErr::OutOfAvailableDesc)
            })),
            final(self).queues is Some == old(self).queues is Some,
            final(self).states() == (if r is Ok {
                old(self).states().update(
                    queue_idx as int,
                    QueueState {
                        avail_idx: wrap_next(old(self).states()[queue_idx as int].avail_idx),
                        ..old(self).states()[queue_idx as int]
                    },
                )
            } else {
                old(self).states()
            }),
    {
        let slot = match &mut self.queues {
            Some(queues) => {
                if queue_idx as usize >= queues.len() {
                    return Err(VirtioErr::Invalid);
                }
                let ghost before = queues@;
                let mut queue = queues.remove(queue_idx as usize);
                let answer = queue.set_available_ring();
                queues.insert(queue_idx as usize, queue);
                proof {
                    assert forall|i: int| 0 <= i < queues@.len() implies (#[trigger] queues@[i]).wf() by {
                        if i != queue_idx {
                            assert(queues@[i] == before[i]);
                        }
                    }
                    assert(queues@.map_values(|x: VirtQueue| x@) =~= before.map_values(
                        |x: VirtQueue| x@,
                    ).update(queue_idx as int, queues@[queue_idx as int]@)) by {
                        assert forall|i: int| 0 <= i < queues@.len() && i != queue_idx implies queues@[i]
                            == before[i] by {}
                    }
                    assert(before.map_values(|x: VirtQueue| x@).update(
                        queue_idx as int,
                        before[queue_idx as int]@,
                    ) =~= before.map_values(|x: VirtQueue| x@));
                }
                match answer {
                    Ok(s) => s,
                    Err(e) => {
                        return Err(e);
                    },
                }
            },
            None => {
                return Err(VirtioErr::DeviceUninitialized);
            },
        };
        self.transport.queue_notify(queue_idx);
        Ok(slot)
    }
}

} // verus!

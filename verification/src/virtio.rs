//! Virtio MMIO block device: the split-queue bookkeeping and the driver's
//! initialization decisions.
//!
//! The device is driven through a register window and a shared split
//! queue. The queue, the descriptor chains and the request records are
//! data, and the rules for filling them are proved here; reading and
//! writing the registers themselves, and the device's side of the queue,
//! are machine work at the boundary.

use vstd::prelude::*;

verus! {

/// Number of descriptors in the split queue.
pub const VIRTIO_QUEUE_SIZE: usize = 128;

/// First probe slot of the Virtio MMIO window.
pub const MMIO_VIRTIO_START: u64 = 0x1000_1000;

/// Number of probe slots.
pub const MMIO_VIRTIO_DEVICES: usize = 8;

/// Byte stride between probe slots.
pub const MMIO_VIRTIO_STRIDE: u64 = 0x1000;

/// The magic value register must read `"virt"`, little endian.
pub const VIRTIO_MAGIC: u32 = 0x74726976;

/// The read-only device feature bit, cleared during negotiation.
pub const VIRTIO_BLK_F_RO: u32 = 0x20;

/// Descriptor flag: another descriptor chains after this one.
pub const VIRTQ_DESC_F_NEXT: u16 = 1;

/// Descriptor flag: the device writes this buffer.
pub const VIRTQ_DESC_F_WRITE: u16 = 2;

/// Block request type: read a sector into memory.
pub const VIRTIO_BLK_T_IN: u32 = 0;

/// Block request type: write a sector from memory.
pub const VIRTIO_BLK_T_OUT: u32 = 1;

/// Bytes of a block request header descriptor.
pub const DESCRIPTOR_HEADER_SIZE: u32 = 16;

/// The status byte a fresh request carries: a sentinel no device writes,
/// so `status != 0x7F` marks completion.
pub const STATUS_SENTINEL: u8 = 0x7F;

/// The registers of a Virtio MMIO slot, by offset.
#[derive(Clone, Copy)]
pub enum VirtioMmioRegister {
    MagicValue,
    Version,
    DeviceId,
    VendorId,
    HostFeatures,
    GuestFeatures,
    GuestPageSize,
    QueueSel,
    QueueNumMax,
    QueueNum,
    QueuePFN,
    QueueNotify,
    Status,
}

impl VirtioMmioRegister {
    pub open spec fn spec_offset(self) -> u64 {
        match self {
            VirtioMmioRegister::MagicValue => 0x00,
            VirtioMmioRegister::Version => 0x04,
            VirtioMmioRegister::DeviceId => 0x08,
            VirtioMmioRegister::VendorId => 0x0c,
            VirtioMmioRegister::HostFeatures => 0x10,
            VirtioMmioRegister::GuestFeatures => 0x20,
            VirtioMmioRegister::GuestPageSize => 0x28,
            VirtioMmioRegister::QueueSel => 0x30,
            VirtioMmioRegister::QueueNumMax => 0x34,
            VirtioMmioRegister::QueueNum => 0x38,
            VirtioMmioRegister::QueuePFN => 0x40,
            VirtioMmioRegister::QueueNotify => 0x50,
            VirtioMmioRegister::Status => 0x70,
        }
    }

    /// The register's byte offset in the slot's window.
    pub fn offset(self) -> (r: u64)
        ensures
            r == self.spec_offset(),
    {
        match self {
            VirtioMmioRegister::MagicValue => 0x00,
            VirtioMmioRegister::Version => 0x04,
            VirtioMmioRegister::DeviceId => 0x08,
            VirtioMmioRegister::VendorId => 0x0c,
            VirtioMmioRegister::HostFeatures => 0x10,
            VirtioMmioRegister::GuestFeatures => 0x20,
            VirtioMmioRegister::GuestPageSize => 0x28,
            VirtioMmioRegister::QueueSel => 0x30,
            VirtioMmioRegister::QueueNumMax => 0x34,
            VirtioMmioRegister::QueueNum => 0x38,
            VirtioMmioRegister::QueuePFN => 0x40,
            VirtioMmioRegister::QueueNotify => 0x50,
            VirtioMmioRegister::Status => 0x70,
        }
    }
}

/// The device status handshake bits.
#[derive(Clone, Copy)]
pub enum VirtioDeviceStatus {
    Reset,
    Acknowledge,
    Driver,
    DriverOk,
    FeaturesOk,
}

impl VirtioDeviceStatus {
    pub open spec fn spec_val(self) -> u32 {
        match self {
            VirtioDeviceStatus::Reset => 0x00,
            VirtioDeviceStatus::Acknowledge => 0x01,
            VirtioDeviceStatus::Driver => 0x02,
            VirtioDeviceStatus::DriverOk => 0x04,
            VirtioDeviceStatus::FeaturesOk => 0x08,
        }
    }

    pub fn val(self) -> (r: u32)
        ensures
            r == self.spec_val(),
    {
        match self {
            VirtioDeviceStatus::Reset => 0x00,
            VirtioDeviceStatus::Acknowledge => 0x01,
            VirtioDeviceStatus::Driver => 0x02,
            VirtioDeviceStatus::DriverOk => 0x04,
            VirtioDeviceStatus::FeaturesOk => 0x08,
        }
    }
}

/// What device discovery and the filesystem path can fail with.
#[derive(PartialEq, Eq, Structural, Clone, Copy, Debug)]
pub enum DeviceError {
    InvalidDevice,
    InitializationError,
    UnsupportedDevice(u32),
    EntryNotFound,
}

/// The base address of one probe slot's register window.
#[derive(Clone, Copy)]
pub struct DeviceAddress {
    pub address: u64,
}

impl DeviceAddress {
    pub fn new(address: u64) -> (r: DeviceAddress)
        ensures
            r.address == address,
    {
        DeviceAddress { address }
    }

    /// The physical address of one register of this slot.
    pub fn register_address(&self, register: VirtioMmioRegister) -> (r: u64)
        requires
            self.address + 0x70 <= u64::MAX,
        ensures
            r == self.address + register.spec_offset(),
    {
        self.address + register.offset()
    }
}

/// One split-queue descriptor: a guest address, a length, the `NEXT` and
/// `WRITE` flags, and the index of the chained descriptor.
#[derive(Clone, Copy, PartialEq, Eq, Structural, Debug)]
pub struct Descriptor {
    pub addr: u64,
    pub len: u32,
    pub flags: u16,
    pub next: u16,
}

/// The driver-owned available ring.
pub struct QueueAvailable {
    pub flags: u16,
    pub idx: u16,
    pub ring: Vec<u16>,
    pub event: u16,
}

/// One entry of the device-owned used ring.
#[derive(Clone, Copy)]
pub struct UsedElem {
    pub id: u32,
    pub len: u32,
}

/// The device-owned used ring.
pub struct QueueUsed {
    pub flags: u16,
    pub idx: u16,
    pub ring: Vec<UsedElem>,
    pub event: u16,
}

/// The three regions of the split queue. In device memory an alignment
/// pad separates the available and used rings; the pad carries no state,
/// so it is not held here.
pub struct SplitQueue {
    pub descriptor_table: Vec<Descriptor>,
    pub available: QueueAvailable,
    pub used: QueueUsed,
}

/// Bytes of padding between the available and the used ring in the
/// page-aligned in-memory layout of a 128-entry split queue: the
/// descriptor table takes `16 * 128` bytes and the available ring
/// `2 + 2 + 2 * 128 + 2`.
pub fn split_queue_padding() -> (r: usize)
    ensures
        r == (16 * 128 - 262) % 4096,
{
    (16 * VIRTIO_QUEUE_SIZE - 262) % 4096
}

impl SplitQueue {
    pub open spec fn wf(self) -> bool {
        &&& self.descriptor_table@.len() == VIRTIO_QUEUE_SIZE
        &&& self.available.ring@.len() == VIRTIO_QUEUE_SIZE
        &&& self.used.ring@.len() == VIRTIO_QUEUE_SIZE
    }

    /// A zeroed queue: every descriptor empty, both rings at index 0.
    pub fn new() -> (r: SplitQueue)
        ensures
            r.wf(),
            r.available.idx == 0,
            r.used.idx == 0,
            forall|i: int|
                0 <= i < VIRTIO_QUEUE_SIZE ==> r.descriptor_table@[i] == (Descriptor {
                    addr: 0,
                    len: 0,
                    flags: 0,
                    next: 0,
                }),
    {
        let mut descriptor_table: Vec<Descriptor> = Vec::new();
        let mut avail_ring: Vec<u16> = Vec::new();
        let mut used_ring: Vec<UsedElem> = Vec::new();
        let mut i: usize = 0;
        while i < VIRTIO_QUEUE_SIZE
            invariant
                i <= VIRTIO_QUEUE_SIZE,
                descriptor_table@.len() == i,
                avail_ring@.len() == i,
                used_ring@.len() == i,
                forall|k: int|
                    0 <= k < i ==> descriptor_table@[k] == (Descriptor {
                        addr: 0,
                        len: 0,
                        flags: 0,
                        next: 0,
                    }),
            decreases VIRTIO_QUEUE_SIZE - i,
        {
            descriptor_table.push(Descriptor { addr: 0, len: 0, flags: 0, next: 0 });
            avail_ring.push(0);
            used_ring.push(UsedElem { id: 0, len: 0 });
            i = i + 1;
        }
        SplitQueue {
            descriptor_table,
            available: QueueAvailable { flags: 0, idx: 0, ring: avail_ring, event: 0 },
            used: QueueUsed { flags: 0, idx: 0, ring: used_ring, event: 0 },
        }
    }
}

/// One in-flight block request: its header fields, the guest address of
/// its data buffer, and the status byte the device completes.
pub struct BlockRequest {
    pub req_type: u32,
    pub reserved: u32,
    pub sector: u64,
    pub data: u64,
    pub status: u8,
}

impl BlockRequest {
    /// A fresh request for the sector, reading into or writing from the
    /// buffer at `data`, with the status byte at its sentinel.
    pub fn new(data: u64, sector: u64, write: bool) -> (r: BlockRequest)
        ensures
            r.req_type == (if write {
                VIRTIO_BLK_T_OUT
            } else {
                VIRTIO_BLK_T_IN
            }),
            r.reserved == 0,
            r.sector == sector,
            r.data == data,
            r.status == STATUS_SENTINEL,
    {
        let req_type: u32 = if write {
            VIRTIO_BLK_T_OUT
        } else {
            VIRTIO_BLK_T_IN
        };
        BlockRequest { req_type, reserved: 0, sector, data, status: STATUS_SENTINEL }
    }

    /// The device has completed the request exactly when it overwrote the
    /// sentinel status byte.
    pub fn is_finished(&self) -> (r: bool)
        ensures
            r == (self.status != STATUS_SENTINEL),
    {
        self.status != STATUS_SENTINEL
    }
}

/// A negotiated block device: its register window, its split queue, and
/// the driver's and device's ring positions.
pub struct BlockDevice {
    pub address: DeviceAddress,
    pub queue: SplitQueue,
    pub driver_idx: usize,
    pub device_idx: usize,
    pub guest_features: u32,
}

impl BlockDevice {
    pub open spec fn wf(self) -> bool {
        &&& self.queue.wf()
        &&& self.driver_idx < VIRTIO_QUEUE_SIZE
    }

    /// The feature-negotiation decision: accept the host's features with
    /// the read-only bit cleared, and refuse the device if the status read
    /// back after `FEATURES_OK` no longer carries that bit.
    pub fn new(address: DeviceAddress, host_features: u32, status_readback: u32) -> (r: Result<
        BlockDevice,
        DeviceError,
    >)
        ensures
            status_readback & 0x08 == 0 ==> r == Err::<BlockDevice, DeviceError>(
                DeviceError::InitializationError,
            ),
            status_readback & 0x08 != 0 ==> (r is Ok && {
                let d = r->Ok_0;
                &&& d.wf()
                &&& d.address == address
                &&& d.driver_idx == 0
                &&& d.device_idx == 0
                &&& d.guest_features == host_features & !VIRTIO_BLK_F_RO
                &&& d.queue.available.idx == 0
            }),
    {
        let guest_features: u32 = host_features & !VIRTIO_BLK_F_RO;
        if status_readback & VirtioDeviceStatus::FeaturesOk.val() == 0 {
            return Err(DeviceError::InitializationError);
        }
        let queue = SplitQueue::new();
        Ok(BlockDevice { address, queue, driver_idx: 0, device_idx: 0, guest_features })
    }

    /// Places one descriptor at the driver's position and advances the
    /// position around the ring; a chained descriptor gets the `NEXT` flag
    /// and the index of its successor.
    pub fn queue_descriptor(&mut self, desc: Descriptor, has_next: bool)
        requires
            old(self).wf(),
        ensures
            final(self).wf(),
            final(self).driver_idx == (old(self).driver_idx + 1) % (VIRTIO_QUEUE_SIZE as int),
            final(self).queue.descriptor_table@ == old(self).queue.descriptor_table@.update(
                old(self).driver_idx as int,
                (Descriptor {
                    addr: desc.addr,
                    len: desc.len,
                    flags: (if has_next {
                        desc.flags | VIRTQ_DESC_F_NEXT
                    } else {
                        desc.flags
                    }),
                    next: (if has_next {
                        ((old(self).driver_idx + 1) % (VIRTIO_QUEUE_SIZE as int)) as u16
                    } else {
                        desc.next
                    }),
                }),
            ),
            final(self).queue.available == old(self).queue.available,
            final(self).queue.used == old(self).queue.used,
            final(self).address == old(self).address,
            final(self).device_idx == old(self).device_idx,
            final(self).guest_features == old(self).guest_features,
    {
        let mut desc = desc;
        if has_next {
            desc.next = ((self.driver_idx + 1) % VIRTIO_QUEUE_SIZE) as u16;
            desc.flags = desc.flags | VIRTQ_DESC_F_NEXT;
        }
        let table: &mut Vec<Descriptor> = &mut self.queue.descriptor_table;
        let slot: &mut Descriptor = &mut table[self.driver_idx];
        *slot = desc;
        self.driver_idx = (self.driver_idx + 1) % VIRTIO_QUEUE_SIZE;
    }

    /// Publishes the request whose chain was just queued: the chain's head
    /// index — three descriptors back — goes into the available ring, and
    /// the available index moves past it. Only after this store does the
    /// device own the chain.
    pub fn queue_available(&mut self)
        requires
            old(self).wf(),
        ensures
            final(self).wf(),
            final(self).queue.available.ring@ == old(self).queue.available.ring@.update(
                old(self).queue.available.idx as int % VIRTIO_QUEUE_SIZE as int,
                ((old(self).driver_idx + VIRTIO_QUEUE_SIZE - 3) % (VIRTIO_QUEUE_SIZE as int)) as u16,
            ),
            final(self).queue.available.idx == (old(self).queue.available.idx + 1) % 0x1_0000,
            final(self).queue.descriptor_table@ == old(self).queue.descriptor_table@,
            final(self).queue.used == old(self).queue.used,
            final(self).driver_idx == old(self).driver_idx,
            final(self).address == old(self).address,
            final(self).device_idx == old(self).device_idx,
            final(self).guest_features == old(self).guest_features,
    {
        let available_idx: u16 = self.queue.available.idx;
        let head: u16 = ((self.driver_idx + VIRTIO_QUEUE_SIZE - 3) % VIRTIO_QUEUE_SIZE) as u16;
        let slot_idx: usize = (available_idx as usize) % VIRTIO_QUEUE_SIZE;
        let ring: &mut Vec<u16> = &mut self.queue.available.ring;
        let slot: &mut u16 = &mut ring[slot_idx];
        *slot = head;
        if available_idx == 0xFFFF {
            self.queue.available.idx = 0;
        } else {
            self.queue.available.idx = available_idx + 1;
        }
    }

    /// Builds the three-descriptor chain of one block request — header,
    /// data, status — publishes its head in the available ring, and hands
    /// back the request record the chain points at.
    ///
    /// The caller supplies where the request header and the status byte
    /// will live (`request_addr`, `status_addr`) and where the data buffer
    /// is; the data descriptor is device-written exactly for a read. The
    /// sector is the byte offset divided by the sector size.
    pub fn new_request(
        &mut self,
        buffer: u64,
        size: u32,
        offset: u64,
        write: bool,
        request_addr: u64,
        status_addr: u64,
    ) -> (r: BlockRequest)
        requires
            old(self).wf(),
        ensures
            final(self).wf(),
            r.sector == offset / 512,
            r.req_type == (if write {
                VIRTIO_BLK_T_OUT
            } else {
                VIRTIO_BLK_T_IN
            }),
            r.reserved == 0,
            r.data == buffer,
            r.status == STATUS_SENTINEL,
            ({
                let d0 = old(self).driver_idx as int;
                let d1 = (old(self).driver_idx + 1) as int % VIRTIO_QUEUE_SIZE as int;
                let d2 = (old(self).driver_idx + 2) as int % VIRTIO_QUEUE_SIZE as int;
                &&& final(self).queue.descriptor_table@[d0] == (Descriptor {
                    addr: request_addr,
                    len: DESCRIPTOR_HEADER_SIZE,
                    flags: VIRTQ_DESC_F_NEXT,
                    next: d1 as u16,
                })
                &&& final(self).queue.descriptor_table@[d1] == (Descriptor {
                    addr: buffer,
                    len: size,
                    flags: (if write {
                        VIRTQ_DESC_F_NEXT
                    } else {
                        VIRTQ_DESC_F_NEXT | VIRTQ_DESC_F_WRITE
                    }),
                    next: d2 as u16,
                })
                &&& final(self).queue.descriptor_table@[d2] == (Descriptor {
                    addr: status_addr,
                    len: 1,
                    flags: VIRTQ_DESC_F_WRITE,
                    next: 0,
                })
                &&& final(self).driver_idx == (old(self).driver_idx + 3) % (VIRTIO_QUEUE_SIZE as int)
                &&& final(self).queue.available.ring@[old(self).queue.available.idx as int
                    % VIRTIO_QUEUE_SIZE as int] == d0 as u16
                &&& final(self).queue.available.idx == (old(self).queue.available.idx + 1)
                    % 0x1_0000
            }),
    {
        let sector: u64 = offset / 512;
        let request = BlockRequest::new(buffer, sector, write);
        let ghost d0 = self.driver_idx as int;
        let header_desc = Descriptor {
            addr: request_addr,
            len: DESCRIPTOR_HEADER_SIZE,
            flags: 0,
            next: 0,
        };
        self.queue_descriptor(header_desc, true);
        let data_flags: u16 = if write {
            0
        } else {
            VIRTQ_DESC_F_WRITE
        };
        let data_desc = Descriptor { addr: buffer, len: size, flags: data_flags, next: 0 };
        self.queue_descriptor(data_desc, true);
        let status_desc = Descriptor { addr: status_addr, len: 1, flags: VIRTQ_DESC_F_WRITE, next: 0 };
        self.queue_descriptor(status_desc, false);
        proof {
            assert(0u16 | 1 == 1u16 && 2u16 | 1 == 3u16 && 1u16 | 2 == 3u16) by (bit_vector);
            assert((d0 + 3) % 128 == self.driver_idx as int);
        }
        self.queue_available();
        request
    }
}

/// The probe-time face of one MMIO slot: the values its identification
/// registers read.
pub struct DeviceBuilder {
    pub address: DeviceAddress,
    pub magic: u32,
    pub version: u32,
    pub device_id: u32,
    pub host_features: u32,
    pub status_readback: u32,
}

impl DeviceBuilder {
    pub fn new(
        address: u64,
        magic: u32,
        version: u32,
        device_id: u32,
        host_features: u32,
        status_readback: u32,
    ) -> (r: DeviceBuilder)
        ensures
            r.address.address == address,
            r.magic == magic,
            r.version == version,
            r.device_id == device_id,
            r.host_features == host_features,
            r.status_readback == status_readback,
    {
        let address = DeviceAddress::new(address);
        DeviceBuilder { address, magic, version, device_id, host_features, status_readback }
    }

    /// A slot holds a device when its magic register reads `"virt"` and
    /// its version register reads 1.
    pub fn valid(&self) -> (r: bool)
        ensures
            r == (self.magic == VIRTIO_MAGIC && self.version == 1),
    {
        self.magic == VIRTIO_MAGIC && self.version == 1
    }

    /// The probe decision: an invalid slot is refused, a device id other
    /// than 2 (a block device) is unsupported, and a block device goes
    /// through feature negotiation.
    pub fn init_driver(self) -> (r: Result<BlockDevice, DeviceError>)
        ensures
            !(self.magic == VIRTIO_MAGIC && self.version == 1) ==> r == Err::<
                BlockDevice,
                DeviceError,
            >(DeviceError::InvalidDevice),
            (self.magic == VIRTIO_MAGIC && self.version == 1 && self.device_id != 2) ==> r == Err::<
                BlockDevice,
                DeviceError,
            >(DeviceError::UnsupportedDevice(self.device_id)),
            (self.magic == VIRTIO_MAGIC && self.version == 1 && self.device_id == 2) ==> (
            if self.status_readback & 0x08 == 0 {
                r == Err::<BlockDevice, DeviceError>(DeviceError::InitializationError)
            } else {
                r is Ok && r->Ok_0.wf() && r->Ok_0.guest_features == self.host_features
                    & !VIRTIO_BLK_F_RO && r->Ok_0.driver_idx == 0 && r->Ok_0.address == self.address
            }),
    {
        if !self.valid() {
            return Err(DeviceError::InvalidDevice);
        }
        if self.device_id == 2 {
            BlockDevice::new(self.address, self.host_features, self.status_readback)
        } else {
            Err(DeviceError::UnsupportedDevice(self.device_id))
        }
    }
}

} // verus!

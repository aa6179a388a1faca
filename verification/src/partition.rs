//! The MBR partition table: a 512-byte boot sector whose signature bytes
//! sit at `0x1FE`/`0x1FF` and whose four 16-byte entries describe the
//! partitions.

use vstd::prelude::*;

verus! {

/// Bytes of one disk sector.
pub const SECTOR_SIZE: usize = 512;

/// The partition types the kernel tells apart: free, Linux (`0x83`), and
/// everything else.
#[derive(Debug, PartialEq, Eq, Structural, Clone, Copy)]
pub enum PartitionType {
    Free,
    Linux,
    Unsupported,
}

/// The partition type a type byte names.
pub open spec fn spec_partition_type(item: u8) -> PartitionType {
    if item == 0 {
        PartitionType::Free
    } else if item == 0x83 {
        PartitionType::Linux
    } else {
        PartitionType::Unsupported
    }
}

impl From<u8> for PartitionType {
    fn from(item: u8) -> (r: PartitionType) {
        match item {
            0 => PartitionType::Free,
            0x83 => PartitionType::Linux,
            _ => PartitionType::Unsupported,
        }
    }
}

impl vstd::std_specs::convert::FromSpecImpl<u8> for PartitionType {
    open spec fn obeys_from_spec() -> bool {
        true
    }

    open spec fn from_spec(item: u8) -> PartitionType {
        spec_partition_type(item)
    }
}

/// One boot sector, as read from the first sector of a disk.
pub struct PartitionTable {
    pub data: Vec<u8>,
}

/// What one 16-byte partition entry holds.
pub struct PartitionInfo {
    pub initial_sector: u32,
    pub size: u32,
    pub partition_type: PartitionType,
    pub booteable: bool,
}

/// The little-endian 32-bit number at `off`.
pub open spec fn le32(s: Seq<u8>, off: int) -> int {
    s[off] + 0x100 * s[off + 1] + 0x1_0000 * s[off + 2] + 0x100_0000 * s[off + 3]
}

/// Byte offset of the 16-byte entry of partition `p`, for `p` in `1..=4`.
pub open spec fn partition_entry_offset(p: int) -> int {
    0x1AE + p * 0x10
}

impl PartitionTable {
    pub open spec fn wf(self) -> bool {
        self.data@.len() == SECTOR_SIZE
    }

    pub fn new(data: Vec<u8>) -> (r: PartitionTable)
        requires
            data@.len() == SECTOR_SIZE,
        ensures
            r.wf(),
            r.data@ == data@,
    {
        PartitionTable { data }
    }

    /// The sector carries the MBR signature exactly when its final two
    /// bytes are `0x55, 0xAA`.
    pub fn is_mbr(&self) -> (r: bool)
        requires
            self.wf(),
        ensures
            r == (self.data@[0x1FE] == 0x55 && self.data@[0x1FF] == 0xAA),
    {
        self.data[0x1FE] == 0x55 && self.data[0x1FF] == 0xAA
    }

    /// Decodes entry `partition` (numbered 1 to 4): the bootable flag from
    /// the entry's first byte, the type from its fifth, and the first
    /// sector and sector count as little-endian words at bytes 8 and 12.
    pub fn get_partition_info(&self, partition: u8) -> (r: PartitionInfo)
        requires
            self.wf(),
            1 <= partition <= 4,
        ensures
            r.booteable == (self.data@[partition_entry_offset(partition as int)] == 0x80),
            r.partition_type == spec_partition_type(
                self.data@[partition_entry_offset(partition as int) + 4],
            ),
            r.initial_sector == le32(self.data@, partition_entry_offset(partition as int) + 8),
            r.size == le32(self.data@, partition_entry_offset(partition as int) + 12),
    {
        let partition_address: usize = 0x1AE + (partition as usize) * 0x10;
        let booteable: bool = self.data[partition_address] == 0x80;
        let partition_type = PartitionType::from(self.data[partition_address + 4]);
        proof {
            assert(partition_type == spec_partition_type(
                self.data@[partition_entry_offset(partition as int) + 4],
            ));
        }
        let initial_sector: u32 = read_le32(&self.data, partition_address + 8);
        let size: u32 = read_le32(&self.data, partition_address + 12);
        PartitionInfo { booteable, partition_type, initial_sector, size }
    }
}

/// Assembles the little-endian 32-bit number at `off`.
pub fn read_le32(data: &Vec<u8>, off: usize) -> (r: u32)
    requires
        off + 4 <= data@.len(),
    ensures
        r == le32(data@, off as int),
{
    let n: usize = data.len();
    (data[off] as u32) + 0x100 * (data[off + 1] as u32) + 0x1_0000 * (data[off + 2] as u32)
        + 0x100_0000 * (data[off + 3] as u32)
}

} // verus!

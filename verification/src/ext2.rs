//! The read-only EXT2 path: superblock, block-group descriptors, inodes,
//! data blocks and directory entries, all decoded from the raw bytes of
//! the disk.
//!
//! The partition holds the disk image as bytes; in the kernel those bytes
//! arrive sector by sector from the block device, and every offset
//! computed here is exactly the offset the kernel asks the device for.

use vstd::prelude::*;

verus! {

use crate::partition::{le32, read_le32, SECTOR_SIZE};
use crate::virtio::DeviceError;

/// Direct block pointers in an inode; entry 12 is the single-indirect and
/// entry 13 the double-indirect pointer block.
pub const INODE_SINGLE_INDIRECT: usize = 12;

pub const INODE_DOUBLE_INDIRECT: usize = 13;

pub const INODE_TRIPLE_INDIRECT: usize = 14;

/// The root directory's inode id.
pub const ROOT_INODE: u64 = 2;

/// The little-endian 16-bit number at `off`.
pub open spec fn le16(s: Seq<u8>, off: int) -> int {
    s[off] + 0x100 * s[off + 1]
}

/// Assembles the little-endian 16-bit number at `off`.
pub fn read_le16(data: &Vec<u8>, off: usize) -> (r: u16)
    requires
        off + 2 <= data@.len(),
    ensures
        r == le16(data@, off as int),
{
    let n: usize = data.len();
    (data[off] as u16) + 0x100 * (data[off + 1] as u16)
}

/// The file type byte of a directory entry.
#[derive(PartialEq, Eq, Structural, Clone, Copy, Debug)]
pub enum Ext2Filetype {
    Unknown,
    RegFile,
    Dir,
    Chrdev,
    Blkdev,
    Fifo,
    Sock,
    Symlink,
}

/// The file type a directory entry's type byte names.
pub open spec fn spec_filetype(b: u8) -> Ext2Filetype {
    if b == 1 {
        Ext2Filetype::RegFile
    } else if b == 2 {
        Ext2Filetype::Dir
    } else if b == 3 {
        Ext2Filetype::Chrdev
    } else if b == 4 {
        Ext2Filetype::Blkdev
    } else if b == 5 {
        Ext2Filetype::Fifo
    } else if b == 6 {
        Ext2Filetype::Sock
    } else if b == 7 {
        Ext2Filetype::Symlink
    } else {
        Ext2Filetype::Unknown
    }
}

/// The superblock fields the kernel reads, plus the identification fields
/// around them; all little-endian on disk, at partition offset 1024.
pub struct Superblock {
    pub s_inodes_count: u32,
    pub s_blocks_count_lo: u32,
    pub s_free_blocks_count_lo: u32,
    pub s_free_inodes_count: u32,
    pub s_first_data_block: u32,
    pub s_log_block_size: u32,
    pub s_blocks_per_group: u32,
    pub s_inodes_per_group: u32,
    pub s_magic: u16,
    pub s_inode_size: u16,
}

/// The superblock's fields decode from the bytes at `off`.
pub open spec fn superblock_matches(sb: Superblock, s: Seq<u8>, off: int) -> bool {
    &&& sb.s_inodes_count == le32(s, off)
    &&& sb.s_blocks_count_lo == le32(s, off + 4)
    &&& sb.s_free_blocks_count_lo == le32(s, off + 12)
    &&& sb.s_free_inodes_count == le32(s, off + 16)
    &&& sb.s_first_data_block == le32(s, off + 20)
    &&& sb.s_log_block_size == le32(s, off + 24)
    &&& sb.s_blocks_per_group == le32(s, off + 32)
    &&& sb.s_inodes_per_group == le32(s, off + 40)
    &&& sb.s_magic == le16(s, off + 56)
    &&& sb.s_inode_size == le16(s, off + 88)
}

impl Superblock {
    /// The block sizes this driver accepts: 1 KiB through 8 KiB.
    pub open spec fn sane(self) -> bool {
        &&& self.s_log_block_size <= 3
        &&& self.s_inodes_per_group >= 1
        &&& self.s_inode_size >= 128
    }

    pub open spec fn spec_block_size(self) -> u64 {
        if self.s_log_block_size == 0 {
            1024
        } else if self.s_log_block_size == 1 {
            2048
        } else if self.s_log_block_size == 2 {
            4096
        } else {
            8192
        }
    }

    /// The block size: `1024` shifted left by `s_log_block_size`.
    pub fn get_block_size(&self) -> (r: u64)
        requires
            self.sane(),
        ensures
            r == self.spec_block_size(),
    {
        if self.s_log_block_size == 0 {
            1024
        } else if self.s_log_block_size == 1 {
            2048
        } else if self.s_log_block_size == 2 {
            4096
        } else {
            8192
        }
    }
}

/// One block-group descriptor.
pub struct BlockGroup {
    pub bg_block_bitmap: u32,
    pub bg_inode_bitmap: u32,
    pub bg_inode_table: u32,
    pub bg_free_blocks_count: u16,
    pub bg_free_inodes_count: u16,
    pub bg_used_dirs_count: u16,
}

pub open spec fn block_group_matches(bg: BlockGroup, s: Seq<u8>, off: int) -> bool {
    &&& bg.bg_block_bitmap == le32(s, off)
    &&& bg.bg_inode_bitmap == le32(s, off + 4)
    &&& bg.bg_inode_table == le32(s, off + 8)
    &&& bg.bg_free_blocks_count == le16(s, off + 12)
    &&& bg.bg_free_inodes_count == le16(s, off + 14)
    &&& bg.bg_used_dirs_count == le16(s, off + 16)
}

/// An on-disk inode: its mode, size, and the fifteen block pointers.
pub struct Inode {
    pub i_mode: u16,
    pub i_uid: u16,
    pub i_size: u32,
    pub i_gid: u16,
    pub i_links_count: u16,
    pub i_blocks: u32,
    pub i_flags: u32,
    pub i_block: Vec<u32>,
}

pub open spec fn inode_matches(ino: Inode, s: Seq<u8>, off: int) -> bool {
    &&& ino.i_mode == le16(s, off)
    &&& ino.i_uid == le16(s, off + 2)
    &&& ino.i_size == le32(s, off + 4)
    &&& ino.i_gid == le16(s, off + 24)
    &&& ino.i_links_count == le16(s, off + 26)
    &&& ino.i_blocks == le32(s, off + 28)
    &&& ino.i_flags == le32(s, off + 32)
    &&& ino.i_block@.len() == 15
    &&& forall|k: int| 0 <= k < 15 ==> ino.i_block@[k] == le32(s, off + 40 + 4 * k)
}

/// One data block read from the partition.
pub struct DataBlock {
    pub data: Vec<u8>,
}

/// One directory record, without its name bytes.
#[derive(PartialEq, Eq, Structural, Clone, Copy, Debug)]
pub struct DirectoryEntry {
    pub inode: u32,
    pub rec_len: u16,
    pub name_len: u8,
    pub file_type: u8,
}

impl DirectoryEntry {
    /// The entry's file type, decoded from its type byte.
    pub fn filetype(&self) -> (r: Ext2Filetype)
        ensures
            r == spec_filetype(self.file_type),
    {
        if self.file_type == 1 {
            Ext2Filetype::RegFile
        } else if self.file_type == 2 {
            Ext2Filetype::Dir
        } else if self.file_type == 3 {
            Ext2Filetype::Chrdev
        } else if self.file_type == 4 {
            Ext2Filetype::Blkdev
        } else if self.file_type == 5 {
            Ext2Filetype::Fifo
        } else if self.file_type == 6 {
            Ext2Filetype::Sock
        } else if self.file_type == 7 {
            Ext2Filetype::Symlink
        } else {
            Ext2Filetype::Unknown
        }
    }
}

/// The fixed head of the directory record at `off`.
pub open spec fn dir_entry_matches(e: DirectoryEntry, s: Seq<u8>, off: int) -> bool {
    &&& e.inode == le32(s, off)
    &&& e.rec_len == le16(s, off + 4)
    &&& e.name_len == s[off + 6]
    &&& e.file_type == s[off + 7]
}

/// Walks the records of one directory block, `rec_len` at a time.
pub struct DirectoryIterator {
    pub offset: usize,
}

impl DataBlock {
    /// A fresh record walk over this block.
    pub fn iter_directories(&self) -> (r: DirectoryIterator)
        ensures
            r.offset == 0,
    {
        DirectoryIterator { offset: 0 }
    }
}

impl DirectoryIterator {
    /// The next directory record of `block` and its name, or `None` when
    /// the walk is over: at a truncated record, at a record of length
    /// zero, or at one that would run past the block's end — the walk
    /// never advances past the block.
    pub fn next(&mut self, block: &DataBlock) -> (r: Option<(DirectoryEntry, Vec<u8>)>)
        ensures
            match r {
                None => *final(self) == *old(self),
                Some((entry, name)) => {
                    let off = old(self).offset as int;
                    &&& off + 8 <= block.data@.len()
                    &&& dir_entry_matches(entry, block.data@, off)
                    &&& entry.rec_len >= 8
                    &&& off + entry.rec_len <= block.data@.len()
                    &&& off + 8 + entry.name_len <= block.data@.len()
                    &&& name@ == block.data@.subrange(off + 8, off + 8 + entry.name_len)
                    &&& final(self).offset == off + entry.rec_len
                },
            },
            r is None <==> (old(self).offset + 8 > block.data@.len() || le16(
                block.data@,
                old(self).offset + 4,
            ) < 8 || old(self).offset + le16(block.data@, old(self).offset + 4)
                > block.data@.len() || old(self).offset + 8 + block.data@[old(self).offset + 6]
                > block.data@.len()),
    {
        let n: usize = block.data.len();
        if n < 8 || self.offset > n - 8 {
            return None;
        }
        let inode: u32 = read_le32(&block.data, self.offset);
        let rec_len: u16 = read_le16(&block.data, self.offset + 4);
        let name_len: u8 = block.data[self.offset + 6];
        let file_type: u8 = block.data[self.offset + 7];
        if rec_len < 8 {
            return None;
        }
        if (rec_len as usize) > n - self.offset {
            return None;
        }
        if (name_len as usize) > n - self.offset - 8 {
            return None;
        }
        let entry = DirectoryEntry { inode, rec_len, name_len, file_type };
        let mut name: Vec<u8> = Vec::new();
        let mut i: usize = 0;
        while i < name_len as usize
            invariant
                i <= name_len as usize,
                old(self).offset + 8 + name_len <= n == block.data@.len(),
                name@.len() == i,
                self.offset == old(self).offset,
                forall|k: int| 0 <= k < i ==> name@[k] == block.data@[old(self).offset + 8 + k],
            decreases name_len as usize - i,
        {
            name.push(block.data[self.offset + 8 + i]);
            i = i + 1;
        }
        proof {
            assert(name@ =~= block.data@.subrange(
                old(self).offset + 8,
                old(self).offset + 8 + name_len,
            ));
        }
        self.offset = self.offset + rec_len as usize;
        Some((entry, name))
    }
}

/// A mounted EXT2 partition: the device's bytes and where the partition
/// starts on it.
pub struct LinuxPartition {
    pub disk: Vec<u8>,
    pub first_sector: u64,
    pub superblock: Superblock,
}

impl LinuxPartition {
    /// Byte offset of the partition on the disk.
    pub open spec fn part_off(self) -> int {
        self.first_sector as int * 512
    }

    pub open spec fn wf(self) -> bool {
        &&& self.first_sector < 0x1_0000_0000
        &&& superblock_matches(self.superblock, self.disk@, self.part_off() + 1024)
        &&& self.superblock.sane()
        &&& self.part_off() + 1024 + 92 <= self.disk@.len()
    }

    pub open spec fn spec_bs(self) -> int {
        self.superblock.spec_block_size() as int
    }

    /// Byte offset, on the disk, where data block `id` starts: blocks are
    /// counted from the start of the partition, and the first 2048 bytes —
    /// boot record, superblock and group descriptors on the smallest block
    /// size — are never treated as a data block.
    pub open spec fn spec_block_offset(self, id: int) -> int {
        self.part_off() + (if 2048 >= self.spec_bs() * id {
            2048
        } else {
            self.spec_bs() * id
        })
    }

    /// Reads the superblock of the partition that starts at `first_sector`
    /// and keeps the disk. Refused when the superblock's sector is not on
    /// the disk or its parameters are outside what this driver accepts.
    pub fn new(disk: Vec<u8>, first_sector: u64) -> (r: Result<LinuxPartition, DeviceError>)
        requires
            first_sector < 0x1_0000_0000,
        ensures
            match r {
                Ok(p) => {
                    &&& p.wf()
                    &&& p.disk@ == disk@
                    &&& p.first_sector == first_sector
                    &&& (first_sector + 2) * 512 + 512 <= disk@.len()
                },
                Err(e) => {
                    &&& e == DeviceError::InitializationError
                    &&& ((first_sector + 2) * 512 + 512 > disk@.len() || !(exists|sb: Superblock|
                        superblock_matches(sb, disk@, first_sector as int * 512 + 1024)
                            && sb.sane()))
                },
            },
    {
        let offset: u64 = (first_sector + 2) * (SECTOR_SIZE as u64);
        let n: usize = disk.len();
        if n < 512 || offset > (n as u64) - 512 {
            return Err(DeviceError::InitializationError);
        }
        let off: usize = offset as usize;
        let superblock = Superblock {
            s_inodes_count: read_le32(&disk, off),
            s_blocks_count_lo: read_le32(&disk, off + 4),
            s_free_blocks_count_lo: read_le32(&disk, off + 12),
            s_free_inodes_count: read_le32(&disk, off + 16),
            s_first_data_block: read_le32(&disk, off + 20),
            s_log_block_size: read_le32(&disk, off + 24),
            s_blocks_per_group: read_le32(&disk, off + 32),
            s_inodes_per_group: read_le32(&disk, off + 40),
            s_magic: read_le16(&disk, off + 56),
            s_inode_size: read_le16(&disk, off + 88),
        };
        if !(superblock.s_log_block_size <= 3 && superblock.s_inodes_per_group >= 1
            && superblock.s_inode_size >= 128) {
            proof {
                assert forall|sb: Superblock|
                    superblock_matches(sb, disk@, first_sector as int * 512 + 1024)
                    implies !sb.sane() by {
                    assert(sb.s_log_block_size == superblock.s_log_block_size
                        && sb.s_inodes_per_group == superblock.s_inodes_per_group
                        && sb.s_inode_size == superblock.s_inode_size);
                }
            }
            return Err(DeviceError::InitializationError);
        }
        Ok(LinuxPartition { disk, first_sector, superblock })
    }

    pub fn get_block_size(&self) -> (r: u64)
        requires
            self.wf(),
        ensures
            r == self.spec_bs(),
    {
        self.superblock.get_block_size()
    }

    /// Reads `len` bytes at the partition-relative `offset`, as the kernel
    /// reads them through the enclosing 512-byte sector: the read must not
    /// cross a sector boundary and the sector must be on the disk.
    fn read_from_offset(&self, offset: u64, len: usize) -> (r: Result<Vec<u8>, DeviceError>)
        requires
            self.wf(),
            offset <= 0x1000_0000_0000,
            len <= 512,
        ensures
            r is Ok <==> (self.part_off() + offset + len <= self.disk@.len() && (self.part_off()
                + offset) % 512 + len <= 512),
            r is Err ==> r == Err::<Vec<u8>, DeviceError>(DeviceError::InvalidDevice),
            r is Ok ==> r->Ok_0@ == self.disk@.subrange(
                self.part_off() + offset,
                self.part_off() + offset + len,
            ),
    {
        let abs: u64 = self.first_sector * 512 + offset;
        let n: usize = self.disk.len();
        if abs + (len as u64) > n as u64 || abs % 512 + (len as u64) > 512 {
            return Err(DeviceError::InvalidDevice);
        }
        let start: usize = abs as usize;
        let mut out: Vec<u8> = Vec::new();
        let mut i: usize = 0;
        while i < len
            invariant
                i <= len,
                start + len <= n == self.disk@.len(),
                out@.len() == i,
                forall|k: int| 0 <= k < i ==> out@[k] == self.disk@[start + k],
            decreases len - i,
        {
            out.push(self.disk[start + i]);
            i = i + 1;
        }
        proof {
            assert(out@ =~= self.disk@.subrange(start as int, start + len));
        }
        Ok(out)
    }

    /// Reads one whole data block.
    pub fn read_datablock(&self, block_id: u64) -> (r: Result<DataBlock, DeviceError>)
        requires
            self.wf(),
            block_id < 0x1_0000_0000,
        ensures
            r is Ok <==> self.spec_block_offset(block_id as int) + self.spec_bs()
                <= self.disk@.len(),
            r is Err ==> r == Err::<DataBlock, DeviceError>(DeviceError::InvalidDevice),
            r is Ok ==> r->Ok_0.data@ == self.disk@.subrange(
                self.spec_block_offset(block_id as int),
                self.spec_block_offset(block_id as int) + self.spec_bs(),
            ) && r->Ok_0.data@.len() == self.spec_bs(),
    {
        let bs: u64 = self.get_block_size();
        let rel: u64 = if 2048 >= bs * block_id {
            2048
        } else {
            bs * block_id
        };
        let abs: u64 = self.first_sector * 512 + rel;
        let n: usize = self.disk.len();
        if abs + bs > n as u64 {
            return Err(DeviceError::InvalidDevice);
        }
        let start: usize = abs as usize;
        let len: usize = bs as usize;
        let mut out: Vec<u8> = Vec::new();
        let mut i: usize = 0;
        while i < len
            invariant
                i <= len,
                start + len <= n == self.disk@.len(),
                out@.len() == i,
                forall|k: int| 0 <= k < i ==> out@[k] == self.disk@[start + k],
            decreases len - i,
        {
            out.push(self.disk[start + i]);
            i = i + 1;
        }
        proof {
            assert(out@ =~= self.disk@.subrange(start as int, start + len));
        }
        Ok(DataBlock { data: out })
    }

    /// Disk offset of the block-group descriptor that covers `inode_id`:
    /// descriptor `g` lives in the `(g + 2)`-th block, read with the
    /// 2048-byte floor that protects the superblock region.
    pub open spec fn spec_group_desc_offset(self, inode_id: int) -> int {
        let g = (inode_id - 1) / self.superblock.s_inodes_per_group as int;
        self.part_off() + (if 2048 >= self.spec_bs() * (g + 1) {
            2048
        } else {
            self.spec_bs() * (g + 1)
        })
    }

    /// Disk offset of inode `inode_id`, through its group's inode table.
    pub open spec fn spec_inode_offset(self, inode_id: int) -> int {
        let table = le32(self.disk@, self.spec_group_desc_offset(inode_id) + 8);
        self.part_off() + table * self.spec_bs() + (inode_id - 1)
            * self.superblock.s_inode_size as int
    }

    /// The group-descriptor read and the inode read both land on the
    /// disk, inside one sector each, and the offsets stay in the range the
    /// driver's arithmetic covers.
    pub open spec fn spec_inode_readable(self, inode_id: int) -> bool {
        let goff = self.spec_group_desc_offset(inode_id);
        let ioff = self.spec_inode_offset(inode_id);
        &&& (inode_id - 1) / self.superblock.s_inodes_per_group as int <= 0xFFF_FFFF
        &&& goff + 32 <= self.disk@.len()
        &&& goff % 512 + 32 <= 512
        &&& ioff - self.part_off() <= 0x1000_0000_0000 - 512
        &&& ioff + 128 <= self.disk@.len()
        &&& ioff % 512 + 128 <= 512
    }

    /// Reads inode `inode_id` (1-based): first the group descriptor, then
    /// the inode record from the group's inode table. It succeeds exactly
    /// when both records are on the disk.
    pub fn read_inode(&self, inode_id: u64) -> (r: Result<Inode, DeviceError>)
        requires
            self.wf(),
            1 <= inode_id < 0x1_0000_0000,
        ensures
            r is Ok <==> self.spec_inode_readable(inode_id as int),
            r is Ok ==> inode_matches(
                r->Ok_0,
                self.disk@,
                self.spec_inode_offset(inode_id as int),
            ),
            r is Err ==> r == Err::<Inode, DeviceError>(DeviceError::InvalidDevice),
    {
        let bs: u64 = self.get_block_size();
        proof {
            assert(bs <= 8192);
        }
        let ipg: u64 = self.superblock.s_inodes_per_group as u64;
        let g: u64 = (inode_id - 1) / ipg;
        if g > 0xFFF_FFFF {
            return Err(DeviceError::InvalidDevice);
        }
        let rel: u64 = if 2048 >= bs * (g + 1) {
            2048
        } else {
            bs * (g + 1)
        };
        let group_bytes = match self.read_from_offset(rel, 32) {
            Ok(b) => b,
            Err(e) => {
                return Err(DeviceError::InvalidDevice);
            },
        };
        let bg_inode_table: u32 = read_le32(&group_bytes, 8);
        proof {
            assert(self.spec_group_desc_offset(inode_id as int) == self.part_off() + rel);
            assert(bg_inode_table == le32(
                self.disk@,
                self.spec_group_desc_offset(inode_id as int) + 8,
            ));
        }
        proof {
            assert(bg_inode_table as u64 * bs <= 0xFFFF_FFFFu64 * 8192) by (nonlinear_arith)
                requires
                    0 <= bg_inode_table <= 0xFFFF_FFFF,
                    0 <= bs <= 8192,
            ;
            assert((inode_id - 1) * (self.superblock.s_inode_size as u64) < 0x1_0000_0000u64
                * 0x1_0000) by (nonlinear_arith)
                requires
                    1 <= inode_id < 0x1_0000_0000,
                    0 <= self.superblock.s_inode_size < 0x1_0000,
            ;
        }
        let inode_rel: u64 = (bg_inode_table as u64) * bs + (inode_id - 1) * (
        self.superblock.s_inode_size as u64);
        if inode_rel > 0x1000_0000_0000 - 512 {
            return Err(DeviceError::InvalidDevice);
        }
        let inode_bytes = match self.read_from_offset(inode_rel, 128) {
            Ok(b) => b,
            Err(e) => {
                return Err(DeviceError::InvalidDevice);
            },
        };
        let mut i_block: Vec<u32> = Vec::new();
        let mut k: usize = 0;
        while k < 15
            invariant
                k <= 15,
                inode_bytes@.len() == 128,
                i_block@.len() == k,
                forall|j: int| 0 <= j < k ==> i_block@[j] == le32(inode_bytes@, 40 + 4 * j),
            decreases 15 - k,
        {
            let v: u32 = read_le32(&inode_bytes, 40 + 4 * k);
            i_block.push(v);
            k = k + 1;
        }
        let ino = Inode {
            i_mode: read_le16(&inode_bytes, 0),
            i_uid: read_le16(&inode_bytes, 2),
            i_size: read_le32(&inode_bytes, 4),
            i_gid: read_le16(&inode_bytes, 24),
            i_links_count: read_le16(&inode_bytes, 26),
            i_blocks: read_le32(&inode_bytes, 28),
            i_flags: read_le32(&inode_bytes, 32),
            i_block,
        };
        proof {
            let ioff = self.spec_inode_offset(inode_id as int);
            assert(ioff == self.part_off() + inode_rel);
            assert forall|j: int| 0 <= j < 128 implies inode_bytes@[j] == self.disk@[ioff + j] by {}
        }
        Ok(ino)
    }

    /// The root directory's inode.
    pub fn read_root(&self) -> (r: Result<Inode, DeviceError>)
        requires
            self.wf(),
        ensures
            r is Ok <==> self.spec_inode_readable(ROOT_INODE as int),
            r is Ok ==> inode_matches(r->Ok_0, self.disk@, self.spec_inode_offset(ROOT_INODE as int)),
            r is Err ==> r == Err::<Inode, DeviceError>(DeviceError::InvalidDevice),
    {
        self.read_inode(ROOT_INODE)
    }

    /// The inode a directory entry names.
    pub fn get_inode_for_entry(&self, entry: DirectoryEntry) -> (r: Result<Inode, DeviceError>)
        requires
            self.wf(),
            entry.inode >= 1,
        ensures
            r is Ok <==> self.spec_inode_readable(entry.inode as int),
            r is Ok ==> inode_matches(r->Ok_0, self.disk@, self.spec_inode_offset(entry.inode as int)),
            r is Err ==> r == Err::<Inode, DeviceError>(DeviceError::InvalidDevice),
    {
        self.read_inode(entry.inode as u64)
    }

    /// A block walk over the inode's data, starting at its first block.
    pub fn get_inode_block_iterator(&self, inode: Inode) -> (r: InodeBlockIterator)
        ensures
            r.inode == inode,
            r.current_idx == 0,
    {
        InodeBlockIterator { inode, current_idx: 0 }
    }
}

/// Pointers per indirect block.
pub open spec fn spec_entries_per_block(p: LinuxPartition) -> int {
    p.spec_bs() / 4
}

/// The id of the `n`-th data block of a file whose fifteen block pointers
/// are `iblocks`, through the direct, single- and double-indirect
/// pointers; `None` when a pointer block cannot be read. The
/// triple-indirect range is not supported.
pub open spec fn spec_block_id(p: LinuxPartition, iblocks: Seq<u32>, n: int) -> Option<u32> {
    let e = spec_entries_per_block(p);
    if n < 12 {
        Some(iblocks[n])
    } else if n < 12 + e {
        let ib = iblocks[12] as int;
        if p.spec_block_offset(ib) + p.spec_bs() <= p.disk@.len() && (n - 12) * 4 + 4
            <= p.spec_bs() {
            Some(le32(p.disk@, p.spec_block_offset(ib) + (n - 12) * 4) as u32)
        } else {
            None
        }
    } else {
        let ib = iblocks[13] as int;
        let outer = (n - 12 - e) / e;
        if p.spec_block_offset(ib) + p.spec_bs() <= p.disk@.len() && outer * 4 + 4 <= p.spec_bs() {
            let pointer_block = le32(p.disk@, p.spec_block_offset(ib) + outer * 4);
            let inner = (n - 12) % e;
            if p.spec_block_offset(pointer_block) + p.spec_bs() <= p.disk@.len() && inner * 4 + 4
                <= p.spec_bs() {
                Some(le32(p.disk@, p.spec_block_offset(pointer_block) + inner * 4) as u32)
            } else {
                None
            }
        } else {
            None
        }
    }
}

/// Walks a file's data blocks in order.
pub struct InodeBlockIterator {
    pub inode: Inode,
    pub current_idx: usize,
}

impl InodeBlockIterator {
    /// The id of the `block_no`-th data block of the file.
    pub fn get_block_id(&self, p: &LinuxPartition, block_no: usize) -> (r: Option<u32>)
        requires
            p.wf(),
            self.inode.i_block@.len() == 15,
            block_no < 12 + spec_entries_per_block(*p) + spec_entries_per_block(*p)
                * spec_entries_per_block(*p),
        ensures
            r == spec_block_id(*p, self.inode.i_block@, block_no as int),
    {
        let bs: u64 = p.get_block_size();
        proof {
            assert(bs <= 8192);
        }
        let entries: usize = (bs / 4) as usize;
        proof {
            assert(256 <= entries <= 2048);
            assert(block_no < 12 + entries + entries * entries && entries * entries <= 2048 * 2048)
                by (nonlinear_arith)
                requires
                    block_no < 12 + spec_entries_per_block(*p) + spec_entries_per_block(*p)
                        * spec_entries_per_block(*p),
                    entries == spec_entries_per_block(*p),
                    256 <= entries <= 2048,
            ;
        }
        if block_no < INODE_SINGLE_INDIRECT {
            return Some(self.inode.i_block[block_no]);
        }
        if block_no < INODE_SINGLE_INDIRECT + entries {
            let indirect_block_id: u32 = self.inode.i_block[INODE_SINGLE_INDIRECT];
            let data_block = match p.read_datablock(indirect_block_id as u64) {
                Ok(b) => b,
                Err(e) => {
                    return None;
                },
            };
            let offset: usize = (block_no - INODE_SINGLE_INDIRECT) * 4;
            if offset + 4 > data_block.data.len() {
                return None;
            }
            return Some(read_le32(&data_block.data, offset));
        }
        let indirect_block_id: u32 = self.inode.i_block[INODE_DOUBLE_INDIRECT];
        let pointer_offset: usize = (block_no - INODE_SINGLE_INDIRECT - entries) / entries;
        proof {
            assert(pointer_offset < entries) by (nonlinear_arith)
                requires
                    pointer_offset == (block_no - 12 - entries) / entries as int,
                    12 + entries <= block_no,
                    block_no < 12 + entries + entries * entries,
                    entries >= 1,
            ;
        }
        let pointer_block = match p.read_datablock(indirect_block_id as u64) {
            Ok(b) => b,
            Err(e) => {
                return None;
            },
        };
        if pointer_offset * 4 + 4 > pointer_block.data.len() {
            return None;
        }
        let pointer_block_id: u32 = read_le32(&pointer_block.data, pointer_offset * 4);
        let inner_offset: usize = (block_no - INODE_SINGLE_INDIRECT) % entries;
        let inner_block = match p.read_datablock(pointer_block_id as u64) {
            Ok(b) => b,
            Err(e) => {
                return None;
            },
        };
        if inner_offset * 4 + 4 > inner_block.data.len() {
            return None;
        }
        Some(read_le32(&inner_block.data, inner_offset * 4))
    }

    /// The next data block of the file: `None` past the last pointer, on a
    /// hole (a zero block id) or on an unreadable block.
    pub fn next_block(&mut self, p: &LinuxPartition) -> (r: Option<DataBlock>)
        requires
            p.wf(),
            old(self).inode.i_block@.len() == 15,
            old(self).current_idx < 12 + spec_entries_per_block(*p) + spec_entries_per_block(*p)
                * spec_entries_per_block(*p),
        ensures
            final(self).inode == old(self).inode,
            final(self).current_idx == old(self).current_idx + 1,
            match spec_block_id(*p, old(self).inode.i_block@, old(self).current_idx as int) {
                None => r is None,
                Some(id) => {
                    if id == 0 {
                        r is None
                    } else if p.spec_block_offset(id as int) + p.spec_bs() <= p.disk@.len() {
                        r is Some && r->Some_0.data@ == p.disk@.subrange(
                            p.spec_block_offset(id as int),
                            p.spec_block_offset(id as int) + p.spec_bs(),
                        )
                    } else {
                        r is None
                    }
                },
            },
    {
        proof {
            assert(spec_entries_per_block(*p) <= 2048);
            assert(self.current_idx < 12 + 2048 + 2048 * 2048) by (nonlinear_arith)
                requires
                    self.current_idx < 12 + spec_entries_per_block(*p) + spec_entries_per_block(*p)
                        * spec_entries_per_block(*p),
                    spec_entries_per_block(*p) <= 2048,
                    spec_entries_per_block(*p) >= 0,
            ;
        }
        let id = self.get_block_id(p, self.current_idx);
        self.current_idx = self.current_idx + 1;
        match id {
            None => None,
            Some(block_id) => {
                if block_id != 0 {
                    match p.read_datablock(block_id as u64) {
                        Ok(b) => Some(b),
                        Err(e) => None,
                    }
                } else {
                    None
                }
            },
        }
    }
}

} // verus!

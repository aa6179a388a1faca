//! Directory search, file reading and path resolution on an EXT2
//! partition, and the driver that mounts the first Linux partition of a
//! disk.

use vstd::prelude::*;

verus! {

use crate::ext2::{
    inode_matches, le16, superblock_matches, DataBlock, DirectoryEntry, DirectoryIterator, Inode,
    InodeBlockIterator, LinuxPartition, Superblock, spec_block_id, spec_entries_per_block,
    ROOT_INODE,
};
use crate::error::{IoError, IoResult};
use crate::partition::{le32, PartitionTable, PartitionType, partition_entry_offset};
use crate::vfs::{FileDescriptor, FilesystemDriver};
use crate::virtio::DeviceError;

/// Partition entries in a boot sector.
pub const MAX_PARTITIONS: u8 = 4;

/// The inode number of the record named `name` in a directory block,
/// walking the records from `off` as the directory iterator walks them.
pub open spec fn spec_search_block(block: Seq<u8>, off: int, name: Seq<u8>) -> Option<u32>
    decreases block.len() - off,
    when 0 <= off
{
    if off + 8 > block.len() {
        None
    } else {
        let rl = le16(block, off + 4);
        let nl = block[off + 6] as int;
        if rl < 8 || off + rl > block.len() || off + 8 + nl > block.len() {
            None
        } else if nl == name.len() && block.subrange(off + 8, off + 8 + nl) == name {
            Some(le32(block, off) as u32)
        } else {
            spec_search_block(block, off + rl, name)
        }
    }
}

/// The inode number `name` resolves to in the directory whose data the
/// inode describes, searching block after block from block `k`; the walk
/// ends at the first missing, zero or unreadable block.
pub open spec fn spec_find_entry(
    p: LinuxPartition,
    iblocks: Seq<u32>,
    k: int,
    name: Seq<u8>,
) -> Option<u32>
    decreases 12 + spec_entries_per_block(p) + spec_entries_per_block(p) * spec_entries_per_block(
        p,
    ) - k,
    when 0 <= k
{
    let e = spec_entries_per_block(p);
    if k >= 12 + e + e * e {
        None
    } else {
        match spec_block_id(p, iblocks, k) {
            None => None,
            Some(id) => {
                if id == 0 {
                    None
                } else if !(p.spec_block_offset(id as int) + p.spec_bs() <= p.disk@.len()) {
                    None
                } else {
                    let block = p.disk@.subrange(
                        p.spec_block_offset(id as int),
                        p.spec_block_offset(id as int) + p.spec_bs(),
                    );
                    match spec_search_block(block, 0, name) {
                        Some(ino) => Some(ino),
                        None => spec_find_entry(p, iblocks, k + 1, name),
                    }
                }
            },
        }
    }
}

/// The fifteen block pointers of the inode record at `ioff`, as they
/// stand on the disk.
pub open spec fn spec_iblocks(p: LinuxPartition, ioff: int) -> Seq<u32> {
    Seq::new(15, |k: int| crate::partition::le32(p.disk@, ioff + 40 + 4 * k) as u32)
}

/// The inode number a path resolves to, one directory at a time starting
/// from inode `id`: at every step the current inode's record must be on
/// the disk, and the next component must name an entry in the directory
/// the inode describes.
pub open spec fn spec_resolve(p: LinuxPartition, segs: Seq<Seq<u8>>, i: int, id: int) -> Option<
    int,
>
    decreases segs.len() - i,
    when 0 <= i
{
    if !(1 <= id < 0x1_0000_0000) {
        None
    } else if !p.spec_inode_readable(id) {
        None
    } else if i >= segs.len() {
        Some(id)
    } else {
        match spec_find_entry(p, spec_iblocks(p, p.spec_inode_offset(id)), 0, segs[i]) {
            None => None,
            Some(next) => spec_resolve(p, segs, i + 1, next as int),
        }
    }
}

impl LinuxPartition {
    /// Resolves a path, given as its components below the root, one
    /// directory at a time from the root inode: it succeeds exactly when
    /// every component resolves, and returns the record of the inode the
    /// path names.
    #[verifier::loop_isolation(false)]
    pub fn resolve_path(&self, path: &Vec<Vec<u8>>) -> (r: Result<Inode, DeviceError>)
        requires
            self.wf(),
        ensures
            match spec_resolve(
                *self,
                path@.map_values(|v: Vec<u8>| v@),
                0,
                ROOT_INODE as int,
            ) {
                Some(id) => r is Ok && inode_matches(
                    r->Ok_0,
                    self.disk@,
                    self.spec_inode_offset(id),
                ),
                None => r is Err,
            },
    {
        let ghost segs = path@.map_values(|v: Vec<u8>| v@);
        let mut current_inode = match self.read_root() {
            Ok(ino) => ino,
            Err(e) => {
                return Err(e);
            },
        };
        let ghost mut gid: int = ROOT_INODE as int;
        proof {
            assert(inode_matches(current_inode, self.disk@, self.spec_inode_offset(gid)));
            assert(current_inode.i_block@ =~= spec_iblocks(*self, self.spec_inode_offset(gid)));
        }
        let n: usize = path.len();
        let mut i: usize = 0;
        while i < n
            invariant
                i <= n,
                n == segs.len(),
                1 <= gid < 0x1_0000_0000,
                self.spec_inode_readable(gid),
                inode_matches(current_inode, self.disk@, self.spec_inode_offset(gid)),
                current_inode.i_block@ == spec_iblocks(*self, self.spec_inode_offset(gid)),
                spec_resolve(*self, segs, 0, ROOT_INODE as int) == spec_resolve(
                    *self,
                    segs,
                    i as int,
                    gid,
                ),
            decreases n - i,
        {
            let it = self.get_inode_block_iterator(
                Inode {
                    i_mode: current_inode.i_mode,
                    i_uid: current_inode.i_uid,
                    i_size: current_inode.i_size,
                    i_gid: current_inode.i_gid,
                    i_links_count: current_inode.i_links_count,
                    i_blocks: current_inode.i_blocks,
                    i_flags: current_inode.i_flags,
                    i_block: clone_u32_vec(&current_inode.i_block),
                },
            );
            proof {
                assert(segs[i as int] == path@[i as int]@);
            }
            let entry = match it.get_entry_with_name(self, &path[i]) {
                Some(e) => e,
                None => {
                    proof {
                        assert(spec_find_entry(
                            *self,
                            spec_iblocks(*self, self.spec_inode_offset(gid)),
                            0,
                            segs[i as int],
                        ) is None);
                        assert(spec_resolve(*self, segs, i as int, gid) is None);
                    }
                    return Err(DeviceError::EntryNotFound);
                },
            };
            proof {
                assert(spec_find_entry(
                    *self,
                    spec_iblocks(*self, self.spec_inode_offset(gid)),
                    0,
                    segs[i as int],
                ) == Some(entry.inode));
                assert(spec_resolve(*self, segs, i as int, gid) == spec_resolve(
                    *self,
                    segs,
                    i + 1,
                    entry.inode as int,
                ));
            }
            if entry.inode < 1 {
                proof {
                    assert(spec_resolve(*self, segs, i + 1, entry.inode as int) is None);
                }
                return Err(DeviceError::EntryNotFound);
            }
            current_inode = match self.get_inode_for_entry(entry) {
                Ok(ino) => ino,
                Err(e) => {
                    proof {
                        assert(!self.spec_inode_readable(entry.inode as int));
                        assert(spec_resolve(*self, segs, i + 1, entry.inode as int) is None);
                    }
                    return Err(e);
                },
            };
            proof {
                gid = entry.inode as int;
                assert(inode_matches(current_inode, self.disk@, self.spec_inode_offset(gid)));
                assert(current_inode.i_block@ =~= spec_iblocks(
                    *self,
                    self.spec_inode_offset(gid),
                ));
            }
            i = i + 1;
        }
        let result: Result<Inode, DeviceError> = Ok(current_inode);
        proof {
            assert(spec_resolve(*self, segs, n as int, gid) == Some(gid));
            assert(inode_matches(result->Ok_0, self.disk@, self.spec_inode_offset(gid)));
        }
        result
    }
}

/// Are two byte strings equal?
fn bytes_equal(a: &Vec<u8>, b: &Vec<u8>) -> (r: bool)
    ensures
        r == (a@ == b@),
{
    let na: usize = a.len();
    let nb: usize = b.len();
    if na != nb {
        proof {
            assert(a@ != b@);
        }
        return false;
    }
    let mut i: usize = 0;
    while i < na
        invariant
            i <= na,
            na == a@.len() == b@.len(),
            forall|k: int| 0 <= k < i ==> a@[k] == b@[k],
        decreases na - i,
    {
        if a[i] != b[i] {
            return false;
        }
        i = i + 1;
    }
    proof {
        assert(a@ =~= b@);
    }
    true
}

/// Searches one directory block for a record named `entry_name`.
fn search_block(block: &DataBlock, entry_name: &Vec<u8>) -> (r: Option<DirectoryEntry>)
    ensures
        match r {
            Some(entry) => spec_search_block(block.data@, 0, entry_name@) == Some(entry.inode),
            None => spec_search_block(block.data@, 0, entry_name@) is None,
        },
{
    let mut dirs: DirectoryIterator = block.iter_directories();
    loop
        invariant
            0 <= dirs.offset,
            spec_search_block(block.data@, 0, entry_name@) == spec_search_block(
                block.data@,
                dirs.offset as int,
                entry_name@,
            ),
        ensures
            spec_search_block(block.data@, 0, entry_name@) is None,
        decreases block.data@.len() - dirs.offset,
    {
        let ghost off = dirs.offset as int;
        match dirs.next(block) {
            None => {
                proof {
                    assert(spec_search_block(block.data@, off, entry_name@) is None);
                }
                break ;
            },
            Some((entry, name)) => {
                if bytes_equal(&name, entry_name) {
                    proof {
                        assert(block.data@.subrange(off + 8, off + 8 + entry.name_len)
                            == entry_name@);
                        assert(spec_search_block(block.data@, off, entry_name@) == Some(
                            entry.inode,
                        ));
                    }
                    return Some(entry);
                }
                proof {
                    assert(block.data@.subrange(off + 8, off + 8 + entry.name_len) != entry_name@);
                    assert(spec_search_block(block.data@, off, entry_name@) == spec_search_block(
                        block.data@,
                        off + entry.rec_len,
                        entry_name@,
                    ));
                }
            },
        }
    }
    None
}

impl InodeBlockIterator {
    /// Searches the directory the iterator walks for a record named
    /// `entry_name`; the returned record carries the inode number the
    /// search finds.
    #[verifier::loop_isolation(false)]
    pub fn get_entry_with_name(self, p: &LinuxPartition, entry_name: &Vec<u8>) -> (r: Option<
        DirectoryEntry,
    >)
        requires
            p.wf(),
            self.inode.i_block@.len() == 15,
            self.current_idx == 0,
        ensures
            match r {
                Some(entry) => spec_find_entry(*p, self.inode.i_block@, 0, entry_name@) == Some(entry.inode),
                None => spec_find_entry(*p, self.inode.i_block@, 0, entry_name@) is None,
            },
    {
        let ghost inode0 = self.inode;
        let bs0: u64 = p.get_block_size();
        proof {
            assert(1024 <= bs0 <= 8192);
            assert(256 <= spec_entries_per_block(*p) <= 2048 && spec_entries_per_block(*p)
                == bs0 as int / 4);
        }
        let epb0: u64 = bs0 / 4;
        proof {
            assert(epb0 * epb0 <= 2048 * 2048) by (nonlinear_arith)
                requires
                    256 <= epb0 <= 2048,
            ;
        }
        let e2: usize = (epb0 * epb0 + epb0 + 12) as usize;
        proof {
            assert(e2 == 12 + spec_entries_per_block(*p) + spec_entries_per_block(*p)
                * spec_entries_per_block(*p));
        }
        let mut it = self;
        while it.current_idx < e2
            invariant
                it.inode == inode0,
                0 <= it.current_idx <= e2,
                spec_find_entry(*p, inode0.i_block@, 0, entry_name@) == spec_find_entry(
                    *p,
                    inode0.i_block@,
                    it.current_idx as int,
                    entry_name@,
                ),
            decreases e2 - it.current_idx,
        {
            let ghost k = it.current_idx as int;
            let block = match it.next_block(p) {
                Some(b) => b,
                None => {
                    proof {
                        match spec_block_id(*p, inode0.i_block@, k) {
                            None => {},
                            Some(id) => {
                                if id != 0 && p.spec_block_offset(id as int) + p.spec_bs()
                                    <= p.disk@.len() {
                                    assert(false);
                                }
                            },
                        }
                        assert(spec_find_entry(*p, inode0.i_block@, k, entry_name@) is None);
                    }
                    return None;
                },
            };
            proof {
                assert(spec_block_id(*p, inode0.i_block@, k) is Some);
                let bid = spec_block_id(*p, inode0.i_block@, k)->Some_0;
                assert(bid != 0 && p.spec_block_offset(bid as int) + p.spec_bs()
                    <= p.disk@.len());
                assert(block.data@ == p.disk@.subrange(
                    p.spec_block_offset(bid as int),
                    p.spec_block_offset(bid as int) + p.spec_bs(),
                ));
                assert(spec_find_entry(*p, inode0.i_block@, k, entry_name@) == (match spec_search_block(
                    block.data@,
                    0,
                    entry_name@,
                ) {
                    Some(ino) => Some(ino),
                    None => spec_find_entry(*p, inode0.i_block@, k + 1, entry_name@),
                }));
            }
            match search_block(&block, entry_name) {
                Some(entry) => {
                    proof {
                        assert(spec_find_entry(*p, inode0.i_block@, k, entry_name@) == Some(entry.inode));
                    }
                    return Some(entry);
                },
                None => {
                    proof {
                        assert(spec_find_entry(*p, inode0.i_block@, k, entry_name@) == spec_find_entry(
                            *p,
                            inode0.i_block@,
                            k + 1,
                            entry_name@,
                        ));
                    }
                },
            }
        }
        proof {
            assert(spec_find_entry(*p, inode0.i_block@, it.current_idx as int, entry_name@) is None);
        }
        None
    }
}

/// Every direct data block the file of `inode` needs is present: nonzero
/// and on the disk.
pub open spec fn file_direct_ok(p: LinuxPartition, inode: Inode) -> bool {
    forall|k: int|
        0 <= k < (inode.i_size + p.spec_bs() - 1) / p.spec_bs() ==> (#[trigger] inode.i_block@[k]
            != 0 && p.spec_block_offset(inode.i_block@[k] as int) + p.spec_bs() <= p.disk@.len())
}

impl LinuxPartition {
    /// The file's bytes: its blocks in order, the last one trimmed to the
    /// file size. For a regular file held in the twelve direct blocks —
    /// all present — this returns exactly `i_size` bytes, and byte `j` is
    /// byte `j % block_size` of the file's `j / block_size`-th block.
    #[verifier::loop_isolation(false)]
    pub fn read_file(&self, inode: &Inode) -> (r: Option<Vec<u8>>)
        requires
            self.wf(),
            inode.i_block@.len() == 15,
        ensures
            r is Some ==> r->Some_0@.len() == inode.i_size,
            (inode.i_size <= 12 * self.spec_bs() && file_direct_ok(*self, *inode)) ==> (r is Some
                && r->Some_0@.len() == inode.i_size && (forall|j: int|
                #![trigger r->Some_0@[j]]
                0 <= j < inode.i_size ==> r->Some_0@[j] == self.disk@[self.spec_block_offset(
                    inode.i_block@[j / self.spec_bs()] as int,
                ) + j % self.spec_bs()])),
    {
        let bs: u64 = self.get_block_size();
        proof {
            assert(1024 <= bs <= 8192);
            assert(256 <= spec_entries_per_block(*self) <= 2048 && spec_entries_per_block(*self)
                == bs as int / 4);
        }
        let epb: u64 = bs / 4;
        proof {
            assert(epb * epb <= 2048 * 2048) by (nonlinear_arith)
                requires
                    256 <= epb <= 2048,
            ;
        }
        let limit: usize = (epb * epb + epb + 12) as usize;
        proof {
            assert(limit == 12 + spec_entries_per_block(*self) + spec_entries_per_block(*self)
                * spec_entries_per_block(*self) && limit <= 12 + 2048 + 2048 * 2048);
        }
        let mut out: Vec<u8> = Vec::new();
        let mut remaining: u64 = inode.i_size as u64;
        let mut it = self.get_inode_block_iterator(
            Inode {
                i_mode: inode.i_mode,
                i_uid: inode.i_uid,
                i_size: inode.i_size,
                i_gid: inode.i_gid,
                i_links_count: inode.i_links_count,
                i_blocks: inode.i_blocks,
                i_flags: inode.i_flags,
                i_block: clone_u32_vec(&inode.i_block),
            },
        );
        let ghost direct = inode.i_size <= 12 * self.spec_bs() && file_direct_ok(*self, *inode);
        while remaining > 0
            invariant
                self.wf(),
                it.inode.i_block@ == inode.i_block@,
                inode.i_block@.len() == 15,
                bs == self.spec_bs(),
                limit == 12 + spec_entries_per_block(*self) + spec_entries_per_block(*self)
                    * spec_entries_per_block(*self),
                remaining == inode.i_size - out@.len(),
                out@.len() <= inode.i_size,
                direct ==> out@.len() == (if it.current_idx * bs as int <= inode.i_size {
                    it.current_idx * bs as int
                } else {
                    inode.i_size as int
                }),
                direct ==> it.current_idx as int * bs as int <= inode.i_size + bs,
                direct ==> (forall|j: int|
                    #![trigger out@[j]]
                    0 <= j < out@.len() ==> out@[j] == self.disk@[self.spec_block_offset(
                        inode.i_block@[j / bs as int] as int,
                    ) + j % bs as int]),
            decreases remaining,
        {
            let ghost k = it.current_idx as int;
            proof {
                if direct {
                    assert(k * bs as int <= inode.i_size) by (nonlinear_arith)
                        requires
                            out@.len() < inode.i_size,
                            out@.len() == (if k * bs as int <= inode.i_size {
                                k * bs as int
                            } else {
                                inode.i_size as int
                            }),
                            k >= 0,
                            bs >= 1024,
                    ;
                    assert(k < 12 && k < (inode.i_size + bs - 1) / bs as int) by (nonlinear_arith)
                        requires
                            k * bs as int <= inode.i_size,
                            out@.len() == k * bs as int,
                            out@.len() < inode.i_size,
                            inode.i_size <= 12 * bs,
                            bs >= 1024,
                            k >= 0,
                    ;
                }
            }
            if it.current_idx >= limit {
                proof {
                    if direct {
                        assert(k < 12);
                        assert(false);
                    }
                }
                return None;
            }
            let block = match it.next_block(self) {
                Some(b) => b,
                None => {
                    proof {
                        if direct {
                            assert(spec_block_id(*self, it.inode.i_block@, k) == Some(inode.i_block@[k]));
                            assert(inode.i_block@[k] != 0);
                            assert(false);
                        }
                    }
                    return None;
                },
            };
            let block_data_size: u64 = if remaining < bs {
                remaining
            } else {
                bs
            };
            proof {
                if direct {
                    assert(block.data@.len() == bs);
                }
                assert(block_data_size <= remaining);
            }
            if (block_data_size as usize) > block.data.len() {
                proof {
                    if direct {
                        assert(false);
                    }
                }
                return None;
            }
            let take: usize = block_data_size as usize;
            let ghost out0 = out@;
            let mut t: usize = 0;
            while t < take
                invariant
                    t <= take,
                    take <= block.data@.len(),
                    out@.len() == out0.len() + t,
                    forall|j: int| 0 <= j < out0.len() ==> out@[j] == out0[j],
                    forall|j: int| 0 <= j < t ==> out@[out0.len() + j] == block.data@[j],
                decreases take - t,
            {
                out.push(block.data[t]);
                t = t + 1;
            }
            proof {
                if direct {
                    let boff = self.spec_block_offset(inode.i_block@[k] as int);
                    assert forall|j: int|
                        #![trigger out@[j]]
                        0 <= j < out@.len() implies out@[j] == self.disk@[self.spec_block_offset(
                        inode.i_block@[j / bs as int] as int,
                    ) + j % bs as int] by {
                        if j < out0.len() {
                            assert(out@[j] == out0[j]);
                        } else {
                            let tt = j - out0.len();
                            assert(out@[out0.len() + tt] == block.data@[tt]);
                            assert(out@[j] == block.data@[tt]);
                            assert(spec_block_id(*self, it.inode.i_block@, k) == Some(inode.i_block@[k]));
                            assert(inode.i_block@[k] != 0 && self.spec_block_offset(
                                inode.i_block@[k] as int,
                            ) + self.spec_bs() <= self.disk@.len());
                            assert(block.data@ == self.disk@.subrange(boff, boff + bs));
                            assert(block.data@[tt] == self.disk@[boff + tt]);
                            assert(j / bs as int == k && j % bs as int == tt) by (nonlinear_arith)
                                requires
                                    out0.len() == k * bs as int,
                                    j == k * bs as int + tt,
                                    0 <= tt < bs,
                                    bs >= 1024,
                                    k >= 0,
                            ;
                        }
                    }
                    assert(out@.len() == (if (k + 1) * bs as int <= inode.i_size {
                        (k + 1) * bs as int
                    } else {
                        inode.i_size as int
                    }) && (k + 1) * bs as int <= inode.i_size + bs) by (nonlinear_arith)
                        requires
                            out@.len() == out0.len() + take,
                            out0.len() == k * bs as int,
                            take == (if inode.i_size - out0.len() < bs {
                                inode.i_size - out0.len()
                            } else {
                                bs as int
                            }),
                            out0.len() < inode.i_size,
                            bs >= 1024,
                            k >= 0,
                    ;
                }
            }
            remaining = remaining - block_data_size;
        }
        Some(out)
    }
}

/// The partition starting at sector `fs` can be mounted: its superblock
/// sector is on the disk and its parameters are ones this driver accepts.
pub open spec fn spec_mountable(disk: Seq<u8>, fs: int) -> bool {
    &&& (fs + 2) * 512 + 512 <= disk.len()
    &&& exists|sb: Superblock| superblock_matches(sb, disk, fs * 512 + 1024) && sb.sane()
}

/// The number (1 to 4) of the first partition-table entry whose type byte
/// names a Linux partition.
pub open spec fn spec_first_linux(d: Seq<u8>) -> Option<int> {
    if d[partition_entry_offset(1) + 4] == 0x83 {
        Some(1)
    } else if d[partition_entry_offset(2) + 4] == 0x83 {
        Some(2)
    } else if d[partition_entry_offset(3) + 4] == 0x83 {
        Some(3)
    } else if d[partition_entry_offset(4) + 4] == 0x83 {
        Some(4)
    } else {
        None
    }
}

/// Carries the resolution witness of a path lookup over to the open call
/// that wraps it: the descriptor result succeeds exactly when the lookup
/// did.
proof fn lemma_open_follows_resolution(
    d: &Ext2FilesystemDriver,
    path: &Vec<Vec<u8>>,
    got: IoResult<Inode>,
    opened: IoResult<FileDescriptor>,
)
    requires
        opened is Ok <==> got is Ok,
        d.disk@.len() >= 512 ==> match spec_first_linux(d.disk@) {
            None => true,
            Some(k) => {
                let fs = le32(d.disk@, partition_entry_offset(k) + 8);
                spec_mountable(d.disk@, fs) ==> (exists|p: LinuxPartition|
                    #![trigger p.wf()]
                    p.wf() && p.disk@ == d.disk@ && p.first_sector == fs && (match spec_resolve(
                        p,
                        path@.map_values(|v: Vec<u8>| v@),
                        0,
                        ROOT_INODE as int,
                    ) {
                        Some(id) => got is Ok && inode_matches(
                            got->Ok_0,
                            d.disk@,
                            p.spec_inode_offset(id),
                        ),
                        None => got is Err,
                    }))
            },
        },
    ensures
        d.disk@.len() >= 512 ==> match spec_first_linux(d.disk@) {
            None => true,
            Some(k) => {
                let fs = le32(d.disk@, partition_entry_offset(k) + 8);
                spec_mountable(d.disk@, fs) ==> (exists|p: LinuxPartition|
                    #![trigger p.wf()]
                    p.wf() && p.disk@ == d.disk@ && p.first_sector == fs && (opened is Ok
                        <==> spec_resolve(
                        p,
                        path@.map_values(|v: Vec<u8>| v@),
                        0,
                        ROOT_INODE as int,
                    ) is Some))
            },
        },
{
    if d.disk@.len() >= 512 {
        match spec_first_linux(d.disk@) {
            None => {},
            Some(k) => {
                let fs = le32(d.disk@, partition_entry_offset(k) + 8);
                if spec_mountable(d.disk@, fs) {
                    let segs = path@.map_values(|v: Vec<u8>| v@);
                    let p = choose|p: LinuxPartition|
                        #![trigger p.wf()]
                        p.wf() && p.disk@ == d.disk@ && p.first_sector == fs && (
                        match spec_resolve(p, segs, 0, ROOT_INODE as int) {
                            Some(id) => got is Ok && inode_matches(
                                got->Ok_0,
                                d.disk@,
                                p.spec_inode_offset(id),
                            ),
                            None => got is Err,
                        });
                    assert(p.wf() && p.disk@ == d.disk@ && p.first_sector == fs && (opened is Ok
                        <==> spec_resolve(p, segs, 0, ROOT_INODE as int) is Some));
                }
            },
        }
    }
}

/// The EXT2 driver over one disk: finds the first Linux partition and
/// resolves paths on it.
pub struct Ext2FilesystemDriver {
    pub disk: Vec<u8>,
    pub partition_id: u8,
}

impl Ext2FilesystemDriver {
    pub fn new(disk: Vec<u8>, partition_id: u8) -> (r: Ext2FilesystemDriver)
        ensures
            r.disk@ == disk@,
            r.partition_id == partition_id,
    {
        Ext2FilesystemDriver { disk, partition_id }
    }

    /// Reads the boot sector and mounts the first Linux partition.
    #[verifier::loop_isolation(false)]
    pub fn get_partition(&self) -> (r: IoResult<LinuxPartition>)
        ensures
            self.disk@.len() < 512 ==> r == Err::<LinuxPartition, IoError>(
                IoError::DeviceError(DeviceError::InvalidDevice),
            ),
            self.disk@.len() >= 512 ==> match spec_first_linux(self.disk@) {
                None => r == Err::<LinuxPartition, IoError>(IoError::FileNotExists),
                Some(k) => {
                    let fs = le32(self.disk@, partition_entry_offset(k) + 8);
                    if spec_mountable(self.disk@, fs) {
                        r is Ok && r->Ok_0.wf() && r->Ok_0.disk@ == self.disk@
                            && r->Ok_0.first_sector == fs
                    } else {
                        r == Err::<LinuxPartition, IoError>(
                            IoError::DeviceError(DeviceError::InitializationError),
                        )
                    }
                },
            },
    {
        let n: usize = self.disk.len();
        if n < 512 {
            return Err(IoError::DeviceError(DeviceError::InvalidDevice));
        }
        let mut sector: Vec<u8> = Vec::new();
        let mut i: usize = 0;
        while i < 512
            invariant
                i <= 512,
                512 <= n == self.disk@.len(),
                sector@.len() == i,
                forall|k: int| 0 <= k < i ==> sector@[k] == self.disk@[k],
            decreases 512 - i,
        {
            sector.push(self.disk[i]);
            i = i + 1;
        }
        let table = PartitionTable::new(sector);
        proof {
            assert(forall|k: int|
                1 <= k <= 4 ==> table.data@[partition_entry_offset(k) + 4] == self.disk@[
                    #[trigger] partition_entry_offset(k) + 4]);
            assert(forall|k: int, j: int|
                1 <= k <= 4 && 0 <= j < 4 ==> table.data@[#[trigger] (partition_entry_offset(k) + 8
                    + j)] == self.disk@[partition_entry_offset(k) + 8 + j]);
        }
        let mut part: u8 = 1;
        while part <= 4
            invariant
                1 <= part <= 5,
                table.wf(),
                table.data@.len() == 512,
                512 <= self.disk@.len(),
                forall|k: int| 0 <= k < 512 ==> table.data@[k] == self.disk@[k],
                forall|k: int| 1 <= k < part ==> self.disk@[partition_entry_offset(k) + 4] != 0x83,
            decreases 5 - part,
        {
            let info = table.get_partition_info(part);
            if matches!(info.partition_type, PartitionType::Linux) {
                proof {
                    assert(self.disk@[partition_entry_offset(part as int) + 4] == 0x83);
                    assert(spec_first_linux(self.disk@) == Some(part as int));
                    assert(le32(table.data@, partition_entry_offset(part as int) + 8) == le32(
                        self.disk@,
                        partition_entry_offset(part as int) + 8,
                    ));
                }
                let disk_copy = clone_u8_vec(&self.disk);
                return match LinuxPartition::new(disk_copy, info.initial_sector as u64) {
                    Ok(p) => {
                        proof {
                            assert(superblock_matches(
                                p.superblock,
                                self.disk@,
                                p.part_off() + 1024,
                            ) && p.superblock.sane());
                            assert(spec_mountable(self.disk@, p.first_sector as int));
                        }
                        Ok(p)
                    },
                    Err(e) => {
                        proof {
                            assert(!spec_mountable(self.disk@, info.initial_sector as int));
                        }
                        Err(IoError::DeviceError(e))
                    },
                };
            }
            part = part + 1;
        }
        Err(IoError::FileNotExists)
    }

    /// Resolves a path, given as its components below the root, one
    /// directory at a time from the root inode of the first Linux
    /// partition: it succeeds exactly when that partition mounts and every
    /// component resolves, and returns the record of the inode the path
    /// names. An empty path yields the root inode itself.
    pub fn get_inode(&self, path: &Vec<Vec<u8>>) -> (r: IoResult<Inode>)
        ensures
            r is Ok ==> (exists|ioff: int| inode_matches(r->Ok_0, self.disk@, ioff)),
            self.disk@.len() < 512 ==> r == Err::<Inode, IoError>(
                IoError::DeviceError(DeviceError::InvalidDevice),
            ),
            self.disk@.len() >= 512 ==> match spec_first_linux(self.disk@) {
                None => r == Err::<Inode, IoError>(IoError::FileNotExists),
                Some(k) => {
                    let fs = le32(self.disk@, partition_entry_offset(k) + 8);
                    if spec_mountable(self.disk@, fs) {
                        exists|p: LinuxPartition|
                            #![trigger p.wf()]
                            p.wf() && p.disk@ == self.disk@ && p.first_sector == fs && (
                            match spec_resolve(
                                p,
                                path@.map_values(|v: Vec<u8>| v@),
                                0,
                                ROOT_INODE as int,
                            ) {
                                Some(id) => r is Ok && inode_matches(
                                    r->Ok_0,
                                    self.disk@,
                                    p.spec_inode_offset(id),
                                ),
                                None => r is Err,
                            })
                    } else {
                        r == Err::<Inode, IoError>(
                            IoError::DeviceError(DeviceError::InitializationError),
                        )
                    }
                },
            },
    {
        let partition = match self.get_partition() {
            Ok(p) => p,
            Err(e) => {
                return Err(e);
            },
        };
        let r: IoResult<Inode> = match partition.resolve_path(path) {
            Ok(ino) => Ok(ino),
            Err(e) => Err(IoError::DeviceError(e)),
        };
        proof {
            assert(partition.wf() && partition.disk@ == self.disk@);
            match spec_resolve(
                partition,
                path@.map_values(|v: Vec<u8>| v@),
                0,
                ROOT_INODE as int,
            ) {
                Some(id) => {
                    assert(r is Ok && inode_matches(
                        r->Ok_0,
                        self.disk@,
                        partition.spec_inode_offset(id),
                    ));
                },
                None => {
                    assert(r is Err);
                },
            }
        }
        r
    }

    /// Opens a path: resolves it to an inode and hands back a descriptor
    /// at position zero. It succeeds exactly when `get_inode` does.
    pub fn open_path(&self, path: &Vec<Vec<u8>>) -> (r: IoResult<FileDescriptor>)
        ensures
            r is Ok ==> {
                let fd = r->Ok_0;
                &&& fd.file_pos == 0
                &&& !fd.eof_flag
                &&& fd.path@.len() == path@.len()
                &&& forall|i: int| 0 <= i < path@.len() ==> fd.path@[i]@ == path@[i]@
            },
            self.disk@.len() < 512 ==> r is Err,
            self.disk@.len() >= 512 ==> match spec_first_linux(self.disk@) {
                None => r is Err,
                Some(k) => {
                    let fs = le32(self.disk@, partition_entry_offset(k) + 8);
                    if spec_mountable(self.disk@, fs) {
                        exists|p: LinuxPartition|
                            #![trigger p.wf()]
                            p.wf() && p.disk@ == self.disk@ && p.first_sector == fs && (r is Ok
                                <==> spec_resolve(
                                p,
                                path@.map_values(|v: Vec<u8>| v@),
                                0,
                                ROOT_INODE as int,
                            ) is Some)
                    } else {
                        r is Err
                    }
                },
            },
    {
        let looked = self.get_inode(path);
        let ghost glooked = looked;
        match looked {
            Ok(_resolved) => {},
            Err(e) => {
                let r: IoResult<FileDescriptor> = Err(e);
                proof {
                    lemma_open_follows_resolution(self, path, glooked, r);
                }
                return r;
            },
        };
        let mut copied: Vec<Vec<u8>> = Vec::new();
        let n: usize = path.len();
        let mut i: usize = 0;
        while i < n
            invariant
                i <= n,
                n == path@.len(),
                copied@.len() == i,
                forall|k: int| 0 <= k < i ==> copied@[k]@ == path@[k]@,
            decreases n - i,
        {
            copied.push(clone_u8_vec(&path[i]));
            i = i + 1;
        }
        let r: IoResult<FileDescriptor> = Ok(
            FileDescriptor { path: copied, file_pos: 0, eof_flag: false },
        );
        proof {
            lemma_open_follows_resolution(self, path, glooked, r);
        }
        r
    }
}

impl FilesystemDriver for Ext2FilesystemDriver {
    fn open(&self, path: &Vec<Vec<u8>>) -> (r: IoResult<FileDescriptor>) {
        self.open_path(path)
    }
}

/// A copy of a byte vector.
#[verifier::loop_isolation(false)]
fn clone_u8_vec(v: &Vec<u8>) -> (r: Vec<u8>)
    ensures
        r@ == v@,
{
    let mut out: Vec<u8> = Vec::new();
    let n: usize = v.len();
    let mut i: usize = 0;
    while i < n
        invariant
            i <= n,
            n == v@.len(),
            out@.len() == i,
            forall|k: int| 0 <= k < i ==> out@[k] == v@[k],
        decreases n - i,
    {
        out.push(v[i]);
        i = i + 1;
    }
    proof {
        assert(out@ =~= v@);
    }
    out
}

/// A copy of a block-pointer vector.
#[verifier::loop_isolation(false)]
fn clone_u32_vec(v: &Vec<u32>) -> (r: Vec<u32>)
    ensures
        r@ == v@,
{
    let mut out: Vec<u32> = Vec::new();
    let n: usize = v.len();
    let mut i: usize = 0;
    while i < n
        invariant
            i <= n,
            n == v@.len(),
            out@.len() == i,
            forall|k: int| 0 <= k < i ==> out@[k] == v@[k],
        decreases n - i,
    {
        out.push(v[i]);
        i = i + 1;
    }
    proof {
        assert(out@ =~= v@);
    }
    out
}

} // verus!

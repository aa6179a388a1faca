//! The virtual-filesystem shim: an ordered mount table and the
//! longest-prefix lookup that picks a mount for a path.
//!
//! Paths and names are byte strings, as they stand on disk.

use vstd::prelude::*;

verus! {

use crate::error::IoResult;

/// What backs a mount point.
#[derive(PartialEq, Eq, Structural, Clone, Copy, Debug)]
pub enum FilesystemType {
    Memory,
    Ext3 { device_id: u32, partition_id: u8 },
    Unknown,
}

/// One mount: the path it covers and the filesystem behind it.
pub struct MountPoint {
    pub path: Vec<u8>,
    pub fs_type: FilesystemType,
}

/// An open file, as the boot path hands it out: the path's components and
/// a cursor that reading would advance.
pub struct FileDescriptor {
    pub path: Vec<Vec<u8>>,
    pub file_pos: usize,
    pub eof_flag: bool,
}

/// A filesystem that can open a path, given as its components.
pub trait FilesystemDriver {
    fn open(&self, path: &Vec<Vec<u8>>) -> (r: IoResult<FileDescriptor>);
}

/// `a` is lexicographically at most `b`, byte by byte, a prefix ordering
/// before a longer string.
pub open spec fn lex_le(a: Seq<u8>, b: Seq<u8>) -> bool
    decreases a.len(),
{
    if a.len() == 0 {
        true
    } else if b.len() == 0 {
        false
    } else if a[0] < b[0] {
        true
    } else if a[0] > b[0] {
        false
    } else {
        lex_le(a.skip(1), b.skip(1))
    }
}

/// `prefix` starts `s`.
pub open spec fn is_prefix(prefix: Seq<u8>, s: Seq<u8>) -> bool {
    prefix.len() <= s.len() && s.subrange(0, prefix.len() as int) == prefix
}

/// Compares two byte strings lexicographically.
pub fn bytes_le(a: &Vec<u8>, b: &Vec<u8>) -> (r: bool)
    ensures
        r == lex_le(a@, b@),
{
    let na: usize = a.len();
    let nb: usize = b.len();
    proof {
        assert(a@.skip(0) =~= a@);
        assert(b@.skip(0) =~= b@);
    }
    let mut i: usize = 0;
    loop
        invariant
            i <= na && i <= nb,
            na == a@.len() && nb == b@.len(),
            forall|k: int| 0 <= k < i ==> a@[k] == b@[k],
            lex_le(a@, b@) == lex_le(a@.skip(i as int), b@.skip(i as int)),
        ensures
            lex_le(a@, b@) == (if i < na && i < nb {
                a@[i as int] < b@[i as int]
            } else {
                i >= na
            }),
        decreases na - i,
    {
        if i >= na || i >= nb {
            break ;
        }
        if a[i] != b[i] {
            break ;
        }
        proof {
            assert(a@.skip(i as int).len() > 0 && b@.skip(i as int).len() > 0);
            assert(a@.skip(i as int)[0] == a@[i as int] && b@.skip(i as int)[0] == b@[i as int]);
            assert(a@.skip(i as int).skip(1) =~= a@.skip(i + 1));
            assert(b@.skip(i as int).skip(1) =~= b@.skip(i + 1));
        }
        i = i + 1;
    }
    proof {
        if i < na && i < nb {
            assert(a@.skip(i as int)[0] == a@[i as int] && b@.skip(i as int)[0] == b@[i as int]);
        } else if i >= na {
            assert(a@.skip(i as int).len() == 0);
        } else {
            assert(b@.skip(i as int).len() == 0 && a@.skip(i as int).len() > 0);
        }
    }
    if i < na && i < nb {
        a[i] < b[i]
    } else {
        i >= na
    }
}

/// Does `prefix` start `s`?
pub fn starts_with(prefix: &Vec<u8>, s: &Vec<u8>) -> (r: bool)
    ensures
        r == is_prefix(prefix@, s@),
{
    let np: usize = prefix.len();
    let ns: usize = s.len();
    if np > ns {
        return false;
    }
    let mut i: usize = 0;
    while i < np
        invariant
            i <= np <= ns,
            np == prefix@.len() && ns == s@.len(),
            forall|k: int| 0 <= k < i ==> prefix@[k] == s@[k],
        decreases np - i,
    {
        if prefix[i] != s[i] {
            proof {
                assert(s@.subrange(0, np as int)[i as int] != prefix@[i as int]);
            }
            return false;
        }
        i = i + 1;
    }
    proof {
        assert(s@.subrange(0, np as int) =~= prefix@);
    }
    true
}

/// The mount table: mounts kept sorted by path, looked up by the longest
/// matching prefix.
pub struct VirtualFilesystem {
    pub mount_points: Vec<MountPoint>,
}

impl VirtualFilesystem {
    pub open spec fn sorted(self) -> bool {
        forall|i: int, j: int|
            0 <= i < j < self.mount_points@.len() ==> lex_le(
                #[trigger] self.mount_points@[i].path@,
                #[trigger] self.mount_points@[j].path@,
            )
    }

    /// An empty mount table.
    pub fn new() -> (r: VirtualFilesystem)
        ensures
            r.mount_points@.len() == 0,
            r.sorted(),
    {
        VirtualFilesystem { mount_points: Vec::new() }
    }

    /// Adds a mount, keeping the table sorted by path.
    pub fn push_mount_point(&mut self, mount_point: MountPoint)
        requires
            old(self).sorted(),
        ensures
            final(self).sorted(),
            final(self).mount_points@.len() == old(self).mount_points@.len() + 1,
            exists|pos: int|
                0 <= pos <= old(self).mount_points@.len() && final(self).mount_points@ == old(
                    self,
                ).mount_points@.insert(pos, mount_point),
    {
        let n: usize = self.mount_points.len();
        let mut pos: usize = 0;
        while pos < n
            invariant
                pos <= n,
                n == self.mount_points@.len(),
                *self == *old(self),
                forall|k: int| 0 <= k < pos ==> lex_le(self.mount_points@[k].path@, mount_point.path@),
            ensures
                pos <= n,
                forall|k: int| 0 <= k < pos ==> lex_le(self.mount_points@[k].path@, mount_point.path@),
                pos < n ==> !lex_le(self.mount_points@[pos as int].path@, mount_point.path@),
                *self == *old(self),
            decreases n - pos,
        {
            if !bytes_le(&self.mount_points[pos].path, &mount_point.path) {
                break ;
            }
            pos = pos + 1;
        }
        self.mount_points.insert(pos, mount_point);
        proof {
            let s = old(self).mount_points@;
            let t = self.mount_points@;
            assert(t == s.insert(pos as int, mount_point));
            if (pos as int) < s.len() {
                lemma_lex_total_pair(s[pos as int].path@, mount_point.path@);
            }
            assert forall|i: int, j: int| 0 <= i < j < t.len() implies lex_le(
                #[trigger] t[i].path@,
                #[trigger] t[j].path@,
            ) by {
                if i < pos && j == pos {
                } else if i == pos && j > pos {
                    assert(t[j] == s[j - 1]);
                    assert(lex_le(mount_point.path@, s[pos as int].path@));
                    if j - 1 > pos {
                        assert(lex_le(s[pos as int].path@, s[j - 1].path@));
                        lemma_lex_trans(mount_point.path@, s[pos as int].path@, s[j - 1].path@);
                    }
                } else if i < pos && j > pos {
                    assert(t[i] == s[i] && t[j] == s[j - 1]);
                } else if j < pos {
                    assert(t[i] == s[i] && t[j] == s[j]);
                } else if i > pos {
                    assert(t[i] == s[i - 1] && t[j] == s[j - 1]);
                }
            }
        }
    }

    /// The mount whose path is the longest prefix of `path`: the last
    /// matching entry of the sorted table, as the kernel looks it up from
    /// the back. `None` when no mount covers the path.
    pub fn get_mount_point(&self, path: &Vec<u8>) -> (r: Option<usize>)
        ensures
            match r {
                Some(i) => i < self.mount_points@.len() && is_prefix(
                    self.mount_points@[i as int].path@,
                    path@,
                ) && (forall|j: int|
                    i < j < self.mount_points@.len() ==> !is_prefix(
                        #[trigger] self.mount_points@[j].path@,
                        path@,
                    )),
                None => forall|j: int|
                    0 <= j < self.mount_points@.len() ==> !is_prefix(
                        #[trigger] self.mount_points@[j].path@,
                        path@,
                    ),
            },
    {
        let n: usize = self.mount_points.len();
        let mut i: usize = n;
        while i > 0
            invariant
                i <= n,
                n == self.mount_points@.len(),
                forall|j: int|
                    i <= j < n ==> !is_prefix(#[trigger] self.mount_points@[j].path@, path@),
            decreases i,
        {
            i = i - 1;
            if starts_with(&self.mount_points[i].path, path) {
                return Some(i);
            }
        }
        None
    }
}

/// Lexicographic order is total.
proof fn lemma_lex_total_pair(a: Seq<u8>, b: Seq<u8>)
    ensures
        lex_le(a, b) || lex_le(b, a),
    decreases a.len(),
{
    if a.len() == 0 {
    } else if b.len() == 0 {
    } else if a[0] < b[0] {
    } else if a[0] > b[0] {
    } else {
        lemma_lex_total_pair(a.skip(1), b.skip(1));
    }
}

/// Lexicographic order is transitive.
proof fn lemma_lex_trans(a: Seq<u8>, b: Seq<u8>, c: Seq<u8>)
    requires
        lex_le(a, b),
        lex_le(b, c),
    ensures
        lex_le(a, c),
    decreases a.len(),
{
    if a.len() == 0 {
    } else {
        assert(b.len() > 0);
        assert(c.len() > 0);
        if a[0] < b[0] {
            if b[0] < c[0] {
            } else {
                assert(b[0] == c[0]);
            }
        } else {
            assert(a[0] == b[0]);
            if b[0] < c[0] {
            } else {
                assert(b[0] == c[0]);
                lemma_lex_trans(a.skip(1), b.skip(1), c.skip(1));
            }
        }
    }
}

} // verus!

//! Sv39 three-level page-table manipulator.
//!
//! A `MapTable` owns its page tables as data: table 0 is the 512-entry
//! root, and each further table is one 4 KiB frame drawn from a pool that
//! starts at `base`, so table `j` stands at physical address
//! `base + 4096 * j`. A page-table entry is a 64-bit word in the Sv39
//! layout: bits `[53:10]` hold the physical page number, bits `[9:0]` the
//! flags `V, R, W, X, U, G, A, D`. An entry is a leaf exactly when one of
//! `R, W, X` is set; a valid entry without them points at the next-level
//! table.

use vstd::prelude::*;

verus! {

use crate::page_alloc::PAGE_SIZE;
use vstd::arithmetic::div_mod::{
    lemma_breakdown, lemma_div_denominator, lemma_fundamental_div_mod, lemma_mod_bound,
};

/// Largest physical address the table encodes in an entry.
pub const PHYS_LIMIT: u64 = 0x40_0000_0000_0000;

/// Sv39 mode field of the `satp` register: `8 << 60`.
pub const SATP_MODE_SV39: u64 = 0x8000_0000_0000_0000;

/// The machine timer register, read-only to the kernel.
pub const MTIME_ADDRESS: u64 = 0x0200_bff8;

/// The machine timer compare register.
pub const MTIMECMP_ADDRESS: u64 = 0x0200_4000;

/// The test device: writing `SHUTDOWN_CODE` here halts the machine.
pub const SIFIVE_TEST_ADDRESS: u64 = 0x0010_0000;

/// The NS16550A serial port window.
pub const UART_ADDRESS: u64 = 0x1000_0000;

/// First Virtio MMIO probe slot.
pub const VIRTIO_ADDRESS: u64 = 0x1000_1000;

/// Base of the platform interrupt controller's register window.
pub const PLIC_BASE_ADDRESS: u64 = 0x0C00_0000;

/// The physical memory regions the kernel identity-maps at boot; the
/// bounds come from the linker and the device-tree heap sizing.
pub struct KernelLayout {
    pub text_start: u64,
    pub text_end: u64,
    pub rodata_start: u64,
    pub rodata_end: u64,
    pub data_start: u64,
    pub data_end: u64,
    pub bss_start: u64,
    pub bss_end: u64,
    pub kernel_stack_start: u64,
    pub kernel_stack_end: u64,
    pub heap_start: u64,
    pub heap_pages: u64,
}

impl KernelLayout {
    /// Each region is ordered, below the 256 GiB platform window, and at
    /// most 1 GiB wide.
    pub open spec fn wf(self) -> bool {
        &&& self.text_start <= self.text_end < 0x40_0000_0000
        &&& self.text_end - self.text_start < 0x4000_0000
        &&& self.rodata_start <= self.rodata_end < 0x40_0000_0000
        &&& self.rodata_end - self.rodata_start < 0x4000_0000
        &&& self.data_start <= self.data_end < 0x40_0000_0000
        &&& self.data_end - self.data_start < 0x4000_0000
        &&& self.bss_start <= self.bss_end < 0x40_0000_0000
        &&& self.bss_end - self.bss_start < 0x4000_0000
        &&& self.kernel_stack_start <= self.kernel_stack_end < 0x40_0000_0000
        &&& self.kernel_stack_end - self.kernel_stack_start < 0x4000_0000
        &&& self.heap_pages * 4096 < 0x4000_0000
        &&& self.heap_start + self.heap_pages * 4096 < 0x40_0000_0000
    }

    /// The addresses the boot identity map covers: the layout's regions,
    /// the timer, shutdown and UART registers, the interrupt controller's
    /// window, and the root page-table frame at `table_base`.
    pub open spec fn covers(self, va: u64, table_base: u64) -> bool {
        ||| self.text_start <= va < self.text_end
        ||| self.rodata_start <= va < self.rodata_end
        ||| self.data_start <= va < self.data_end
        ||| self.bss_start <= va < self.bss_end
        ||| self.kernel_stack_start <= va < self.kernel_stack_end
        ||| self.heap_start <= va < self.heap_start + self.heap_pages * 4096
        ||| MTIME_ADDRESS <= va < MTIME_ADDRESS + 8
        ||| MTIMECMP_ADDRESS <= va < MTIMECMP_ADDRESS + 8
        ||| SIFIVE_TEST_ADDRESS <= va < SIFIVE_TEST_ADDRESS + 4
        ||| va == UART_ADDRESS
        ||| va == table_base
        ||| PLIC_BASE_ADDRESS <= va < PLIC_BASE_ADDRESS + 0x20_0008
    }
}

/// The flag bits of a page-table entry, and the common combinations.
#[derive(Clone, Copy)]
pub enum EntryBits {
    Empty,
    Valid,
    Read,
    Write,
    Execute,
    User,
    Global,
    Access,
    Dirty,
    ReadWrite,
    ReadExecute,
    ReadWriteExecute,
    UserReadWrite,
    UserReadExecute,
}

impl EntryBits {
    pub open spec fn spec_val(self) -> u64 {
        match self {
            EntryBits::Empty => 0x00,
            EntryBits::Valid => 0x01,
            EntryBits::Read => 0x02,
            EntryBits::Write => 0x04,
            EntryBits::Execute => 0x08,
            EntryBits::User => 0x10,
            EntryBits::Global => 0x20,
            EntryBits::Access => 0x40,
            EntryBits::Dirty => 0x80,
            EntryBits::ReadWrite => 0x06,
            EntryBits::ReadExecute => 0x0a,
            EntryBits::ReadWriteExecute => 0x0e,
            EntryBits::UserReadWrite => 0x16,
            EntryBits::UserReadExecute => 0x1a,
        }
    }

    pub fn val(self) -> (r: u64)
        ensures
            r == self.spec_val(),
    {
        match self {
            EntryBits::Empty => 0x00,
            EntryBits::Valid => 0x01,
            EntryBits::Read => 0x02,
            EntryBits::Write => 0x04,
            EntryBits::Execute => 0x08,
            EntryBits::User => 0x10,
            EntryBits::Global => 0x20,
            EntryBits::Access => 0x40,
            EntryBits::Dirty => 0x80,
            EntryBits::ReadWrite => 0x06,
            EntryBits::ReadExecute => 0x0a,
            EntryBits::ReadWriteExecute => 0x0e,
            EntryBits::UserReadWrite => 0x16,
            EntryBits::UserReadExecute => 0x1a,
        }
    }
}

/// A valid entry has bit `V`, the lowest bit: its parity.
pub open spec fn e_valid(e: u64) -> bool {
    e % 2 == 1
}

/// The three permission bits `R, W, X` of an entry, as one number.
pub open spec fn e_rwx(e: u64) -> int {
    (e as int / 2) % 8
}

/// A leaf is a valid entry with at least one of `R, W, X`.
pub open spec fn e_leaf(e: u64) -> bool {
    e_valid(e) && e_rwx(e) != 0
}

/// A branch is a valid entry with none of `R, W, X`: it points at the
/// next-level table.
pub open spec fn e_branch(e: u64) -> bool {
    e_valid(e) && e_rwx(e) == 0
}

/// The physical page number held in bits `[53:10]` of an entry.
pub open spec fn e_ppn(e: u64) -> int {
    e as int / 1024
}

/// One page-table entry.
#[derive(Clone, Copy)]
pub struct Entry {
    pub entry: u64,
}

impl Entry {
    pub fn new() -> (r: Entry)
        ensures
            r.entry == 0,
    {
        Entry { entry: 0 }
    }

    pub fn is_valid(&self) -> (r: bool)
        ensures
            r == e_valid(self.entry),
    {
        self.entry % 2 == 1
    }

    pub fn is_leaf(&self) -> (r: bool)
        ensures
            r == e_leaf(self.entry),
    {
        self.entry % 2 == 1 && (self.entry / 2) % 8 != 0
    }

    pub fn set_entry(&mut self, entry: u64)
        ensures
            final(self).entry == entry,
    {
        self.entry = entry;
    }

    pub fn get_entry(&self) -> (r: u64)
        ensures
            r == self.entry,
    {
        self.entry
    }
}

impl Default for Entry {
    fn default() -> (r: Entry)
        ensures
            r.entry == 0,
    {
        Entry::new()
    }
}

/// Bytes covered by a leaf at the given level: 4 KiB, 2 MiB or 1 GiB.
pub open spec fn level_size(level: int) -> int {
    if level == 0 {
        0x1000
    } else if level == 1 {
        0x20_0000
    } else {
        0x4000_0000
    }
}

/// The nine `level`-indexed bits of a virtual address: `VPN[level]`.
pub open spec fn vpn(va: u64, level: int) -> int {
    (va as int / level_size(level)) % 512
}

/// The physical address a leaf entry `e` at `level` translates `va` to:
/// the entry's page number down to the level's alignment, plus the low
/// `va` bits the level leaves untranslated.
pub open spec fn leaf_phys(e: u64, va: u64, level: int) -> int {
    (e_ppn(e) * 4096 / level_size(level)) * level_size(level) + (va as int % level_size(level))
}

/// The Sv39 map table: the pool base address and the tables themselves,
/// the root first.
pub struct MapTable {
    pub base: u64,
    pub tables: Vec<Vec<Entry>>,
}

impl MapTable {
    /// The pool index a branch entry points at.
    pub open spec fn child_index(self, e: u64) -> int {
        e_ppn(e) - self.base as int / 4096
    }

    pub open spec fn table_wf(self, t: int) -> bool {
        &&& self.tables@[t]@.len() == 512
        &&& forall|i: int|
            0 <= i < 512 ==> (0 <= #[trigger] self.tables@[t]@[i].entry < 0x10_0000_0000_0000)
        &&& forall|i: int|
            0 <= i < 512 && e_branch(#[trigger] self.tables@[t]@[i].entry) ==> t
                < self.child_index(self.tables@[t]@[i].entry) < self.tables@.len()
    }

    /// Well-formed: an aligned pool below the encodable limit, a root,
    /// every table 512 entries of bounded non-negative words, every branch
    /// pointing forward at a pool table, and no two branches sharing a
    /// child, so the tables form a forest rooted in table 0.
    pub open spec fn wf(self) -> bool {
        &&& self.base % 4096 == 0
        &&& self.base + 4096 * self.tables@.len() <= PHYS_LIMIT
        &&& 1 <= self.tables@.len()
        &&& forall|t: int| 0 <= t < self.tables@.len() ==> self.table_wf(t)
        &&& forall|ta: int, ia: int, tb: int, ib: int|
            #![trigger self.tables@[ta]@[ia].entry, self.tables@[tb]@[ib].entry]
            0 <= ta < self.tables@.len() && 0 <= ia < 512 && 0 <= tb < self.tables@.len() && 0 <= ib
                < 512 && e_branch(self.tables@[ta]@[ia].entry) && e_branch(
                self.tables@[tb]@[ib].entry,
            ) && self.child_index(self.tables@[ta]@[ia].entry) == self.child_index(
                self.tables@[tb]@[ib].entry,
            ) ==> ta == tb && ia == ib
    }

    /// The entry the walk for `va` reads at `level`, if the walk gets there.
    pub open spec fn walk_entry(self, va: u64, level: int) -> Option<u64> {
        let e2 = self.tables@[0]@[vpn(va, 2)].entry;
        if level == 2 {
            Some(e2)
        } else if !e_branch(e2) {
            None
        } else {
            let e1 = self.tables@[self.child_index(e2)]@[vpn(va, 1)].entry;
            if level == 1 {
                Some(e1)
            } else if !e_branch(e1) {
                None
            } else {
                Some(self.tables@[self.child_index(e1)]@[vpn(va, 0)].entry)
            }
        }
    }

    /// The walk for `va` ends in a leaf at `level`.
    pub open spec fn leaf_at(self, va: u64, level: int) -> bool {
        match self.walk_entry(va, level) {
            Some(e) => e_leaf(e),
            None => false,
        }
    }

    /// The leaf word the walk for `va` reads at `level`, if it reads one:
    /// the full page-table entry, permission flags included.
    pub open spec fn leaf_word_at(self, va: u64, level: int) -> Option<u64> {
        match self.walk_entry(va, level) {
            Some(e) => if e_leaf(e) {
                Some(e)
            } else {
                None
            },
            None => None,
        }
    }

    /// No leaf sits above `level` on the walk for `va`, so a mapping at
    /// `level` can be placed without walking through a huge-page leaf.
    pub open spec fn path_clear(self, va: u64, level: int) -> bool {
        forall|l: int| level < l <= 2 ==> !self.leaf_at(va, l)
    }

    /// The full Sv39 address translation, as the hardware walker reads
    /// the table: `None` on an invalid entry, the leaf's physical frame
    /// plus the untranslated offset on a leaf.
    pub open spec fn translate(self, va: u64) -> Option<int> {
        let e2 = self.tables@[0]@[vpn(va, 2)].entry;
        if !e_valid(e2) {
            None
        } else if e_leaf(e2) {
            Some(leaf_phys(e2, va, 2))
        } else {
            let e1 = self.tables@[self.child_index(e2)]@[vpn(va, 1)].entry;
            if !e_valid(e1) {
                None
            } else if e_leaf(e1) {
                Some(leaf_phys(e1, va, 1))
            } else {
                let e0 = self.tables@[self.child_index(e1)]@[vpn(va, 0)].entry;
                if e_leaf(e0) {
                    Some(leaf_phys(e0, va, 0))
                } else {
                    None
                }
            }
        }
    }

    /// A fresh map table with a zeroed root at `base`: nothing mapped.
    pub fn new(base: u64) -> (r: MapTable)
        requires
            base % 4096 == 0,
            base + 4096 <= PHYS_LIMIT,
        ensures
            r.wf(),
            r.base == base,
            r.tables@.len() == 1,
            forall|va: u64| r.translate(va) == Option::<int>::None,
            forall|va: u64, l: int| 0 <= l <= 2 ==> !r.leaf_at(va, l),
    {
        let root = MapTable::new_table();
        let mut tables: Vec<Vec<Entry>> = Vec::new();
        tables.push(root);
        let r = MapTable { base, tables };
        proof {
            assert forall|va: u64| r.translate(va) is None by {
                assert(r.tables@[0]@[vpn(va, 2)].entry == 0);
            }
            assert forall|va: u64, l: int| 0 <= l <= 2 implies !r.leaf_at(va, l) by {
                assert(r.tables@[0]@[vpn(va, 2)].entry == 0);
            }
        }
        r
    }

    /// One zeroed 512-entry table.
    fn new_table() -> (r: Vec<Entry>)
        ensures
            r@.len() == 512,
            forall|i: int| 0 <= i < 512 ==> r@[i].entry == 0,
    {
        let mut t: Vec<Entry> = Vec::new();
        let mut i: usize = 0;
        while i < 512
            invariant
                i <= 512,
                t@.len() == i,
                forall|k: int| 0 <= k < i ==> t@[k].entry == 0,
            decreases 512 - i,
        {
            t.push(Entry { entry: 0 });
            i = i + 1;
        }
        t
    }

    /// Converts a virtual address to the physical address the table maps
    /// it to, exactly as the spec-level walk reads the entries.
    pub fn virt_to_phys(&self, vaddr: u64) -> (r: Option<u64>)
        requires
            self.wf(),
        ensures
            match r {
                Some(pa) => self.translate(vaddr) == Some(pa as int),
                None => self.translate(vaddr) is None,
            },
    {
        let nt: usize = self.tables.len();
        proof {
            assert(self.table_wf(0));
        }
        let idx2: usize = ((vaddr / 0x4000_0000) % 512) as usize;
        let e2: u64 = self.tables[0][idx2].entry;
        proof {
            assert(idx2 as int == vpn(vaddr, 2));
        }
        if e2 % 2 != 1 {
            return None;
        }
        if (e2 / 2) % 8 != 0 {
            return Some(Self::leaf_address(e2, vaddr, 0x4000_0000));
        }
        proof {
            assert(e_branch(e2));
            assert(1 <= self.child_index(e2) < nt);
        }
        let t1: usize = ((e2 / 1024) - self.base / 4096) as usize;
        proof {
            assert(t1 as int == self.child_index(e2));
            assert(self.table_wf(t1 as int));
        }
        let idx1: usize = ((vaddr / 0x20_0000) % 512) as usize;
        let e1: u64 = self.tables[t1][idx1].entry;
        proof {
            assert(idx1 as int == vpn(vaddr, 1));
        }
        if e1 % 2 != 1 {
            return None;
        }
        if (e1 / 2) % 8 != 0 {
            return Some(Self::leaf_address(e1, vaddr, 0x20_0000));
        }
        proof {
            assert(e_branch(e1));
            assert(1 <= self.child_index(e1) < nt);
        }
        let t0: usize = ((e1 / 1024) - self.base / 4096) as usize;
        proof {
            assert(t0 as int == self.child_index(e1));
            assert(self.table_wf(t0 as int));
        }
        let idx0: usize = ((vaddr / 0x1000) % 512) as usize;
        let e0: u64 = self.tables[t0][idx0].entry;
        proof {
            assert(idx0 as int == vpn(vaddr, 0));
        }
        if e0 % 2 == 1 && (e0 / 2) % 8 != 0 {
            return Some(Self::leaf_address(e0, vaddr, 0x1000));
        }
        None
    }

    /// Combines a leaf entry's page number with the untranslated low bits
    /// of the address, for a leaf whose level covers `ls` bytes.
    fn leaf_address(e: u64, vaddr: u64, ls: u64) -> (r: u64)
        requires
            e < 0x10_0000_0000_0000,
            ls == 0x1000 || ls == 0x20_0000 || ls == 0x4000_0000,
        ensures
            r == (e_ppn(e) * 4096 / ls as int) * ls as int + (vaddr as int % ls as int),
            r < PHYS_LIMIT + ls,
    {
        let page: u64 = ((e / 1024) * 4096 / ls) * ls;
        proof {
            assert(page + ls <= PHYS_LIMIT && page as int == (e_ppn(e) * 4096 / ls as int)
                * ls as int) by (nonlinear_arith)
                requires
                    0 <= e < 0x10_0000_0000_0000,
                    (ls == 0x1000 || ls == 0x20_0000 || ls == 0x4000_0000),
                    page == ((e as int / 1024) * 4096 / ls as int) * ls as int,
                    e_ppn(e) == e as int / 1024,
                    PHYS_LIMIT == 0x40_0000_0000_0000,
            ;
        }
        page + vaddr % ls
    }

    /// Turns slot `idx` of table `t` into a branch if it is not one yet,
    /// growing the pool by one zeroed table, and returns the child's pool
    /// index. Nothing observable through the walk changes: a fresh branch
    /// leads into an all-invalid table.
    fn ensure_branch(&mut self, t: usize, idx: usize) -> (r: usize)
        requires
            old(self).wf(),
            t < old(self).tables@.len(),
            idx < 512,
            !e_leaf(old(self).tables@[t as int]@[idx as int].entry),
            old(self).base + 4096 * (old(self).tables@.len() + 1) <= PHYS_LIMIT,
        ensures
            final(self).wf(),
            final(self).base == old(self).base,
            old(self).tables@.len() <= final(self).tables@.len() <= old(self).tables@.len() + 1,
            e_branch(final(self).tables@[t as int]@[idx as int].entry),
            r as int == final(self).child_index(final(self).tables@[t as int]@[idx as int].entry),
            t < r < final(self).tables@.len(),
            forall|t2: int, i: int|
                0 <= t2 < old(self).tables@.len() && 0 <= i < 512 && !(t2 == t && i == idx)
                    ==> final(self).tables@[t2]@[i] == #[trigger] old(self).tables@[t2]@[i],
            forall|va: u64| final(self).translate(va) == old(self).translate(va),
            forall|va: u64, l: int| final(self).leaf_at(va, l) == old(self).leaf_at(va, l),
            forall|va: u64, l: int| final(self).leaf_word_at(va, l) == old(self).leaf_word_at(va, l),
    {
        let ghost pre = *self;
        let n: usize = self.tables.len();
        proof {
            assert(self.table_wf(t as int));
        }
        let e: u64 = self.tables[t][idx].entry;
        if e % 2 == 1 {
            proof {
                assert(e_branch(e));
                assert((t as int) < pre.child_index(e) && pre.child_index(e) < pre.tables@.len());
            }
            let r: usize = ((e / 1024) - self.base / 4096) as usize;
            proof {
                assert(r as int == pre.child_index(e));
            }
            return r;
        }
        let r: usize = n;
        let new_addr: u64 = self.base + 4096 * (r as u64);
        let table = Self::new_table();
        self.tables.push(table);
        let ghost mid = *self;
        proof {
            assert(new_addr as int % 4096 == 0 && new_addr / 4 == (new_addr as int / 4096) * 1024
                && new_addr as int / 4096 < 0x400_0000_0000) by (nonlinear_arith)
                requires
                    new_addr == pre.base + 4096 * pre.tables@.len(),
                    pre.base % 4096 == 0,
                    pre.base >= 0,
                    pre.tables@.len() >= 0,
                    new_addr + 4096 <= PHYS_LIMIT,
                    PHYS_LIMIT == 0x40_0000_0000_0000,
            ;
            lemma_entry_decompose(new_addr as int / 4096, 1);
        }
        let branch: u64 = (new_addr / 4) + 1;
        self.write_entry(t, idx, branch);
        let ghost post = *self;
        proof {
            assert(e_branch(branch) && e_ppn(branch) == new_addr as int / 4096);
            assert(post.child_index(branch) == r as int) by (nonlinear_arith)
                requires
                    post.child_index(branch) == e_ppn(branch) - post.base as int / 4096,
                    e_ppn(branch) == new_addr as int / 4096,
                    new_addr == post.base + 4096 * r,
                    post.base % 4096 == 0,
                    post.base >= 0,
                    r >= 0,
            ;
            // What each table holds now.
            assert(post.tables@.len() == pre.tables@.len() + 1);
            assert forall|t2: int, i: int|
                0 <= t2 < pre.tables@.len() && 0 <= i < 512 && !(t2 == t && i == idx)
                implies post.tables@[t2]@[i] == #[trigger] pre.tables@[t2]@[i] by {
                assert(pre.table_wf(t2));
                assert(mid.tables@[t2] == pre.tables@[t2]);
                assert(post.tables@[t2]@[i] == mid.tables@[t2]@[i]);
            }
            assert(post.tables@[t as int]@[idx as int].entry == branch);
            assert forall|i: int| 0 <= i < 512 implies post.tables@[r as int]@[i].entry == 0 by {
                assert(mid.tables@[r as int]@[i].entry == 0);
                assert(post.tables@[r as int]@[i] == mid.tables@[r as int]@[i]);
            }
            assert forall|t2: int| 0 <= t2 < post.tables@.len() implies post.tables@[t2]@.len()
                == 512 by {
                if t2 < pre.tables@.len() {
                    assert(pre.table_wf(t2));
                    assert(mid.tables@[t2] == pre.tables@[t2]);
                } else {
                    assert(mid.tables@[t2]@.len() == 512);
                }
            }
            // Well-formedness of the grown pool.
            assert forall|t2: int| 0 <= t2 < post.tables@.len() implies post.table_wf(t2) by {
                assert forall|i: int| 0 <= i < 512 implies (0 <= #[trigger] post.tables@[t2]@[i].entry
                    < 0x10_0000_0000_0000) by {
                    if t2 == r as int {
                        assert(post.tables@[t2]@[i].entry == 0);
                    } else if t2 == t as int && i == idx as int {
                    } else {
                        assert(pre.table_wf(t2));
                        assert(post.tables@[t2]@[i] == pre.tables@[t2]@[i]);
                    }
                }
                assert forall|i: int|
                    0 <= i < 512 && e_branch(#[trigger] post.tables@[t2]@[i].entry) implies t2
                    < post.child_index(post.tables@[t2]@[i].entry) < post.tables@.len() by {
                    if t2 == r as int {
                        assert(post.tables@[t2]@[i].entry == 0);
                        assert(!e_valid(0u64));
                    } else if t2 == t as int && i == idx as int {
                    } else {
                        assert(pre.table_wf(t2));
                        assert(post.tables@[t2]@[i] == pre.tables@[t2]@[i]);
                    }
                }
            }
            assert forall|ta: int, ia: int, tb: int, ib: int|
                #![trigger post.tables@[ta]@[ia].entry, post.tables@[tb]@[ib].entry]
                0 <= ta < post.tables@.len() && 0 <= ia < 512 && 0 <= tb < post.tables@.len()
                    && 0 <= ib < 512 && e_branch(post.tables@[ta]@[ia].entry) && e_branch(
                    post.tables@[tb]@[ib].entry,
                ) && post.child_index(post.tables@[ta]@[ia].entry) == post.child_index(
                    post.tables@[tb]@[ib].entry,
                ) implies ta == tb && ia == ib by {
                if ta == r as int {
                    assert(post.tables@[ta]@[ia].entry == 0);
                    assert(!e_valid(0u64));
                } else if tb == r as int {
                    assert(post.tables@[tb]@[ib].entry == 0);
                    assert(!e_valid(0u64));
                } else {
                    if ta == t as int && ia == idx as int {
                        if !(tb == t as int && ib == idx as int) {
                            assert(post.tables@[tb]@[ib] == pre.tables@[tb]@[ib]);
                            assert(pre.table_wf(tb));
                        }
                    } else if tb == t as int && ib == idx as int {
                        assert(post.tables@[ta]@[ia] == pre.tables@[ta]@[ia]);
                        assert(pre.table_wf(ta));
                    } else {
                        assert(post.tables@[ta]@[ia] == pre.tables@[ta]@[ia]);
                        assert(post.tables@[tb]@[ib] == pre.tables@[tb]@[ib]);
                    }
                }
            }
            assert(post.wf());
            // The walk sees no difference: the fresh branch leads to an
            // all-invalid table, where the old slot was invalid.
            assert forall|va: u64| post.translate(va) == pre.translate(va) by {
                post.lemma_branch_step_translate(pre, t as int, idx as int, r as int, va);
            }
            assert forall|va: u64, l: int| post.leaf_at(va, l) == pre.leaf_at(va, l) by {
                post.lemma_branch_step_translate(pre, t as int, idx as int, r as int, va);
            }
            assert forall|va: u64, l: int| post.leaf_word_at(va, l) == pre.leaf_word_at(
                va,
                l,
            ) by {
                post.lemma_branch_step_translate(pre, t as int, idx as int, r as int, va);
            }
        }
        r
    }

    /// After an invalid slot `(t, idx)` is turned into a branch to the
    /// zeroed table `r` (appended to the pool), every walk reads the same
    /// result as before.
    proof fn lemma_branch_step_translate(self, pre: MapTable, t: int, idx: int, r: int, va: u64)
        requires
            pre.wf(),
            self.wf(),
            self.base == pre.base,
            0 <= t < pre.tables@.len(),
            0 <= idx < 512,
            !e_valid(pre.tables@[t]@[idx].entry),
            self.tables@.len() == pre.tables@.len() + 1,
            r == pre.tables@.len(),
            e_branch(self.tables@[t]@[idx].entry),
            self.child_index(self.tables@[t]@[idx].entry) == r,
            forall|i: int| 0 <= i < 512 ==> self.tables@[r]@[i].entry == 0,
            forall|t2: int, i: int|
                0 <= t2 < pre.tables@.len() && 0 <= i < 512 && !(t2 == t && i == idx)
                    ==> self.tables@[t2]@[i] == #[trigger] pre.tables@[t2]@[i],
        ensures
            self.translate(va) == pre.translate(va),
            forall|l: int| self.leaf_at(va, l) == pre.leaf_at(va, l),
            forall|l: int| self.leaf_word_at(va, l) == pre.leaf_word_at(va, l),
    {
        assert(pre.table_wf(0) && self.table_wf(0));
        let i2 = vpn(va, 2);
        assert(0 <= i2 < 512);
        let e2n = self.tables@[0]@[i2].entry;
        let e2o = pre.tables@[0]@[i2].entry;
        if t == 0 && idx == i2 {
            // the changed slot: invalid before, branch to zeros now
            assert(!e_valid(e2o));
            assert(self.tables@[r]@[vpn(va, 1)].entry == 0);
            assert(forall|l: int| self.walk_entry(va, l) is Some ==> (l == 2 || (l == 1
                && self.walk_entry(va, l) == Some(0u64))) || self.walk_entry(va, l) is None);
        } else {
            assert(e2n == e2o);
            if e_branch(e2o) {
                let c1 = pre.child_index(e2o);
                assert(pre.table_wf(c1) && self.table_wf(c1));
                let i1 = vpn(va, 1);
                assert(0 <= i1 < 512);
                let e1n = self.tables@[c1]@[i1].entry;
                let e1o = pre.tables@[c1]@[i1].entry;
                if c1 == t && i1 == idx {
                    assert(!e_valid(e1o));
                    assert(self.tables@[r]@[vpn(va, 0)].entry == 0);
                } else {
                    assert(e1n == e1o);
                    if e_branch(e1o) {
                        let c0 = pre.child_index(e1o);
                        assert(pre.table_wf(c0) && self.table_wf(c0));
                        let i0 = vpn(va, 0);
                        assert(0 <= i0 < 512);
                        if c0 == t && i0 == idx {
                            assert(!e_valid(pre.tables@[c0]@[i0].entry));
                            assert(!e_leaf(self.tables@[c0]@[i0].entry));
                        } else {
                            assert(self.tables@[c0]@[i0] == pre.tables@[c0]@[i0]);
                        }
                    }
                }
            }
        }
    }

    /// What one walk sees after a leaf `leaf` is written into the slot the
    /// path of `vaddr` selects at `level` (table `tw`; for a 4 KiB mapping,
    /// `t1` is the mid-level table): addresses sharing the path translate
    /// through the new leaf, every other walk is untouched.
    proof fn lemma_leaf_write_translate(
        self,
        pre: MapTable,
        vaddr: u64,
        level: int,
        tw: int,
        t1: int,
        leaf: u64,
        va: u64,
    )
        requires
            pre.wf(),
            self.wf(),
            self.base == pre.base,
            self.tables@.len() == pre.tables@.len(),
            0 <= level <= 2,
            0 <= tw < pre.tables@.len(),
            level == 2 ==> tw == 0,
            level == 1 ==> 1 <= tw && e_branch(pre.tables@[0]@[vpn(vaddr, 2)].entry)
                && pre.child_index(pre.tables@[0]@[vpn(vaddr, 2)].entry) == tw,
            level == 0 ==> 1 <= t1 < tw && e_branch(pre.tables@[0]@[vpn(vaddr, 2)].entry)
                && pre.child_index(pre.tables@[0]@[vpn(vaddr, 2)].entry) == t1 && e_branch(
                pre.tables@[t1]@[vpn(vaddr, 1)].entry,
            ) && pre.child_index(pre.tables@[t1]@[vpn(vaddr, 1)].entry) == tw,
            e_leaf(leaf),
            self.tables@[tw]@[vpn(vaddr, level)].entry == leaf,
            forall|t2: int, i: int|
                0 <= t2 < pre.tables@.len() && 0 <= i < 512 && !(t2 == tw && i == vpn(
                    vaddr,
                    level,
                )) ==> self.tables@[t2]@[i] == #[trigger] pre.tables@[t2]@[i],
        ensures
            same_path(va, vaddr, level) ==> self.translate(va) == Some(leaf_phys(leaf, va, level)),
            same_path(va, vaddr, level) ==> self.leaf_word_at(va, level) == Some(leaf),
            !same_path(va, vaddr, level) ==> self.translate(va) == pre.translate(va),
            !same_path(va, vaddr, level) ==> self.leaf_word_at(va, level) == pre.leaf_word_at(
                va,
                level,
            ),
            forall|l: int| level < l <= 2 ==> self.leaf_at(va, l) == pre.leaf_at(va, l),
            forall|l: int|
                level < l <= 2 ==> self.leaf_word_at(va, l) == pre.leaf_word_at(va, l),
            self.leaf_at(va, level) == (pre.leaf_at(va, level) || same_path(va, vaddr, level)),
    {
        assert(pre.table_wf(0) && self.table_wf(0));
        let v2 = vpn(vaddr, 2);
        let v1 = vpn(vaddr, 1);
        let v0 = vpn(vaddr, 0);
        let i2 = vpn(va, 2);
        let i1 = vpn(va, 1);
        let i0 = vpn(va, 0);
        if level == 2 {
            if i2 == v2 {
                assert(self.tables@[0]@[i2].entry == leaf);
            } else {
                assert(self.tables@[0]@[i2] == pre.tables@[0]@[i2]);
                let e2 = pre.tables@[0]@[i2].entry;
                if e_branch(e2) {
                    let c1 = pre.child_index(e2);
                    assert(pre.table_wf(c1) && self.table_wf(c1));
                    assert(forall|i: int|
                        0 <= i < 512 ==> self.tables@[c1]@[i] == #[trigger] pre.tables@[c1]@[i]);
                    let e1 = pre.tables@[c1]@[i1].entry;
                    if e_branch(e1) {
                        let c0 = pre.child_index(e1);
                        assert(pre.table_wf(c0) && self.table_wf(c0));
                        assert(forall|i: int|
                            0 <= i < 512 ==> self.tables@[c0]@[i] == #[trigger] pre.tables@[c0]@[i]);
                    }
                }
            }
        } else if level == 1 {
            assert(pre.table_wf(tw) && self.table_wf(tw));
            if i2 == v2 {
                assert(self.tables@[0]@[i2] == pre.tables@[0]@[i2]);
                if i1 == v1 {
                    assert(self.tables@[tw]@[i1].entry == leaf);
                } else {
                    assert(self.tables@[tw]@[i1] == pre.tables@[tw]@[i1]);
                    let e1 = pre.tables@[tw]@[i1].entry;
                    if e_branch(e1) {
                        let c0 = pre.child_index(e1);
                        assert(pre.table_wf(c0) && self.table_wf(c0));
                        assert(c0 != tw);
                        assert(forall|i: int|
                            0 <= i < 512 ==> self.tables@[c0]@[i] == #[trigger] pre.tables@[c0]@[i]);
                    }
                }
            } else {
                assert(self.tables@[0]@[i2] == pre.tables@[0]@[i2]);
                let e2 = pre.tables@[0]@[i2].entry;
                if e_branch(e2) {
                    let c1 = pre.child_index(e2);
                    assert(pre.table_wf(c1) && self.table_wf(c1));
                    if c1 == tw {
                        assert(pre.child_index(pre.tables@[0]@[i2].entry) == pre.child_index(
                            pre.tables@[0]@[v2].entry,
                        ));
                        assert(false);
                    }
                    assert(forall|i: int|
                        0 <= i < 512 ==> self.tables@[c1]@[i] == #[trigger] pre.tables@[c1]@[i]);
                    let e1 = pre.tables@[c1]@[i1].entry;
                    if e_branch(e1) {
                        let c0 = pre.child_index(e1);
                        assert(pre.table_wf(c0) && self.table_wf(c0));
                        if c0 == tw {
                            assert(pre.child_index(pre.tables@[c1]@[i1].entry) == pre.child_index(
                                pre.tables@[0]@[v2].entry,
                            ));
                            assert(false);
                        }
                        assert(forall|i: int|
                            0 <= i < 512 ==> self.tables@[c0]@[i] == #[trigger] pre.tables@[c0]@[i]);
                    }
                }
            }
        } else {
            assert(pre.table_wf(t1) && self.table_wf(t1));
            assert(pre.table_wf(tw) && self.table_wf(tw));
            if i2 == v2 {
                assert(self.tables@[0]@[i2] == pre.tables@[0]@[i2]);
                if i1 == v1 {
                    assert(self.tables@[t1]@[i1] == pre.tables@[t1]@[i1]);
                    if i0 == v0 {
                        assert(self.tables@[tw]@[i0].entry == leaf);
                    } else {
                        assert(self.tables@[tw]@[i0] == pre.tables@[tw]@[i0]);
                    }
                } else {
                    assert(self.tables@[t1]@[i1] == pre.tables@[t1]@[i1]);
                    let e1 = pre.tables@[t1]@[i1].entry;
                    if e_branch(e1) {
                        let c0 = pre.child_index(e1);
                        assert(pre.table_wf(c0) && self.table_wf(c0));
                        if c0 == tw {
                            assert(pre.child_index(pre.tables@[t1]@[i1].entry) == pre.child_index(
                                pre.tables@[t1]@[v1].entry,
                            ));
                            assert(false);
                        }
                        assert(forall|i: int|
                            0 <= i < 512 ==> self.tables@[c0]@[i] == #[trigger] pre.tables@[c0]@[i]);
                    }
                }
            } else {
                assert(self.tables@[0]@[i2] == pre.tables@[0]@[i2]);
                let e2 = pre.tables@[0]@[i2].entry;
                if e_branch(e2) {
                    let c1 = pre.child_index(e2);
                    assert(pre.table_wf(c1) && self.table_wf(c1));
                    if c1 == t1 {
                        assert(pre.child_index(pre.tables@[0]@[i2].entry) == pre.child_index(
                            pre.tables@[0]@[v2].entry,
                        ));
                        assert(false);
                    }
                    if c1 == tw {
                        assert(pre.child_index(pre.tables@[0]@[i2].entry) == pre.child_index(
                            pre.tables@[t1]@[v1].entry,
                        ));
                        assert(false);
                    }
                    assert(forall|i: int|
                        0 <= i < 512 ==> self.tables@[c1]@[i] == #[trigger] pre.tables@[c1]@[i]);
                    let e1 = pre.tables@[c1]@[i1].entry;
                    if e_branch(e1) {
                        let c0 = pre.child_index(e1);
                        assert(pre.table_wf(c0) && self.table_wf(c0));
                        if c0 == tw {
                            assert(pre.child_index(pre.tables@[c1]@[i1].entry) == pre.child_index(
                                pre.tables@[t1]@[v1].entry,
                            ));
                            assert(false);
                        }
                        assert(forall|i: int|
                            0 <= i < 512 ==> self.tables@[c0]@[i] == #[trigger] pre.tables@[c0]@[i]);
                    }
                }
            }
        }
    }

    /// Writes the Sv39 leaf for `vaddr -> paddr` at `level`, allocating
    /// intermediate tables on the way down as the walk needs them.
    ///
    /// `bits` carries the leaf's permission flags and must name a leaf
    /// (at least one of `R`, `W`, `X`); `A` and `D` are set as well, since
    /// some machines fault on a leaf without them. Afterwards every
    /// address sharing the `level`-path of `vaddr` translates into the
    /// mapped frame, and no other translation has moved.
    pub fn map(&mut self, vaddr: u64, paddr: u64, bits: u64, level: usize)
        requires
            old(self).wf(),
            bits & 0xe != 0,
            bits < 1024,
            level <= 2,
            paddr < PHYS_LIMIT,
            old(self).base + 4096 * (old(self).tables@.len() + 2) <= PHYS_LIMIT,
            old(self).path_clear(vaddr, level as int),
        ensures
            final(self).wf(),
            final(self).base == old(self).base,
            old(self).tables@.len() <= final(self).tables@.len() <= old(self).tables@.len() + 2,
            forall|va: u64|
                same_path(va, vaddr, level as int) ==> final(self).translate(va) == Some(
                    mapped_phys(paddr, va, level as int),
                ),
            forall|va: u64|
                !same_path(va, vaddr, level as int) ==> final(self).translate(va) == old(
                    self,
                ).translate(va),
            forall|va: u64|
                #![trigger final(self).leaf_word_at(va, level as int)]
                final(self).leaf_word_at(va, level as int) == (if same_path(
                    va,
                    vaddr,
                    level as int,
                ) {
                    Some(((paddr as int / 4096) * 1024 + (bits | 0xc1)) as u64)
                } else {
                    old(self).leaf_word_at(va, level as int)
                }),
            forall|l: int|
                (level as int) < l <= 2 ==> final(self).walk_entry(vaddr, l) is Some && e_branch(
                    final(self).walk_entry(vaddr, l)->Some_0,
                ),
            forall|va: u64, l: int|
                (level as int) < l <= 2 ==> final(self).leaf_at(va, l) == old(self).leaf_at(va, l),
            forall|va: u64, l: int|
                (level as int) < l <= 2 ==> final(self).leaf_word_at(va, l) == old(
                    self,
                ).leaf_word_at(va, l),
            forall|va: u64|
                #![trigger final(self).leaf_at(va, level as int)]
                final(self).leaf_at(va, level as int) == (old(self).leaf_at(va, level as int)
                    || same_path(va, vaddr, level as int)),
    {
        let ghost pre = *self;
        proof {
            lemma_leaf_flag_bits(bits);
            assert(paddr as int / 4096 < 0x400_0000_0000) by (nonlinear_arith)
                requires
                    0 <= paddr < 0x40_0000_0000_0000,
            ;
            lemma_entry_decompose(paddr as int / 4096, (bits | 0xc1) as int);
        }
        let flags: u64 = bits | 0xc1;
        let leaf: u64 = (paddr / 4096) * 1024 + flags;
        let ghost lvl = level as int;
        let tw: usize;
        let iw: usize;
        let ghost mut gt1: int = 0;
        if level == 2 {
            tw = 0;
            iw = ((vaddr / 0x4000_0000) % 512) as usize;
            proof {
                assert(self.table_wf(0));
            }
        } else if level == 1 {
            let idx2: usize = ((vaddr / 0x4000_0000) % 512) as usize;
            proof {
                assert(self.table_wf(0));
                assert(idx2 as int == vpn(vaddr, 2));
                assert(!pre.leaf_at(vaddr, 2));
                assert(!e_leaf(pre.tables@[0]@[idx2 as int].entry));
            }
            tw = self.ensure_branch(0, idx2);
            iw = ((vaddr / 0x20_0000) % 512) as usize;
        } else {
            let idx2: usize = ((vaddr / 0x4000_0000) % 512) as usize;
            proof {
                assert(self.table_wf(0));
                assert(idx2 as int == vpn(vaddr, 2));
                assert(!pre.leaf_at(vaddr, 2));
                assert(!e_leaf(pre.tables@[0]@[idx2 as int].entry));
            }
            let t1: usize = self.ensure_branch(0, idx2);
            let ghost s1 = *self;
            proof {
                gt1 = t1 as int;
            }
            let idx1: usize = ((vaddr / 0x20_0000) % 512) as usize;
            proof {
                assert(idx1 as int == vpn(vaddr, 1));
                assert(!self.leaf_at(vaddr, 1)) by {
                    assert(self.leaf_at(vaddr, 1) == pre.leaf_at(vaddr, 1));
                    assert(!pre.leaf_at(vaddr, 1));
                }
                assert(e_branch(self.tables@[0]@[idx2 as int].entry));
                assert(self.walk_entry(vaddr, 1) == Some(
                    self.tables@[t1 as int]@[idx1 as int].entry,
                ));
                assert(!e_leaf(self.tables@[t1 as int]@[idx1 as int].entry));
            }
            tw = self.ensure_branch(t1, idx1);
            proof {
                // the root branch to t1 survives the second growth step
                assert(self.tables@[0]@[idx2 as int] == s1.tables@[0]@[idx2 as int]);
                assert(e_branch(self.tables@[0]@[idx2 as int].entry));
                assert(self.child_index(self.tables@[0]@[idx2 as int].entry) == t1 as int);
            }
            iw = ((vaddr / 0x1000) % 512) as usize;
        }
        let ghost sbase = *self;
        proof {
            assert(iw as int == vpn(vaddr, lvl));
            assert(sbase.table_wf(tw as int));
        }
        self.write_entry(tw, iw, leaf);
        let ghost post = *self;
        proof {
            // the written slot holds a bounded leaf; every other slot is as before
            assert(post.tables@[tw as int]@[iw as int].entry == leaf);
            assert(e_leaf(leaf));
            assert forall|t2: int, i: int|
                0 <= t2 < sbase.tables@.len() && 0 <= i < 512 && !(t2 == tw && i == iw)
                implies post.tables@[t2]@[i] == #[trigger] sbase.tables@[t2]@[i] by {
                assert(sbase.table_wf(t2));
            }
            // well-formedness after the leaf write
            assert forall|t2: int| 0 <= t2 < post.tables@.len() implies post.table_wf(t2) by {
                assert(sbase.table_wf(t2));
                assert forall|i: int|
                    0 <= i < 512 implies (0 <= #[trigger] post.tables@[t2]@[i].entry
                    < 0x10_0000_0000_0000) by {
                    if !(t2 == tw && i == iw) {
                        assert(post.tables@[t2]@[i] == sbase.tables@[t2]@[i]);
                    }
                }
                assert forall|i: int|
                    0 <= i < 512 && e_branch(#[trigger] post.tables@[t2]@[i].entry) implies t2
                    < post.child_index(post.tables@[t2]@[i].entry) < post.tables@.len() by {
                    if t2 == tw && i == iw {
                        assert(!e_branch(leaf));
                    } else {
                        assert(post.tables@[t2]@[i] == sbase.tables@[t2]@[i]);
                    }
                }
            }
            assert forall|ta: int, ia: int, tb: int, ib: int|
                #![trigger post.tables@[ta]@[ia].entry, post.tables@[tb]@[ib].entry]
                0 <= ta < post.tables@.len() && 0 <= ia < 512 && 0 <= tb < post.tables@.len() && 0
                    <= ib < 512 && e_branch(post.tables@[ta]@[ia].entry) && e_branch(
                    post.tables@[tb]@[ib].entry,
                ) && post.child_index(post.tables@[ta]@[ia].entry) == post.child_index(
                    post.tables@[tb]@[ib].entry,
                ) implies ta == tb && ia == ib by {
                assert(!(ta == tw && ia == iw) && !(tb == tw && ib == iw)) by {
                    assert(!e_branch(leaf));
                }
                assert(post.tables@[ta]@[ia] == sbase.tables@[ta]@[ia]);
                assert(post.tables@[tb]@[ib] == sbase.tables@[tb]@[ib]);
            }
            assert(post.wf());
            // the walk after the write, for every address
            assert forall|va: u64|
                (same_path(va, vaddr, lvl) ==> post.translate(va) == Some(
                    mapped_phys(paddr, va, lvl),
                )) && (!same_path(va, vaddr, lvl) ==> post.translate(va) == pre.translate(va)) && (
                post.leaf_at(va, lvl) == (pre.leaf_at(va, lvl) || same_path(va, vaddr, lvl))) by {
                post.lemma_leaf_write_translate(sbase, vaddr, lvl, tw as int, gt1, leaf, va);
                if same_path(va, vaddr, lvl) {
                    assert(leaf_phys(leaf, va, lvl) == mapped_phys(paddr, va, lvl)) by {
                        assert(e_ppn(leaf) == paddr as int / 4096);
                        lemma_page_align(paddr as int, lvl);
                    }
                }
            }
            assert forall|va: u64, l: int| lvl < l <= 2 implies post.leaf_at(va, l) == pre.leaf_at(
                va,
                l,
            ) by {
                post.lemma_leaf_write_translate(sbase, vaddr, lvl, tw as int, gt1, leaf, va);
            }
            assert forall|va: u64| post.leaf_at(va, lvl) == (pre.leaf_at(va, lvl) || same_path(
                va,
                vaddr,
                lvl,
            )) by {
                post.lemma_leaf_write_translate(sbase, vaddr, lvl, tw as int, gt1, leaf, va);
            }
            assert forall|va: u64|
                #![trigger post.leaf_word_at(va, lvl)]
                post.leaf_word_at(va, lvl) == (if same_path(va, vaddr, lvl) {
                    Some(((paddr as int / 4096) * 1024 + (bits | 0xc1)) as u64)
                } else {
                    pre.leaf_word_at(va, lvl)
                }) by {
                post.lemma_leaf_write_translate(sbase, vaddr, lvl, tw as int, gt1, leaf, va);
                assert(leaf == ((paddr as int / 4096) * 1024 + (bits | 0xc1)) as u64);
            }
            assert forall|va: u64, l: int| lvl < l <= 2 implies post.leaf_word_at(va, l)
                == pre.leaf_word_at(va, l) by {
                post.lemma_leaf_write_translate(sbase, vaddr, lvl, tw as int, gt1, leaf, va);
            }
            // the intermediate entries on the mapped path are valid branches
            assert forall|l: int| lvl < l <= 2 implies post.walk_entry(vaddr, l) is Some
                && e_branch(post.walk_entry(vaddr, l)->Some_0) by {
                if lvl <= 1 && l == 2 {
                    assert(post.tables@[0]@[vpn(vaddr, 2)] == sbase.tables@[0]@[vpn(vaddr, 2)]);
                }
                if lvl == 0 && l == 1 {
                    assert(post.tables@[0]@[vpn(vaddr, 2)] == sbase.tables@[0]@[vpn(vaddr, 2)]);
                    assert(post.tables@[gt1]@[vpn(vaddr, 1)] == sbase.tables@[gt1]@[vpn(
                        vaddr,
                        1,
                    )]);
                }
            }
        }
    }

    /// Tears every mapping down: the root is zeroed and the pool frames
    /// that held the interior tables are dropped, leaving the table as
    /// `new` built it. Afterwards no address translates.
    #[verifier::loop_isolation(false)]
    pub fn unmap(&mut self)
        requires
            old(self).wf(),
        ensures
            final(self).wf(),
            final(self).base == old(self).base,
            final(self).tables@.len() == 1,
            final(self).tables@[0]@.len() == 512,
            forall|k: int| 0 <= k < 512 ==> final(self).tables@[0]@[k].entry == 0,
            forall|va: u64| final(self).translate(va) == Option::<int>::None,
            forall|va: u64, l: int| 0 <= l <= 2 ==> !final(self).leaf_at(va, l),
    {
        proof {
            assert(old(self).table_wf(0));
        }
        let mut i: usize = 0;
        while i < 512
            invariant
                i <= 512,
                self.base == old(self).base,
                self.tables@.len() == old(self).tables@.len(),
                self.tables@[0]@.len() == 512,
                forall|k: int| 0 <= k < i ==> self.tables@[0]@[k].entry == 0,
            decreases 512 - i,
        {
            let ghost before = *self;
            self.write_entry(0, i, 0);
            proof {
                assert forall|k: int| 0 <= k < i + 1 implies self.tables@[0]@[k].entry == 0 by {
                    if k < i {
                        assert(self.tables@[0]@[k] == before.tables@[0]@[k]);
                    }
                }
            }
            i = i + 1;
        }
        self.tables.truncate(1);
        proof {
            assert(self.tables@.len() == 1);
            assert(forall|k: int| 0 <= k < 512 ==> self.tables@[0]@[k].entry == 0);
            let ghost oldlen = old(self).tables@.len() as int;
            assert(self.base + 4096 * self.tables@.len() <= PHYS_LIMIT) by (nonlinear_arith)
                requires
                    self.base + 4096 * oldlen <= PHYS_LIMIT,
                    oldlen >= 1,
                    self.tables@.len() == 1,
            ;
            assert forall|t2: int| 0 <= t2 < self.tables@.len() implies self.table_wf(t2) by {
                assert(!e_valid(0u64));
            }
            assert(self.wf());
            assert forall|va: u64| self.translate(va) is None by {
                assert(self.tables@[0]@[vpn(va, 2)].entry == 0);
            }
            assert forall|va: u64, l: int| 0 <= l <= 2 implies !self.leaf_at(va, l) by {
                assert(self.tables@[0]@[vpn(va, 2)].entry == 0);
            }
        }
    }

    /// Identity-maps, with 4 KiB pages, the whole run of pages that
    /// `pages_needed` counts for `[start, end)`: afterwards every address
    /// of every page in the run translates to itself, and addresses whose
    /// walk shares a slot path with none of those pages are untouched.
    #[verifier::loop_isolation(false)]
    pub fn range_map(&mut self, start: u64, end: u64, bits: u64)
        requires
            old(self).wf(),
            bits & 0xe != 0,
            bits < 1024,
            start <= end,
            end + 3 * PAGE_SIZE <= PHYS_LIMIT,
            end - start < 0x7F_E000_0000,
            old(self).base + 4096 * (old(self).tables@.len() + 2 * ((end - start) / 4096 + 3))
                <= PHYS_LIMIT,
            forall|va: u64|
                start - start % 4096 <= va < end + 2 * 4096 ==> old(self).path_clear(va, 0),
        ensures
            final(self).wf(),
            final(self).base == old(self).base,
            final(self).tables@.len() <= old(self).tables@.len() + 2 * ((end - start) / 4096 + 3),
            end <= planned_end(start, end) <= end + 2 * 4096,
            planned_end(start, end) % 4096 == 0,
            forall|va: u64|
                start - start % 4096 <= va < planned_end(start, end) ==> final(self).translate(va)
                    == Some(va as int),
            forall|va: u64|
                #![trigger final(self).leaf_word_at(va, 0)]
                start - start % 4096 <= va < planned_end(start, end) ==> final(self).leaf_word_at(
                    va,
                    0,
                ) == Some(((va as int / 4096) * 1024 + (bits | 0xc1)) as u64),
            forall|va: u64|
                (forall|p: u64|
                    start - start % 4096 <= p < planned_end(start, end) && p % 4096 == 0
                        ==> !same_path(va, p, 0)) ==> final(self).translate(va) == old(
                    self,
                ).translate(va),
            forall|va: u64, l: int|
                1 <= l <= 2 ==> final(self).leaf_at(va, l) == old(self).leaf_at(va, l),
    {
        let ghost pre = *self;
        let phys_start: u64 = start - start % PAGE_SIZE;
        let num_pages: u64 = crate::page_alloc::PageTable::pages_needed(start, end);
        let ghost astart = phys_start as int;
        let ghost np = num_pages as int;
        let ghost sp = crate::page_alloc::spec_round_up(start as int, 4096);
        let ghost ep = crate::page_alloc::spec_round_up(end as int, 4096);
        proof {
            lemma_fundamental_div_mod(start as int, 4096);
            lemma_mod_bound(start as int, 4096);
            assert(astart == 4096 * (start as int / 4096));
            assert(astart % 4096 == 0) by (nonlinear_arith)
                requires
                    astart == 4096 * (start as int / 4096),
            ;
            assert(sp >= start && sp < start + 4096 && sp % 4096 == 0) by (nonlinear_arith)
                requires
                    sp == ((start + 4095) as int / 4096) * 4096,
                    start >= 0,
            ;
            assert(ep >= end && ep < end + 4096 && ep % 4096 == 0) by (nonlinear_arith)
                requires
                    ep == ((end + 4095) as int / 4096) * 4096,
                    end >= 0,
            ;
            assert(sp <= ep) by (nonlinear_arith)
                requires
                    sp == ((start + 4095) as int / 4096) * 4096,
                    ep == ((end + 4095) as int / 4096) * 4096,
                    0 <= start <= end,
            ;
            assert((ep - sp) % 4096 == 0 && (ep - sp) / 4096 * 4096 == ep - sp) by (
            nonlinear_arith)
                requires
                    sp % 4096 == 0,
                    ep % 4096 == 0,
                    sp <= ep,
            ;
            assert(np * 4096 == ep - sp + 4096) by (nonlinear_arith)
                requires
                    np == (ep - sp) / 4096 + 1,
                    (ep - sp) / 4096 * 4096 == ep - sp,
                    sp <= ep,
            ;
            assert(sp - astart == 0 || sp - astart == 4096) by (nonlinear_arith)
                requires
                    astart % 4096 == 0,
                    sp % 4096 == 0,
                    astart <= start <= sp,
                    sp < start + 4096,
                    start - astart < 4096,
            ;
            assert(astart + np * 4096 >= end);
            assert(astart + np * 4096 <= end + 2 * 4096);
            assert(np <= (end - start) / 4096 + 3) by (nonlinear_arith)
                requires
                    np * 4096 == ep - sp + 4096,
                    ep < end + 4096,
                    sp >= start,
                    start <= end,
            ;
            assert(planned_end(start, end) == astart + np * 4096);
        }
        let mut phys_addr: u64 = phys_start;
        let mut k: u64 = 0;
        while k < num_pages
            invariant
                0 <= k <= np,
                phys_addr == astart + k * 4096,
                phys_addr as int % 4096 == 0,
                self.wf(),
                self.base == pre.base,
                self.tables@.len() <= pre.tables@.len() + 2 * k,
                forall|va: u64|
                    astart <= va < astart + k * 4096 ==> self.translate(va) == Some(va as int),
                forall|va: u64|
                    #![trigger self.leaf_word_at(va, 0)]
                    astart <= va < astart + k * 4096 ==> self.leaf_word_at(va, 0) == Some(
                        ((va as int / 4096) * 1024 + (bits | 0xc1)) as u64,
                    ),
                forall|va: u64|
                    (forall|p: u64|
                        astart <= p < astart + np * 4096 && p % 4096 == 0 ==> !same_path(
                            va,
                            p,
                            0,
                        )) ==> self.translate(va) == pre.translate(va),
                forall|va: u64, l: int|
                    1 <= l <= 2 ==> self.leaf_at(va, l) == pre.leaf_at(va, l),
                forall|va: u64| astart <= va < end + 2 * 4096 ==> self.path_clear(va, 0),
            decreases np - k,
        {
            let ghost before = *self;
            proof {
                assert(astart + np * 4096 <= end + 2 * 4096);
                assert(k * 4096 < np * 4096 && (k + 1) * 4096 <= np * 4096) by (nonlinear_arith)
                    requires
                        0 <= k < np,
                ;
                assert(phys_addr + 4096 <= PHYS_LIMIT);
                let ghost cl = self.tables@.len() as int;
                let ghost pl = pre.tables@.len() as int;
                let ghost q = (end - start) as int / 4096 + 3;
                assert(4096 * (cl + 2) <= 4096 * (pl + 2 * q)) by (nonlinear_arith)
                    requires
                        cl <= pl + 2 * k,
                        0 <= k < np,
                        np <= q,
                ;
                assert(self.path_clear(phys_addr, 0));
            }
            self.map(phys_addr, phys_addr, bits, 0);
            proof {
                assert forall|va: u64|
                    #![trigger self.leaf_word_at(va, 0)]
                    astart <= va < astart + (k + 1) * 4096 implies self.leaf_word_at(va, 0)
                    == Some(((va as int / 4096) * 1024 + (bits | 0xc1)) as u64) by {
                    if va < astart + k * 4096 {
                        assert(!same_path(va, phys_addr, 0)) by {
                            assert(va as int / 4096 != phys_addr as int / 4096
                                && -0x7F_FFFF_F000 <= va - phys_addr <= 0x7F_FFFF_F000) by (
                            nonlinear_arith)
                                requires
                                    astart <= va,
                                    va < phys_addr,
                                    phys_addr == astart + k * 4096,
                                    k < num_pages,
                                    num_pages <= (end - start) / 4096 + 2,
                                    end - start < 0x7F_F000_0000,
                                    astart % 4096 == 0,
                                    astart >= 0,
                                    end >= start >= 0,
                            ;
                            lemma_distinct_pages_distinct_path(va, phys_addr);
                        }
                    } else {
                        assert(va as int / 4096 == phys_addr as int / 4096) by (nonlinear_arith)
                            requires
                                phys_addr as int % 4096 == 0,
                                phys_addr <= va < phys_addr + 4096,
                        ;
                        lemma_same_page_same_path(va, phys_addr);
                        assert(self.leaf_word_at(va, 0) == Some(
                            ((phys_addr as int / 4096) * 1024 + (bits | 0xc1)) as u64,
                        ));
                    }
                }
                assert forall|va: u64|
                    astart <= va < astart + (k + 1) * 4096 implies self.translate(va) == Some(
                    va as int,
                ) by {
                    if va < astart + k * 4096 {
                        assert(va as int / 4096 < phys_addr as int / 4096) by (nonlinear_arith)
                            requires
                                astart <= va,
                                va < astart + k * 4096,
                                phys_addr == astart + k * 4096,
                                astart % 4096 == 0,
                                astart >= 0,
                        ;
                        assert(phys_addr - va <= 0x7F_FFFF_F000);
                        lemma_distinct_pages_distinct_path(va, phys_addr);
                        assert(self.translate(va) == before.translate(va));
                    } else {
                        assert(va as int / 4096 == phys_addr as int / 4096 && mapped_phys(
                            phys_addr,
                            va,
                            0,
                        ) == va as int) by (nonlinear_arith)
                            requires
                                phys_addr as int % 4096 == 0,
                                phys_addr <= va < phys_addr + 4096,
                                mapped_phys(phys_addr, va, 0) == (phys_addr as int / 4096) * 4096
                                    + va as int % 4096,
                        ;
                        lemma_same_page_same_path(va, phys_addr);
                        assert(self.translate(va) == Some(mapped_phys(phys_addr, va, 0)));
                    }
                }
                assert forall|va: u64|
                    (forall|p: u64|
                        astart <= p < astart + np * 4096 && p % 4096 == 0 ==> !same_path(
                            va,
                            p,
                            0,
                        )) implies self.translate(va) == pre.translate(va) by {
                    assert(phys_addr % 4096 == 0 && astart <= phys_addr < astart + np * 4096);
                    assert(!same_path(va, phys_addr, 0));
                    assert(self.translate(va) == before.translate(va));
                }
                assert forall|va: u64| astart <= va < end + 2 * 4096 implies self.path_clear(
                    va,
                    0,
                ) by {
                    assert(before.path_clear(va, 0));
                    assert forall|l: int| 0 < l <= 2 implies !self.leaf_at(va, l) by {
                        assert(self.leaf_at(va, l) == before.leaf_at(va, l));
                    }
                }
                assert((phys_addr + 4096) as int % 4096 == 0) by (nonlinear_arith)
                    requires
                        phys_addr as int % 4096 == 0,
                ;
            }
            phys_addr = phys_addr + PAGE_SIZE;
            k = k + 1;
        }
        proof {
            assert(planned_end(start, end) == astart + np * 4096);
        }
    }

    /// Builds the kernel's identity map: every region of the layout —
    /// code, read-only data, data, zeroed data, the kernel stack, the
    /// heap, the timer registers, the shutdown mailbox, the UART, this
    /// table's own root frame and the interrupt controller's window — is
    /// mapped onto itself with the permissions the region needs.
    #[verifier::loop_isolation(false)]
    pub fn init_map(&mut self, layout: &KernelLayout)
        requires
            old(self).wf(),
            layout.wf(),
            old(self).base < 0x40_0000_0000,
            old(self).base + 4096 * (old(self).tables@.len() + 0x80_0000) <= PHYS_LIMIT,
            forall|va: u64, l: int| 1 <= l <= 2 ==> !old(self).leaf_at(va, l),
        ensures
            final(self).wf(),
            final(self).base == old(self).base,
            forall|va: u64|
                layout.covers(va, old(self).base) ==> final(self).translate(va) == Some(va as int),
    {
        let ghost pre = *self;
        let ghost oldlen = old(self).tables@.len() as int;
        proof {
            assert(0x02u64 & 0xe == 2 && 0x06u64 & 0xe == 6 && 0x0au64 & 0xe == 0xa) by (
            bit_vector);
        }
        let heap_end: u64 = layout.heap_start + layout.heap_pages * PAGE_SIZE;
        let mut regions: Vec<(u64, u64, u64)> = Vec::new();
        regions.push((layout.rodata_start, layout.rodata_end, EntryBits::Read.val()));
        regions.push((layout.text_start, layout.text_end, EntryBits::ReadExecute.val()));
        regions.push((layout.data_start, layout.data_end, EntryBits::ReadWrite.val()));
        regions.push((layout.bss_start, layout.bss_end, EntryBits::ReadWrite.val()));
        regions.push(
            (layout.kernel_stack_start, layout.kernel_stack_end, EntryBits::ReadWrite.val()),
        );
        regions.push((layout.heap_start, heap_end, EntryBits::ReadWrite.val()));
        regions.push((MTIME_ADDRESS, MTIME_ADDRESS + 8, EntryBits::Read.val()));
        regions.push((MTIMECMP_ADDRESS, MTIMECMP_ADDRESS + 8, EntryBits::ReadWrite.val()));
        regions.push((SIFIVE_TEST_ADDRESS, SIFIVE_TEST_ADDRESS + 4, EntryBits::ReadWrite.val()));
        regions.push((UART_ADDRESS, UART_ADDRESS + 1, EntryBits::ReadWrite.val()));
        regions.push((self.base, self.base + 1, EntryBits::ReadWrite.val()));
        regions.push((PLIC_BASE_ADDRESS, PLIC_BASE_ADDRESS + 0x20_0008, EntryBits::ReadWrite.val()));
        proof {
            assert(forall|j: int|
                0 <= j < regions@.len() ==> (#[trigger] regions@[j]).0 <= regions@[j].1
                    && regions@[j].1 < 0x40_0000_0000 && regions@[j].1 - regions@[j].0
                    < 0x4000_0000 && (regions@[j].2 & 0xe != 0) && regions@[j].2 < 1024);
        }
        let n: usize = regions.len();
        let mut i: usize = 0;
        while i < n
            invariant
                i <= n,
                n == regions@.len(),
                self.wf(),
                self.base == pre.base,
                self.tables@.len() <= oldlen + i * 0x8_0006,
                forall|va: u64, l: int| 1 <= l <= 2 ==> !self.leaf_at(va, l),
                forall|j: int, va: u64|
                    #![trigger regions@[j], self.translate(va)]
                    0 <= j < i && regions@[j].0 <= va < regions@[j].1 ==> self.translate(va)
                        == Some(va as int),
            decreases n - i,
        {
            let (s, e, bits): (u64, u64, u64) = regions[i];
            let ghost before = *self;
            proof {
                assert(2 * ((e - s) / 4096 + 3) <= 0x8_0006) by (nonlinear_arith)
                    requires
                        0 <= e - s < 0x4000_0000,
                ;
                assert(self.tables@.len() + 2 * ((e - s) / 4096 + 3) <= oldlen + 0x80_0000) by (
                nonlinear_arith)
                    requires
                        self.tables@.len() <= oldlen + i * 0x8_0006,
                        0 <= i < 12,
                        2 * ((e - s) / 4096 + 3) <= 0x8_0006,
                ;
                assert(4096 * (self.tables@.len() + 2 * ((e - s) / 4096 + 3)) <= 4096 * (oldlen
                    + 0x80_0000)) by (nonlinear_arith)
                    requires
                        self.tables@.len() + 2 * ((e - s) / 4096 + 3) <= oldlen + 0x80_0000,
                ;
                assert forall|va: u64| s - s % 4096 <= va < e + 2 * 4096 implies self.path_clear(
                    va,
                    0,
                ) by {}
            }
            self.range_map(s, e, bits);
            proof {
                assert forall|j: int, va: u64|
                    #![trigger regions@[j], self.translate(va)]
                    0 <= j < i + 1 && regions@[j].0 <= va < regions@[j].1
                    implies self.translate(va) == Some(va as int) by {
                    if j < i {
                        if exists|p: u64|
                            s - s % 4096 <= p < planned_end(s, e) && p % 4096 == 0 && same_path(
                                va,
                                p,
                                0,
                            ) {
                            let p = choose|p: u64|
                                s - s % 4096 <= p < planned_end(s, e) && p % 4096 == 0 && same_path(
                                    va,
                                    p,
                                    0,
                                );
                            // sharing a path within the window means the same page
                            assert(va as int / 4096 == p as int / 4096) by {
                                if va as int / 4096 != p as int / 4096 {
                                    assert(-0x7F_FFFF_F000 <= va - p <= 0x7F_FFFF_F000);
                                    lemma_distinct_pages_distinct_path(va, p);
                                }
                            }
                            assert(p <= va < planned_end(s, e)) by (nonlinear_arith)
                                requires
                                    va as int / 4096 == p as int / 4096,
                                    p % 4096 == 0,
                                    planned_end(s, e) % 4096 == 0,
                                    p < planned_end(s, e),
                                    va >= 0,
                            ;
                            assert(self.translate(va) == Some(va as int));
                        } else {
                            assert(self.translate(va) == before.translate(va));
                        }
                    } else {
                        assert(va < planned_end(s, e));
                    }
                }
                assert(self.tables@.len() <= oldlen + (i + 1) * 0x8_0006) by (nonlinear_arith)
                    requires
                        self.tables@.len() <= before.tables@.len() + 2 * ((e - s) / 4096 + 3),
                        before.tables@.len() <= oldlen + i * 0x8_0006,
                        2 * ((e - s) / 4096 + 3) <= 0x8_0006,
                        i >= 0,
                ;
            }
            i = i + 1;
        }
        proof {
            assert forall|va: u64| layout.covers(va, pre.base) implies self.translate(va) == Some(
                va as int,
            ) by {
                if layout.rodata_start <= va < layout.rodata_end {
                    assert(regions@[0].0 <= va < regions@[0].1);
                } else if layout.text_start <= va < layout.text_end {
                    assert(regions@[1].0 <= va < regions@[1].1);
                } else if layout.data_start <= va < layout.data_end {
                    assert(regions@[2].0 <= va < regions@[2].1);
                } else if layout.bss_start <= va < layout.bss_end {
                    assert(regions@[3].0 <= va < regions@[3].1);
                } else if layout.kernel_stack_start <= va < layout.kernel_stack_end {
                    assert(regions@[4].0 <= va < regions@[4].1);
                } else if layout.heap_start <= va < layout.heap_start + layout.heap_pages * 4096 {
                    assert(regions@[5].0 <= va < regions@[5].1);
                } else if MTIME_ADDRESS <= va < MTIME_ADDRESS + 8 {
                    assert(regions@[6].0 <= va < regions@[6].1);
                } else if MTIMECMP_ADDRESS <= va < MTIMECMP_ADDRESS + 8 {
                    assert(regions@[7].0 <= va < regions@[7].1);
                } else if SIFIVE_TEST_ADDRESS <= va < SIFIVE_TEST_ADDRESS + 4 {
                    assert(regions@[8].0 <= va < regions@[8].1);
                } else if va == UART_ADDRESS {
                    assert(regions@[9].0 <= va < regions@[9].1);
                } else if va == pre.base {
                    assert(regions@[10].0 <= va < regions@[10].1);
                } else {
                    assert(regions@[11].0 <= va < regions@[11].1);
                }
            }
        }
    }

    /// The `satp` value that turns this table on: the Sv39 mode, the given
    /// address-space id, and the root table's physical page number.
    pub fn get_initial_satp(&self, asid: u64) -> (r: u64)
        requires
            self.wf(),
            asid < 0x1_0000,
        ensures
            r == SATP_MODE_SV39 + asid * 0x1000_0000_0000 + self.base as int / 4096,
    {
        proof {
            assert(self.base as int / 4096 < 0x1000_0000_0000);
        }
        SATP_MODE_SV39 + asid * 0x1000_0000_0000 + self.base / 4096
    }

    /// Replaces `self.tables[t][idx]` and nothing else.
    fn write_entry(&mut self, t: usize, idx: usize, e: u64)
        requires
            t < old(self).tables@.len(),
            idx < old(self).tables@[t as int]@.len(),
        ensures
            final(self).base == old(self).base,
            final(self).tables@.len() == old(self).tables@.len(),
            final(self).tables@[t as int]@.len() == old(self).tables@[t as int]@.len(),
            final(self).tables@[t as int]@[idx as int].entry == e,
            forall|t2: int, i: int|
                0 <= t2 < old(self).tables@.len() && 0 <= i < old(self).tables@[t2]@.len() && !(t2
                    == t && i == idx) ==> final(self).tables@[t2]@[i]
                    == #[trigger] old(self).tables@[t2]@[i],
            forall|t2: int|
                0 <= t2 < old(self).tables@.len() ==> final(self).tables@[t2]@.len() == old(
                    self,
                ).tables@[t2]@.len(),
    {
        let table: &mut Vec<Entry> = &mut self.tables[t];
        let slot: &mut Entry = &mut table[idx];
        slot.set_entry(e);
    }
}

/// Law: mapping and translating are inverse on the mapped page. After
/// `map(vaddr, paddr, bits, 0)` on page-aligned addresses — so after any
/// table state satisfying `map`'s postcondition — `virt_to_phys` returns
/// `paddr + k` for every offset `k` inside the page, because `translate`
/// does and `virt_to_phys` computes `translate` exactly.
pub proof fn lemma_map_right_inverse(m: MapTable, vaddr: u64, paddr: u64, k: u64)
    requires
        vaddr % 4096 == 0,
        paddr % 4096 == 0,
        k < 4096,
        vaddr + k <= u64::MAX,
        forall|va: u64|
            same_path(va, vaddr, 0) ==> m.translate(va) == Some(mapped_phys(paddr, va, 0)),
    ensures
        m.translate((vaddr + k) as u64) == Some(paddr + k),
{
    let va = (vaddr + k) as u64;
    assert(va as int / 4096 == vaddr as int / 4096 && va as int % 4096 == k) by (nonlinear_arith)
        requires
            vaddr as int % 4096 == 0,
            0 <= k < 4096,
            va == vaddr + k,
    ;
    lemma_same_page_same_path(va, vaddr);
    assert(mapped_phys(paddr, va, 0) == paddr + k) by (nonlinear_arith)
        requires
            paddr as int % 4096 == 0,
            va as int % 4096 == k,
            mapped_phys(paddr, va, 0) == (paddr as int / 4096) * 4096 + va as int % 4096,
            paddr >= 0,
    ;
}

/// Two addresses in one 4 KiB page select the same slot at every level.
pub proof fn lemma_same_page_same_path(va: u64, target: u64)
    requires
        va as int / 4096 == target as int / 4096,
    ensures
        same_path(va, target, 0),
{
    lemma_div_denominator(va as int, 4096, 512);
    lemma_div_denominator(target as int, 4096, 512);
    lemma_div_denominator(va as int, 0x20_0000, 512);
    lemma_div_denominator(target as int, 0x20_0000, 512);
}

/// Two distinct pages less than `2^39` bytes apart differ in at least one
/// of the three nine-bit slot indices.
pub proof fn lemma_distinct_pages_distinct_path(va: u64, target: u64)
    requires
        va as int / 4096 != target as int / 4096,
        -0x7F_FFFF_F000 <= va - target <= 0x7F_FFFF_F000,
    ensures
        !same_path(va, target, 0),
{
    let xa = va as int / 4096;
    let xb = target as int / 4096;
    lemma_fundamental_div_mod(va as int, 4096);
    lemma_fundamental_div_mod(target as int, 4096);
    lemma_mod_bound(va as int, 4096);
    lemma_mod_bound(target as int, 4096);
    assert(-0x800_0000 < xa - xb < 0x800_0000);
    if same_path(va, target, 0) {
        // the three slot indices determine the page number modulo 2^27
        lemma_div_denominator(va as int, 4096, 512);
        lemma_div_denominator(target as int, 4096, 512);
        lemma_div_denominator(va as int, 0x20_0000, 512);
        lemma_div_denominator(target as int, 0x20_0000, 512);
        lemma_div_denominator(xa, 512, 512);
        lemma_div_denominator(xb, 512, 512);
        assert(xa % 512 == xb % 512);
        assert((xa / 512) % 512 == (xb / 512) % 512);
        assert((xa / 0x40000) % 512 == (xb / 0x40000) % 512);
        lemma_breakdown(xa, 512, 0x40000);
        lemma_breakdown(xb, 512, 0x40000);
        lemma_breakdown(xa / 512, 512, 512);
        lemma_breakdown(xb / 512, 512, 512);
        assert((xa / 512) % 0x40000 == (xb / 512) % 0x40000);
        assert(xa % 0x800_0000 == xb % 0x800_0000);
        lemma_fundamental_div_mod(xa, 0x800_0000);
        lemma_fundamental_div_mod(xb, 0x800_0000);
        assert(xa - xb == 0x800_0000 * (xa / 0x800_0000 - xb / 0x800_0000));
        assert(false);
    }
}

/// One past the last byte of the page run that `range_map(start, end, _)`
/// writes: the run starts at `start`'s page boundary and holds
/// `pages_needed(start, end)` pages.
pub open spec fn planned_end(start: u64, end: u64) -> int {
    (start - start % 4096) + (crate::page_alloc::spec_round_up(end as int, 4096)
        - crate::page_alloc::spec_round_up(start as int, 4096)) + 4096
}

/// `va` walks through the same table slots as `target` down to `level`.
pub open spec fn same_path(va: u64, target: u64, level: int) -> bool {
    &&& vpn(va, 2) == vpn(target, 2)
    &&& level <= 1 ==> vpn(va, 1) == vpn(target, 1)
    &&& level <= 0 ==> vpn(va, 0) == vpn(target, 0)
}

/// The physical address a mapping of `target -> paddr` at `level` gives
/// to `va`: the target frame at the level's alignment, plus the low bits
/// of `va` the level leaves untranslated.
pub open spec fn mapped_phys(paddr: u64, va: u64, level: int) -> int {
    (paddr as int / level_size(level)) * level_size(level) + (va as int % level_size(level))
}

/// Bit-level facts about the flag word a leaf entry carries: the written
/// flags are the caller's `bits` with `V`, `A` and `D` set.
proof fn lemma_leaf_flag_bits(bits: u64)
    by (bit_vector)
    requires
        bits < 1024,
        bits & 0xe != 0,
    ensures
        (bits | 0xc1) < 1024,
        (bits | 0xc1) % 2 == 1,
        ((bits | 0xc1) / 2) % 8 != 0,
{
}

/// An entry assembled as `ppn * 1024 + flags` decodes back into its page
/// number and flags.
proof fn lemma_entry_decompose(ppn: int, f: int)
    requires
        0 <= ppn < 0x400_0000_0000,
        0 <= f < 1024,
    ensures
        0 <= ppn * 1024 + f < 0x10_0000_0000_0000,
        (ppn * 1024 + f) % 2 == f % 2,
        ((ppn * 1024 + f) / 2) % 8 == (f / 2) % 8,
        (ppn * 1024 + f) / 1024 == ppn,
{
    assert(0 <= ppn * 1024 + f < 0x10_0000_0000_0000 && (ppn * 1024 + f) % 2 == f % 2 && ((ppn
        * 1024 + f) / 2) % 8 == (f / 2) % 8 && (ppn * 1024 + f) / 1024 == ppn) by (nonlinear_arith)
        requires
            0 <= ppn < 0x400_0000_0000,
            0 <= f < 1024,
    ;
}

/// Truncating an address to a page boundary first does not change its
/// truncation to a level boundary.
proof fn lemma_page_align(p: int, level: int)
    requires
        p >= 0,
        0 <= level <= 2,
    ensures
        ((p / 4096) * 4096) / level_size(level) * level_size(level) == (p / level_size(level))
            * level_size(level),
{
    if level == 0 {
        assert(((p / 4096) * 4096) / 4096 * 4096 == (p / 4096) * 4096) by (nonlinear_arith)
            requires
                p >= 0,
        ;
    } else if level == 1 {
        assert(((p / 4096) * 4096) / 0x20_0000 * 0x20_0000 == (p / 0x20_0000) * 0x20_0000) by (
        nonlinear_arith)
            requires
                p >= 0,
        ;
    } else {
        assert(((p / 4096) * 4096) / 0x4000_0000 * 0x4000_0000 == (p / 0x4000_0000) * 0x4000_0000)
            by (nonlinear_arith)
            requires
                p >= 0,
        ;
    }
}

} // verus!

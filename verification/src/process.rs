//! The process model: creation with a fresh address space, and the ELF
//! loader that builds a process image in memory.

use vstd::prelude::*;

verus! {

use crate::elf::{Elf64SectionHeader, ElfLoader, SHF_ALLOC, SHF_EXECINSTR, SHF_WRITE, SHT_PROGBITS};
use crate::map_table::{same_path, EntryBits, MapTable, PHYS_LIMIT, SATP_MODE_SV39};
use crate::page_alloc::{PageTable, PAGE_SIZE};
use crate::trap::TrapFrame;

/// `sp` is integer register `x2`.
pub const SP_REGISTER: usize = 2;

/// Pages of user stack a fresh process gets.
pub const STACK_PAGES: usize = 2;

/// Where the user stack sits in a process's address space.
pub const STACK_ADDR: u64 = 0x1_0000_0000;

/// Where firmware stages the init ELF image.
pub const EXTERNAL_ELF_START: u64 = 0x8200_0000;

/// The basic states a process can be in.
#[derive(PartialEq, Eq, Structural, Clone, Copy, Debug)]
pub enum ProcessState {
    Running,
    Sleeping,
    Waiting,
    Dead,
}

/// One process: its saved context, stack frames, program counter, id,
/// root map table, state, and — once an image is loaded — the physical
/// frames that back its sections.
pub struct Process {
    pub frame: TrapFrame,
    pub stack: u64,
    pub program_counter: u64,
    pub pid: u16,
    pub root: MapTable,
    pub state: ProcessState,
    pub image_pages: Vec<u8>,
    pub image_pages_addr: u64,
}

impl Process {
    /// Creates a waiting process: a zeroed root table whose interior
    /// frames live in the window reserved past the heap, `STACK_PAGES`
    /// stack frames from the allocator mapped user-read-write at
    /// `STACK_ADDR`, the stack pointer at the stack's top minus one word,
    /// and `satp` prepared with the process id as its address-space id.
    ///
    /// The allocator's frame run backing the stack stays marked in
    /// `page_table` until `destroy` returns it. `None` exactly when no two
    /// contiguous frames are free.
    pub fn create(page_table: &mut PageTable, pid: u16) -> (r: Option<Process>)
        requires
            old(page_table).wf(),
            old(page_table).spec_heap_alloc_start() + old(page_table).spec_heap_size() + 0x100_0000
                <= PHYS_LIMIT,
        ensures
            final(page_table).wf(),
            final(page_table).spec_heap_start() == old(page_table).spec_heap_start(),
            final(page_table).spec_heap_size() == old(page_table).spec_heap_size(),
            final(page_table).spec_heap_alloc_start() == old(page_table).spec_heap_alloc_start(),
            r is None ==> *final(page_table) == *old(page_table) && (forall|i: int|
                0 <= i && i + 2 <= old(page_table).num_pages() ==> !old(page_table).run_free(i, 2)),
            r is Some ==> {
                let p = r->Some_0;
                let f = (p.stack - old(page_table).spec_heap_alloc_start()) / 4096;
                &&& p.root.wf()
                &&& p.pid == pid
                &&& p.state == ProcessState::Waiting
                &&& p.program_counter == 0
                &&& p.frame.regs@[2] == STACK_ADDR + STACK_PAGES * 4096 - 8
                &&& p.frame.satp == SATP_MODE_SV39 + pid * 0x1000_0000_0000 + p.root.base as int
                    / 4096
                &&& p.root.base == crate::page_alloc::spec_round_up(
                    old(page_table).spec_heap_alloc_start() + old(page_table).spec_heap_size(),
                    4096,
                )
                &&& p.root.base + 4096 * (p.root.tables@.len() + 2) + 0x80_0000 <= PHYS_LIMIT
                &&& p.root.tables@.len() <= 5
                // the stack frames are the ones the allocator marked
                &&& 0 <= f && f + 2 <= old(page_table).num_pages()
                &&& p.stack == old(page_table).addr_of(f)
                &&& old(page_table).run_free(f, 2)
                &&& forall|i: int| 0 <= i < f ==> !old(page_table).run_free(i, 2)
                &&& PageTable::alloc_marks(*old(page_table), *final(page_table), f, 2)
                &&& final(page_table).is_alloc_start(f)
                &&& p.stack >= final(page_table).spec_heap_alloc_start()
                &&& forall|k: u64|
                    #![trigger p.root.translate((STACK_ADDR + k) as u64)]
                    k < (STACK_PAGES * 4096) as u64 ==> p.root.translate((STACK_ADDR + k) as u64)
                        == Some(p.stack + k)
                // the stack's leaf entries carry U|R|W (with V, A and D)
                &&& forall|k: u64|
                    #![trigger p.root.leaf_word_at((STACK_ADDR + k) as u64, 0)]
                    k < (STACK_PAGES * 4096) as u64 ==> p.root.leaf_word_at(
                        (STACK_ADDR + k) as u64,
                        0,
                    ) == Some(((p.stack as int / 4096 + k / 4096) * 1024 + 0xd7) as u64)
                &&& forall|va: u64, l: int| 1 <= l <= 2 ==> !p.root.leaf_at(va, l)
            },
    {
        proof {
            lemma_heap_addr_bound(*old(page_table));
        }
        let ghost pre = *page_table;
        let stack: u64 = match page_table.allocate(STACK_PAGES) {
            Some(a) => a,
            None => {
                return None;
            },
        };
        proof {
            lemma_alloc_addr_fits(pre, stack);
        }
        // The table pool sits just past the heap, in the address window the
        // precondition reserves; the allocator never hands frames out there.
        proof {
            vstd::arithmetic::power2::lemma2_to64();
        }
        let pool_base: u64 = crate::page_alloc::round_up(
            page_table.heap_alloc_start + page_table.heap_size,
            12,
        );
        proof {
            assert(final(page_table).is_alloc_start(pre.frame_index_of(stack as int))) by {
                let f = pre.frame_index_of(stack as int);
                assert(page_table.desc(f + 1) == crate::page_alloc::DESC_USED_LAST);
                assert(page_table.is_alloc_run(f, f + 1));
            }
        }
        let mut root = MapTable::new(pool_base);
        let mut frame = TrapFrame::new();
        let satp: u64 = root.get_initial_satp(pid as u64);
        frame.satp = satp;
        frame.regs[SP_REGISTER] = STACK_ADDR + (STACK_PAGES as u64) * PAGE_SIZE - 8;
        proof {
            assert(0x16u64 & 0xe != 0 && 0x16u64 | 0xc1 == 0xd7) by (bit_vector);
        }
        root.map(STACK_ADDR, stack, EntryBits::UserReadWrite.val(), 0);
        let ghost root1 = root;
        proof {
            assert(!same_path((STACK_ADDR + 4096) as u64, STACK_ADDR, 0)) by {
                crate::map_table::lemma_distinct_pages_distinct_path(
                    (STACK_ADDR + 4096) as u64,
                    STACK_ADDR,
                );
            }
        }
        root.map(STACK_ADDR + PAGE_SIZE, stack + PAGE_SIZE, EntryBits::UserReadWrite.val(), 0);
        proof {
            assert forall|k: u64|
                #![trigger root.translate((STACK_ADDR + k) as u64)]
                #![trigger root.leaf_word_at((STACK_ADDR + k) as u64, 0)]
                k < (STACK_PAGES * 4096) as u64 implies root.translate((STACK_ADDR + k) as u64)
                == Some(stack + k) && root.leaf_word_at((STACK_ADDR + k) as u64, 0) == Some(
                ((stack as int / 4096 + k / 4096) * 1024 + 0xd7) as u64,
            ) by {
                if k < 4096 {
                    assert(!same_path((STACK_ADDR + k) as u64, (STACK_ADDR + 4096) as u64, 0)) by {
                        crate::map_table::lemma_distinct_pages_distinct_path(
                            (STACK_ADDR + k) as u64,
                            (STACK_ADDR + 4096) as u64,
                        );
                    }
                    assert(root.translate((STACK_ADDR + k) as u64) == root1.translate(
                        (STACK_ADDR + k) as u64,
                    ));
                    assert(root.leaf_word_at((STACK_ADDR + k) as u64, 0) == root1.leaf_word_at(
                        (STACK_ADDR + k) as u64,
                        0,
                    ));
                    crate::map_table::lemma_map_right_inverse(root1, STACK_ADDR, stack, k);
                    crate::map_table::lemma_same_page_same_path(
                        (STACK_ADDR + k) as u64,
                        STACK_ADDR,
                    );
                    assert(k as int / 4096 == 0);
                } else {
                    crate::map_table::lemma_map_right_inverse(
                        root,
                        (STACK_ADDR + 4096) as u64,
                        (stack + 4096) as u64,
                        (k - 4096) as u64,
                    );
                    assert(root.translate((STACK_ADDR + k) as u64) == Some(
                        stack + 4096 + (k - 4096),
                    ));
                    crate::map_table::lemma_same_page_same_path(
                        (STACK_ADDR + k) as u64,
                        (STACK_ADDR + 4096) as u64,
                    );
                    assert((stack + 4096) as int / 4096 == stack as int / 4096 + 1
                        && k as int / 4096 == 1) by (nonlinear_arith)
                        requires
                            stack as int % 4096 == 0,
                            4096 <= k < 8192,
                            stack >= 0,
                    ;
                }
            }
        }
        Some(
            Process {
                frame,
                stack,
                program_counter: 0,
                pid,
                root,
                state: ProcessState::Waiting,
                image_pages: Vec::new(),
                image_pages_addr: 0,
            },
        )
    }

    /// Tears the process down, as dropping it must: the stack frames and
    /// the section frames (when an image was loaded) go back to the
    /// allocator, and the address space is unmapped — the interior tables
    /// and the root are owned by the map table's pool and go with it.
    pub fn destroy(self, page_table: &mut PageTable)
        requires
            old(page_table).wf(),
            self.root.wf(),
            self.stack >= old(page_table).spec_heap_alloc_start(),
            old(page_table).is_alloc_start(old(page_table).frame_index_of(self.stack as int)),
            self.image_pages@.len() > 0 ==> self.image_pages_addr >= old(
                page_table,
            ).spec_heap_alloc_start(),
            self.image_pages@.len() > 0 ==> old(page_table).is_alloc_start(
                old(page_table).frame_index_of(self.image_pages_addr as int),
            ),
            self.image_pages@.len() > 0 ==> (forall|k: int|
                !(old(page_table).in_run(
                    old(page_table).frame_index_of(self.stack as int),
                    k,
                ) && old(page_table).in_run(
                    old(page_table).frame_index_of(self.image_pages_addr as int),
                    k,
                ))),
        ensures
            final(page_table).wf(),
            final(page_table).spec_heap_start() == old(page_table).spec_heap_start(),
            final(page_table).spec_heap_size() == old(page_table).spec_heap_size(),
            final(page_table).spec_heap_alloc_start() == old(page_table).spec_heap_alloc_start(),
            // every frame of the stack's run is free again
            forall|k: int|
                old(page_table).in_run(old(page_table).frame_index_of(self.stack as int), k)
                    ==> final(page_table).is_free(k),
            // and every frame of the image's run
            self.image_pages@.len() > 0 ==> (forall|k: int|
                old(page_table).in_run(
                    old(page_table).frame_index_of(self.image_pages_addr as int),
                    k,
                ) ==> final(page_table).is_free(k)),
    {
        let Process { frame: _, stack, program_counter: _, pid: _, mut root, state: _,
            image_pages, image_pages_addr } = self;
        let ghost pre = *page_table;
        page_table.dealloc(stack);
        let ghost mid = *page_table;
        if image_pages.len() > 0 {
            proof {
                let fi = pre.frame_index_of(image_pages_addr as int);
                let fs = pre.frame_index_of(stack as int);
                let end = choose|e: int| pre.is_alloc_run(fi, e);
                assert(pre.is_alloc_run(fi, end));
                assert forall|k: int| fi <= k <= end implies mid.desc(k) == pre.desc(k)
                    && !pre.in_run(fs, k) by {
                    assert(pre.in_run(fi, k)) by {
                        if k < end {
                            assert(pre.desc(k) == crate::page_alloc::DESC_USED);
                        } else {
                            assert(pre.desc(end) == crate::page_alloc::DESC_USED_LAST);
                        }
                    }
                }
                assert(mid.is_alloc_run(fi, end));
                assert forall|k: int| pre.in_run(fi, k) implies mid.in_run(fi, k) by {
                    assert(pre.desc(end) == crate::page_alloc::DESC_USED_LAST);
                    if k > end {
                        assert(pre.desc(end) != crate::page_alloc::DESC_USED);
                        assert(!pre.in_run(fi, k));
                    } else {
                        assert(pre.in_run(fi, k) ==> fi <= k <= end);
                    }
                }
            }
            page_table.dealloc(image_pages_addr);
            proof {
                let fi = pre.frame_index_of(image_pages_addr as int);
                let fs = pre.frame_index_of(stack as int);
                assert forall|k: int| pre.in_run(fs, k) implies page_table.is_free(k) by {
                    assert(mid.desc(k) == crate::page_alloc::DESC_EMPTY);
                    assert(!mid.in_run(fi, k));
                }
                assert forall|k: int| pre.in_run(fi, k) implies page_table.is_free(k) by {
                    assert(mid.in_run(fi, k));
                }
            }
        } else {
            proof {
                let fs = pre.frame_index_of(stack as int);
                assert forall|k: int| pre.in_run(fs, k) implies page_table.is_free(k) by {
                    assert(mid.desc(k) == crate::page_alloc::DESC_EMPTY);
                }
            }
        }
        root.unmap();
    }
    /// Maps one page of the process's address space, through its root
    /// table.
    pub fn map_memory(&mut self, vaddr: u64, paddr: u64, bits: u64, level: usize)
        requires
            old(self).root.wf(),
            bits & 0xe != 0,
            bits < 1024,
            level <= 2,
            paddr < PHYS_LIMIT,
            old(self).root.base + 4096 * (old(self).root.tables@.len() + 2) <= PHYS_LIMIT,
            old(self).root.path_clear(vaddr, level as int),
        ensures
            final(self).root.wf(),
            final(self).root.base == old(self).root.base,
            old(self).root.tables@.len() <= final(self).root.tables@.len() <= old(
                self,
            ).root.tables@.len() + 2,
            forall|va: u64|
                same_path(va, vaddr, level as int) ==> final(self).root.translate(va) == Some(
                    crate::map_table::mapped_phys(paddr, va, level as int),
                ),
            forall|va: u64|
                !same_path(va, vaddr, level as int) ==> final(self).root.translate(va) == old(
                    self,
                ).root.translate(va),
            forall|va: u64|
                #![trigger final(self).root.leaf_word_at(va, level as int)]
                final(self).root.leaf_word_at(va, level as int) == (if same_path(
                    va,
                    vaddr,
                    level as int,
                ) {
                    Some(((paddr as int / 4096) * 1024 + (bits | 0xc1)) as u64)
                } else {
                    old(self).root.leaf_word_at(va, level as int)
                }),
            forall|va: u64, l: int|
                (level as int) < l <= 2 ==> final(self).root.leaf_at(va, l) == old(
                    self,
                ).root.leaf_at(va, l),
            forall|va: u64|
                #![trigger final(self).root.leaf_at(va, level as int)]
                final(self).root.leaf_at(va, level as int) == (old(self).root.leaf_at(
                    va,
                    level as int,
                ) || same_path(va, vaddr, level as int)),
            final(self).frame == old(self).frame,
            final(self).stack == old(self).stack,
            final(self).program_counter == old(self).program_counter,
            final(self).pid == old(self).pid,
            final(self).image_pages == old(self).image_pages,
            final(self).image_pages_addr == old(self).image_pages_addr,
    {
        self.root.map(vaddr, paddr, bits, level);
    }
}

/// Every section's address and size stay below the loader's limit.
fn sections_bounded(sections: &Vec<Elf64SectionHeader>) -> (r: bool)
    ensures
        r == (forall|k: int|
            0 <= k < sections@.len() ==> (#[trigger] sections@[k]).addr < 0x20_0000_0000_0000
                && sections@[k].size < 0x20_0000_0000_0000),
{
    let n: usize = sections.len();
    let mut i: usize = 0;
    while i < n
        invariant
            i <= n,
            n == sections@.len(),
            forall|k: int|
                0 <= k < i ==> (#[trigger] sections@[k]).addr < 0x20_0000_0000_0000
                    && sections@[k].size < 0x20_0000_0000_0000,
        decreases n - i,
    {
        if !(sections[i].addr < 0x20_0000_0000_0000 && sections[i].size < 0x20_0000_0000_0000) {
            return false;
        }
        i = i + 1;
    }
    true
}

/// Sorts section headers by their virtual address, smallest first.
fn sort_sections_by_addr(sections: &mut Vec<Elf64SectionHeader>)
    ensures
        final(sections)@.len() == old(sections)@.len(),
        forall|a: int, b: int|
            0 <= a < b < final(sections)@.len() ==> (#[trigger] final(sections)@[a]).addr <= (
            #[trigger] final(sections)@[b]).addr,
        old(sections)@.len() <= 1 ==> final(sections)@ == old(sections)@,
{
    let n: usize = sections.len();
    let mut i: usize = 1;
    while i < n
        invariant
            1 <= i <= n || (n == 0 && i == 1),
            n == sections@.len(),
            n <= 1 ==> sections@ == old(sections)@,
            forall|a: int, b: int|
                0 <= a < b < i ==> (#[trigger] sections@[a]).addr <= (
                #[trigger] sections@[b]).addr,
        decreases n - i,
    {
        let mut j: usize = i;
        while j > 0
            invariant
                0 <= j <= i < n,
                n == sections@.len(),
                forall|a: int, b: int|
                    0 <= a < b <= i && b != j ==> (#[trigger] sections@[a]).addr <= (
                    #[trigger] sections@[b]).addr,
                forall|b: int|
                    j < b <= i ==> (#[trigger] sections@[b]).addr >= sections@[j as int].addr,
            ensures
                0 <= j <= i < n,
                n == sections@.len(),
                forall|a: int, b: int|
                    0 <= a < b <= i && b != j ==> (#[trigger] sections@[a]).addr <= (
                    #[trigger] sections@[b]).addr,
                forall|b: int|
                    j < b <= i ==> (#[trigger] sections@[b]).addr >= sections@[j as int].addr,
                j > 0 ==> sections@[j - 1].addr <= sections@[j as int].addr,
            decreases j,
        {
            if sections[j - 1].addr <= sections[j].addr {
                break ;
            }
            let lo = sections[j - 1];
            let hi = sections[j];
            sections[j - 1] = hi;
            sections[j] = lo;
            j = j - 1;
        }
        proof {
            assert forall|a: int, b: int| 0 <= a < b <= i implies (#[trigger] sections@[a]).addr
                <= (#[trigger] sections@[b]).addr by {
                if b == j && j > 0 {
                    if a < j - 1 {
                        assert(sections@[a].addr <= sections@[j - 1].addr);
                    }
                }
            }
        }
        i = i + 1;
    }
}

/// The loader's well-formed small image: the section table is in bounds
/// and the occupying sections are exactly one in-bounds PROGBITS section
/// of at most 2 MiB below the 64 GiB mark.
pub open spec fn single_progbits_image(image: Seq<u8>, shoff: int, shnum: int) -> bool {
    let secs = crate::elf::spec_alloc_sections(image, shoff, shnum);
    &&& shoff + 64 * shnum <= image.len()
    &&& secs.len() == 1
    &&& secs[0].section_type == SHT_PROGBITS
    &&& 0 < secs[0].size < 0x20_0000
    &&& secs[0].addr + secs[0].size < 0x10_0000_0000
    &&& secs[0].offset + secs[0].size <= image.len()
}

/// The heap holds a free run big enough for `pages` frames even after the
/// process's stack pair is carved out first.
pub open spec fn heap_has_room(pt: PageTable, pages: int) -> bool {
    exists|i: int| 0 <= i && i + pages + 3 <= pt.num_pages() && #[trigger] pt.run_free(i, pages + 3)
}

/// Loading is owed: the image is a well-formed small one and the heap has
/// room for the process and the image frames.
#[verifier::opaque]
pub open spec fn load_owed(image: Seq<u8>, shoff: int, shnum: int, heap: PageTable) -> bool {
    &&& single_progbits_image(image, shoff, shnum)
    &&& heap_has_room(
        heap,
        spec_section_pages(crate::elf::spec_alloc_sections(image, shoff, shnum)[0]),
    )
}

/// Frames a section covers: one per page boundary crossed, plus one.
pub open spec fn spec_section_pages(sec: Elf64SectionHeader) -> int {
    (sec.addr + sec.size) as int / 4096 - sec.addr as int / 4096 + 1
}

/// The permission bits a section's flags select: user-read-execute for
/// executable sections, user-read-write for writable ones, and the
/// conservative user-read-execute for the rest.
pub open spec fn spec_section_bits(sec: Elf64SectionHeader) -> u64 {
    if sec.flags & SHF_EXECINSTR != 0 {
        0x1a
    } else if sec.flags & SHF_WRITE != 0 {
        0x16
    } else {
        0x1a
    }
}

impl ElfLoader {
    /// Builds the init process from this image: collects the sections
    /// marked to occupy memory, sorts them by address, lays their bytes
    /// out in freshly allocated frames — sections sharing a page share its
    /// frame — and maps every covered page into the process's table with
    /// permissions from the section flags. The process starts at the
    /// header's entry point.
    ///
    /// `None` when the image, the heap or the address arithmetic cannot
    /// carry the load through. For a well-formed small image — one
    /// occupying PROGBITS section — and a heap with room, success is owed,
    /// and every byte of the section reads back through the process's
    /// address translation, behind a leaf carrying the section's
    /// permission bits.
    #[verifier::loop_isolation(false)]
    #[verifier::rlimit(100)]
    pub fn into_process(&self, page_table: &mut PageTable, pid: u16) -> (r: Option<Process>)
        requires
            old(page_table).wf(),
            old(page_table).spec_heap_alloc_start() + old(page_table).spec_heap_size() + 0x100_0000
                <= PHYS_LIMIT,
        ensures
            final(page_table).wf(),
            r is Some ==> {
                let p = r->Some_0;
                &&& p.root.wf()
                &&& p.pid == pid
                &&& p.program_counter == self.header.entry
                &&& p.frame.regs@[2] == STACK_ADDR + STACK_PAGES * 4096 - 8
                &&& p.image_pages@.len() % 4096 == 0
                &&& p.image_pages@.len() > 0
                    ==> p.image_pages_addr >= final(page_table).spec_heap_alloc_start()
                &&& p.image_pages@.len() > 0 ==> final(page_table).is_alloc_start(
                    final(page_table).frame_index_of(p.image_pages_addr as int),
                )
            },
            ({
                let secs = crate::elf::spec_alloc_sections(
                    self.image@,
                    self.header.shoff as int,
                    self.header.shnum as int,
                );
                load_owed(
                    self.image@,
                    self.header.shoff as int,
                    self.header.shnum as int,
                    *old(page_table),
                ) ==> ({
                    let p = r->Some_0;
                    let sec = secs[0];
                    let wbits = (spec_section_bits(sec) | 0xc1) as int;
                    &&& r is Some
                    &&& p.image_pages_addr % 4096 == 0
                    &&& p.image_pages@.len() >= sec.addr % 4096 + sec.size
                    &&& forall|b: u64|
                        #![trigger p.root.translate((sec.addr + b) as u64)]
                        b < sec.size ==> p.root.translate((sec.addr + b) as u64) == Some(
                            p.image_pages_addr + sec.addr as int % 4096 + b,
                        ) && p.image_pages@[p.root.translate((sec.addr + b) as u64)->Some_0
                            - p.image_pages_addr] == self.image@[sec.offset + b]
                    &&& forall|b: u64|
                        #![trigger p.root.leaf_word_at((sec.addr + b) as u64, 0)]
                        b < sec.size ==> p.root.leaf_word_at((sec.addr + b) as u64, 0) == Some(
                            ((p.image_pages_addr as int / 4096 + (sec.addr as int % 4096 + b)
                                / 4096) * 1024 + wbits) as u64,
                        )
                })
            }),
    {
        let ghost gshoff = self.header.shoff as int;
        let ghost gshnum = self.header.shnum as int;
        let ghost gsecs = crate::elf::spec_alloc_sections(self.image@, gshoff, gshnum);
        let ghost cond = load_owed(self.image@, gshoff, gshnum, *old(page_table));
        proof {
            reveal(load_owed);
            if cond {
                assert(single_progbits_image(self.image@, gshoff, gshnum));
                assert(heap_has_room(*old(page_table), spec_section_pages(gsecs[0])));
            }
        }
        let ghost pre_heap = *page_table;
        let mut process = match Process::create(page_table, pid) {
            Some(p) => p,
            None => {
                proof {
                    if cond {
                        let i = choose|i: int|
                            0 <= i && i + spec_section_pages(gsecs[0]) + 3 <= pre_heap.num_pages()
                                && #[trigger] pre_heap.run_free(
                                i,
                                spec_section_pages(gsecs[0]) + 3,
                            );
                        assert(pre_heap.run_free(i, 2));
                        assert(false);
                    }
                }
                return None;
            },
        };
        let ghost post_create = *page_table;
        // Collect the sections that occupy memory.
        let mut memory_sections: Vec<Elf64SectionHeader> = Vec::new();
        let mut it = self.get_section_iterator();
        loop
            invariant
                page_table.wf(),
                it.n_sections == self.header.shnum,
                it.table_offset == self.header.shoff,
                it.current_section <= it.n_sections,
                memory_sections@.len() <= it.current_section,
                forall|k: int|
                    0 <= k < memory_sections@.len() ==> (#[trigger] memory_sections@[k]).addr
                        < 0x20_0000_0000_0000 && memory_sections@[k].size < 0x20_0000_0000_0000,
                cond ==> memory_sections@ == crate::elf::spec_alloc_sections(
                    self.image@,
                    gshoff,
                    it.current_section as int,
                ),
            decreases it.n_sections - it.current_section + 1,
        {
            if it.current_section >= it.n_sections {
                break ;
            }
            let ghost cur = it.current_section as int;
            match it.next(&self.image) {
                Some(sec) => {
                    proof {
                        let gs = crate::elf::spec_section_at(self.image@, gshoff + 64 * cur);
                        assert(sec.name == gs.name && sec.section_type == gs.section_type
                            && sec.flags == gs.flags && sec.addr == gs.addr && sec.offset
                            == gs.offset && sec.size == gs.size && sec.link == gs.link && sec.info
                            == gs.info && sec.addralign == gs.addralign && sec.entsize
                            == gs.entsize);
                        assert(sec == gs);
                    }
                    if sec.flags & SHF_ALLOC != 0 {
                        proof {
                            if cond {
                                lemma_alloc_sections_prefix(self.image@, gshoff, cur + 1, gshnum);
                                assert(crate::elf::spec_alloc_sections(
                                    self.image@,
                                    gshoff,
                                    cur + 1,
                                ).len() <= 1);
                                assert(sec == gsecs[0]);
                            }
                        }
                        if !(sec.addr < 0x20_0000_0000_0000 && sec.size < 0x20_0000_0000_0000) {
                            proof {
                                if cond {
                                    assert(false);
                                }
                            }
                            return None;
                        }
                        memory_sections.push(sec);
                    }
                },
                None => {
                    proof {
                        if cond {
                            assert(gshoff + 64 * cur + 64 <= gshoff + 64 * gshnum)
                                by (nonlinear_arith)
                                requires
                                    cur < gshnum,
                            ;
                            assert(false);
                        }
                    }
                    return None;
                },
            }
        }
        proof {
            if cond {
                assert(memory_sections@ == gsecs);
            }
        }
        if memory_sections.len() == 0 {
            proof {
                if cond {
                    assert(false);
                }
            }
            return None;
        }
        if memory_sections.len() >= 0x1_0000 {
            proof {
                if cond {
                    assert(false);
                }
            }
            return None;
        }
        sort_sections_by_addr(&mut memory_sections);
        proof {
            if cond {
                assert(memory_sections@ == gsecs);
            }
        }
        if !sections_bounded(&memory_sections) {
            proof {
                if cond {
                    assert(memory_sections@[0].addr < 0x20_0000_0000_0000
                        && memory_sections@[0].size < 0x20_0000_0000_0000);
                    assert(false);
                }
            }
            return None;
        }
        let pages: u64 = ElfLoader::needed_pages(&memory_sections);
        proof {
            if cond {
                assert(gsecs[0].addr as int / 4096 < 0x1_0000_0000 && (gsecs[0].addr
                    + gsecs[0].size) as int / 4096 < 0x1_0000_0000) by (nonlinear_arith)
                    requires
                        0 <= gsecs[0].addr,
                        gsecs[0].addr + gsecs[0].size < 0x10_0000_0000,
                        0 <= gsecs[0].size,
                ;
                assert(crate::elf::spec_last_end_page(gsecs, 0) == 0xFFFF_FFFF_FFFF_FFFF);
                assert(crate::elf::spec_needed_pages(gsecs, 0) == 0);
                assert(crate::elf::spec_needed_pages(gsecs, 1) == 1 + ((gsecs[0].addr
                    + gsecs[0].size) as int / 4096 - gsecs[0].addr as int / 4096));
                assert(pages == spec_section_pages(gsecs[0]));
                assert(1 <= pages && pages <= 0x202) by (nonlinear_arith)
                    requires
                        pages == (gsecs[0].addr + gsecs[0].size) as int / 4096 - gsecs[0].addr as int
                            / 4096 + 1,
                        0 < gsecs[0].size < 0x20_0000,
                        gsecs[0].addr + gsecs[0].size < 0x10_0000_0000,
                        gsecs[0].addr >= 0,
                ;
            }
        }
        if pages == 0 || pages > 0x1000 {
            proof {
                if cond {
                    assert(false);
                }
            }
            return None;
        }
        let ghost before_pages = *page_table;
        let pages_addr: u64 = match page_table.zalloc(pages as usize) {
            Some(a) => a,
            None => {
                proof {
                    if cond {
                        lemma_big_run_survives_pair(
                            pre_heap,
                            before_pages,
                            process.stack,
                            pages as int,
                        );
                        let i = choose|i: int|
                            0 <= i && i + spec_section_pages(gsecs[0]) + 3 <= pre_heap.num_pages()
                                && #[trigger] pre_heap.run_free(
                                i,
                                spec_section_pages(gsecs[0]) + 3,
                            );
                        assert(!pre_heap.run_free(i, pages + 3));
                        assert(false);
                    }
                }
                return None;
            },
        };
        proof {
            let first = (pages_addr - before_pages.spec_heap_alloc_start()) / 4096;
            assert(pages_addr + (pages as int) * 4096 <= PHYS_LIMIT && pages_addr as int % 4096
                == 0) by (nonlinear_arith)
                requires
                    pages_addr == before_pages.spec_heap_alloc_start() + 4096 * first,
                    0 <= first,
                    first + pages <= before_pages.num_pages(),
                    before_pages.num_pages() == before_pages.spec_heap_size() / 4096,
                    before_pages.spec_heap_alloc_start() + before_pages.spec_heap_size()
                        + 0x100_0000 <= PHYS_LIMIT,
                    before_pages.spec_heap_size() >= 0,
                    before_pages.spec_heap_alloc_start() % 4096 == 0,
            ;
        }
        proof {
            let f = before_pages.frame_index_of(pages_addr as int);
            assert(page_table.is_alloc_start(f)) by {
                assert(page_table.desc(f + pages - 1) == crate::page_alloc::DESC_USED_LAST);
                assert(page_table.is_alloc_run(f, f + pages - 1));
            }
        }
        let region_len: usize = (pages as usize) * 4096;
        let mut region: Vec<u8> = Vec::new();
        let mut z: usize = 0;
        while z < region_len
            invariant
                region@.len() == z,
                z <= region_len,
            decreases region_len - z,
        {
            region.push(0);
            z = z + 1;
        }
        if !self.lay_out(
            &mut process,
            &memory_sections,
            &mut region,
            pages,
            pages_addr,
            region_len,
            Ghost(cond),
            Ghost(gsecs),
        ) {
            proof {
                if cond {
                    assert(false);
                }
            }
            return None;
        }
        process.program_counter = self.header.entry as u64;
        process.image_pages = region;
        process.image_pages_addr = pages_addr;
        proof {
            if cond {
                lemma_loaded_claims_give_read_back(
                    process.root,
                    process.image_pages@,
                    self.image@,
                    gsecs[0],
                    pages_addr,
                );
            }
        }
        Some(process)
    }

    /// Lays the collected sections out in the image frames: copies each
    /// PROGBITS section's bytes into the region and maps every covered
    /// page, sections sharing a boundary page sharing its frame. For the
    /// well-formed single-section image it cannot fail, and afterwards the
    /// section's claims hold of the process and the region.
    #[verifier::rlimit(100)]
    fn lay_out(
        &self,
        process: &mut Process,
        memory_sections: &Vec<Elf64SectionHeader>,
        region: &mut Vec<u8>,
        pages: u64,
        pages_addr: u64,
        region_len: usize,
        Ghost(cond): Ghost<bool>,
        Ghost(gsecs): Ghost<Seq<Elf64SectionHeader>>,
    ) -> (ok: bool)
        requires
            old(process).root.wf(),
            old(process).root.base + 4096 * 2010 <= PHYS_LIMIT,
            forall|va: u64, l: int| 1 <= l <= 2 ==> !old(process).root.leaf_at(va, l),
            old(region)@.len() == region_len,
            region_len == pages * 4096,
            pages <= 0x1000,
            pages_addr as int % 4096 == 0,
            pages_addr + (pages as int) * 4096 <= PHYS_LIMIT,
            forall|k: int|
                0 <= k < memory_sections@.len() ==> (#[trigger] memory_sections@[k]).addr
                    + memory_sections@[k].size < 0x40_0000_0000_0000,
            cond ==> (memory_sections@.len() == 1 && memory_sections@ == gsecs
                && old(process).root.tables@.len() <= 5 && pages == spec_section_pages(gsecs[0])
                && gsecs[0].section_type == SHT_PROGBITS && 0 < gsecs[0].size < 0x20_0000
                && gsecs[0].addr + gsecs[0].size < 0x10_0000_0000 && gsecs[0].offset
                + gsecs[0].size <= self.image@.len()),
        ensures
            final(process).root.wf(),
            final(process).frame == old(process).frame,
            final(process).pid == old(process).pid,
            final(process).stack == old(process).stack,
            final(process).program_counter == old(process).program_counter,
            final(process).image_pages == old(process).image_pages,
            final(process).image_pages_addr == old(process).image_pages_addr,
            final(region)@.len() == old(region)@.len(),
            cond ==> ok,
            (cond && ok) ==> loaded_section_claims(
                final(process).root,
                final(region)@,
                self.image@,
                gsecs[0],
                pages_addr,
            ),
    {
        let ns: usize = memory_sections.len();
        let mut si: usize = 0;
        let mut next_page: u64 = 0;
        let mut last_end_page: u64 = 0xFFFF_FFFF_FFFF_FFFF;
        while si < ns
            invariant
                process.root.wf(),
                process.root.base + 4096 * 2010 <= PHYS_LIMIT,
                forall|va: u64, l: int| 1 <= l <= 2 ==> !process.root.leaf_at(va, l),
                process.frame == old(process).frame,
                process.pid == old(process).pid,
                process.stack == old(process).stack,
                process.program_counter == old(process).program_counter,
                process.image_pages == old(process).image_pages,
                process.image_pages_addr == old(process).image_pages_addr,
                si <= ns,
                next_page <= pages,
                pages <= 0x1000,
                ns == memory_sections@.len(),
                region@.len() == region_len,
                region@.len() == old(region)@.len(),
                region_len == pages * 4096,
                pages_addr as int % 4096 == 0,
                pages_addr + (pages as int) * 4096 <= PHYS_LIMIT,
                forall|k: int|
                    0 <= k < memory_sections@.len() ==> (#[trigger] memory_sections@[k]).addr
                        + memory_sections@[k].size < 0x40_0000_0000_0000,
                si == 0 ==> (last_end_page == 0xFFFF_FFFF_FFFF_FFFF && next_page == 0),
                cond ==> (ns == 1 && memory_sections@ == gsecs && pages == spec_section_pages(
                    gsecs[0],
                ) && gsecs[0].section_type == SHT_PROGBITS && 0 < gsecs[0].size < 0x20_0000
                    && gsecs[0].addr + gsecs[0].size < 0x10_0000_0000 && gsecs[0].offset
                    + gsecs[0].size <= self.image@.len() && pages <= 0x202),
                cond && si == 0 ==> process.root.tables@.len() <= 5,
                cond && si == 1 ==> loaded_section_claims(
                    process.root,
                    region@,
                    self.image@,
                    gsecs[0],
                    pages_addr,
                ),
            decreases ns - si,
        {
            let sec = memory_sections[si];
            let start_page: u64 = sec.addr / 4096;
            let end_page: u64 = (sec.addr + sec.size) / 4096;
            let clean: bool = start_page != last_end_page;
            proof {
                if cond {
                    assert(si == 0 && sec == gsecs[0]);
                    assert(start_page < 0x1_0000_0000) by (nonlinear_arith)
                        requires
                            start_page == sec.addr as int / 4096,
                            0 <= sec.addr < 0x10_0000_0000,
                    ;
                    assert(clean);
                }
            }
            if !clean && next_page == 0 {
                proof {
                    if cond {
                        assert(false);
                    }
                }
                return false;
            }
            let current_page: u64 = if clean {
                next_page
            } else {
                next_page - 1
            };
            proof {
                assert(start_page <= end_page && end_page <= 0x400_0000_0000) by (nonlinear_arith)
                    requires
                        start_page == sec.addr as int / 4096,
                        end_page == (sec.addr + sec.size) as int / 4096,
                        0 <= sec.addr,
                        0 <= sec.size,
                        sec.addr + sec.size < 0x40_0000_0000_0000,
                ;
                if cond {
                    assert(current_page == 0);
                }
            }
            let section_pages: u64 = end_page - start_page + 1;
            if current_page > pages || section_pages > pages - current_page {
                proof {
                    if cond {
                        assert(false);
                    }
                }
                return false;
            }
            let dest_offset: u64 = current_page * 4096 + sec.addr % 4096;
            let ghost copied = !(sec.section_type == SHT_PROGBITS && sec.size > 0);
            if sec.section_type == SHT_PROGBITS && sec.size > 0 {
                proof {
                    if cond {
                        assert(sec.addr as int % 4096 + sec.size <= pages * 4096) by (
                        nonlinear_arith)
                            requires
                                pages == (sec.addr + sec.size) as int / 4096 - sec.addr as int
                                    / 4096 + 1,
                                sec.addr >= 0,
                                sec.size >= 0,
                        ;
                    }
                }
                if sec.offset > self.image.len() as u64 || sec.size > self.image.len() as u64
                    - sec.offset {
                    proof {
                        if cond {
                            assert(false);
                        }
                    }
                    return false;
                }
                if dest_offset > region_len as u64 || sec.size > region_len as u64 - dest_offset {
                    proof {
                        if cond {
                            assert(false);
                        }
                    }
                    return false;
                }
                let imglen: usize = self.image.len();
                let src0: usize = sec.offset as usize;
                let dst0: usize = dest_offset as usize;
                let count: usize = sec.size as usize;
                let mut b: usize = 0;
                while b < count
                    invariant
                        b <= count,
                        src0 + count <= imglen,
                        imglen == self.image@.len(),
                        dst0 + count <= region_len,
                        region@.len() == region_len,
                        forall|t: int|
                            #![trigger region@[dst0 + t]]
                            0 <= t < b ==> region@[dst0 + t] == self.image@[src0 + t],
                    decreases count - b,
                {
                    let byte: u8 = self.image[src0 + b];
                    region[dst0 + b] = byte;
                    b = b + 1;
                }
            }
            let ghost region_after_copy = region@;
            // Map every page the section covers; a shared leading page is
            // already mapped.
            let bits: u64 = if sec.flags & SHF_EXECINSTR != 0 {
                EntryBits::UserReadExecute.val()
            } else if sec.flags & SHF_WRITE != 0 {
                EntryBits::UserReadWrite.val()
            } else {
                EntryBits::UserReadExecute.val()
            };
            proof {
                assert(0x16u64 & 0xe != 0 && 0x1au64 & 0xe != 0) by (bit_vector);
            }
            let map_start: u64 = if clean {
                0
            } else {
                1
            };
            let mut pg: u64 = map_start;
            while pg < section_pages
                invariant
                    process.root.wf(),
                    process.root.base + 4096 * 2010 <= PHYS_LIMIT,
                    forall|va: u64, l: int| 1 <= l <= 2 ==> !process.root.leaf_at(va, l),
                    process.frame == old(process).frame,
                    process.pid == old(process).pid,
                    process.stack == old(process).stack,
                    process.program_counter == old(process).program_counter,
                    process.image_pages == old(process).image_pages,
                    process.image_pages_addr == old(process).image_pages_addr,
                    pg <= section_pages,
                    map_start <= pg,
                    current_page + section_pages <= pages,
                    pages <= 0x1000,
                    pages_addr as int % 4096 == 0,
                    pages_addr + (pages as int) * 4096 <= PHYS_LIMIT,
                    sec.addr + sec.size < 0x40_0000_0000_0000,
                    section_pages == (sec.addr + sec.size) / 4096 - sec.addr / 4096 + 1,
                    bits == spec_section_bits(sec),
                    bits == 0x16 || bits == 0x1a,
                    region@ == region_after_copy,
                    region@.len() == old(region)@.len(),
                    cond ==> (sec == gsecs[0] && current_page == 0 && map_start == 0
                        && process.root.tables@.len() <= 5 + 2 * pg && pg <= 0x202
                        && section_pages <= 0x202 && sec.addr + sec.size < 0x10_0000_0000),
                    cond ==> (forall|pg2: u64, va: u64|
                        #![trigger same_path(va, (sec.addr + 4096 * pg2) as u64, 0)]
                        pg2 < pg && same_path(va, (sec.addr + 4096 * pg2) as u64, 0)
                            ==> process.root.translate(va) == Some(
                            crate::map_table::mapped_phys((pages_addr + 4096 * pg2) as u64, va, 0),
                        ) && process.root.leaf_word_at(va, 0) == Some(
                            ((pages_addr as int / 4096 + pg2) * 1024 + (bits | 0xc1) as int) as u64,
                        )),
                decreases section_pages - pg,
            {
                if process.root.tables.len() > 2000 {
                    proof {
                        if cond {
                            assert(false);
                        }
                    }
                    return false;
                }
                proof {
                    assert(4096 * pg <= sec.size + 4096 && sec.addr + 4096 * pg <= sec.addr
                        + sec.size + 4096) by (nonlinear_arith)
                        requires
                            pg < section_pages,
                            section_pages == (sec.addr + sec.size) as int / 4096 - sec.addr as int
                                / 4096 + 1,
                            sec.addr >= 0,
                            sec.size >= 0,
                    ;
                }
                let vaddr: u64 = sec.addr + 4096 * pg;
                let phys_page_offset: u64 = 4096 * (current_page + pg);
                let paddr: u64 = pages_addr + phys_page_offset;
                proof {
                    assert(paddr < PHYS_LIMIT) by (nonlinear_arith)
                        requires
                            paddr == pages_addr + 4096 * (current_page + pg),
                            current_page + pg < pages,
                            pages_addr + pages * 4096 <= PHYS_LIMIT,
                            pages_addr >= 0,
                            current_page + pg >= 0,
                    ;
                }
                proof {
                    assert(0x16u64 & 0xe != 0 && 0x1au64 & 0xe != 0) by (bit_vector);
                }
                let ghost before_map = process.root;
                process.map_memory(vaddr, paddr, bits, 0);
                proof {
                    if cond {
                        assert forall|pg2: u64, va: u64|
                            #![trigger same_path(va, (sec.addr + 4096 * pg2) as u64, 0)]
                            pg2 < pg + 1 && same_path(va, (sec.addr + 4096 * pg2) as u64, 0)
                            implies process.root.translate(va) == Some(
                            crate::map_table::mapped_phys((pages_addr + 4096 * pg2) as u64, va, 0),
                        ) && process.root.leaf_word_at(va, 0) == Some(
                            ((pages_addr as int / 4096 + pg2) * 1024 + (bits | 0xc1) as int) as u64,
                        ) by {
                            if pg2 == pg {
                                assert(same_path(va, vaddr, 0));
                                assert((paddr as int / 4096) == pages_addr as int / 4096 + pg) by (
                                nonlinear_arith)
                                    requires
                                        paddr == pages_addr + 4096 * pg,
                                        pages_addr as int % 4096 == 0,
                                        pages_addr >= 0,
                                        pg >= 0,
                                ;
                            } else {
                                assert(!same_path(va, vaddr, 0)) by {
                                    let pa2 = (sec.addr + 4096 * pg2) as u64;
                                    assert(pa2 as int / 4096 != vaddr as int / 4096
                                        && -0x7F_FFFF_F000 <= pa2 - vaddr <= 0x7F_FFFF_F000) by (
                                    nonlinear_arith)
                                        requires
                                            pa2 == sec.addr + 4096 * pg2,
                                            vaddr == sec.addr + 4096 * pg,
                                            pg2 < pg <= 0x202,
                                            sec.addr >= 0,
                                            sec.addr + sec.size < 0x10_0000_0000,
                                            4096 * pg <= sec.size + 4096,
                                    ;
                                    crate::map_table::lemma_distinct_pages_distinct_path(
                                        pa2,
                                        vaddr,
                                    );
                                    if same_path(va, vaddr, 0) {
                                        assert(same_path(va, pa2, 0));
                                        assert(false);
                                    }
                                }
                                assert(process.root.translate(va) == before_map.translate(va));
                                assert(process.root.leaf_word_at(va, 0) == before_map.leaf_word_at(
                                    va,
                                    0,
                                ));
                            }
                        }
                    }
                }
                pg = pg + 1;
            }
            proof {
                if cond {
                    assert(loaded_section_claims(
                        process.root,
                        region@,
                        self.image@,
                        gsecs[0],
                        pages_addr,
                    )) by {
                        assert(bits | 0xc1 == (spec_section_bits(gsecs[0]) | 0xc1));
                        assert(forall|t: int|
                            #![trigger self.image@[gsecs[0].offset + t]]
                            0 <= t < gsecs[0].size ==> region@[gsecs[0].addr as int % 4096 + t]
                                == self.image@[gsecs[0].offset + t]);
                    }
                }
            }
            next_page = current_page + section_pages;
            last_end_page = end_page;
            si = si + 1;
        }
        true
    }
}

/// Every page of a loaded section is mapped onto its frame with the
/// section's permission word, and its bytes sit in the frames' region at
/// the section's page offset.
pub open spec fn loaded_section_claims(
    m: MapTable,
    region: Seq<u8>,
    image: Seq<u8>,
    sec: Elf64SectionHeader,
    pages_addr: u64,
) -> bool {
    &&& forall|pg: u64, va: u64|
        #![trigger same_path(va, (sec.addr + 4096 * pg) as u64, 0)]
        pg <= (sec.addr + sec.size) as int / 4096 - sec.addr as int / 4096 && same_path(
            va,
            (sec.addr + 4096 * pg) as u64,
            0,
        ) ==> m.translate(va) == Some(
            crate::map_table::mapped_phys((pages_addr + 4096 * pg) as u64, va, 0),
        ) && m.leaf_word_at(va, 0) == Some(
            ((pages_addr as int / 4096 + pg) * 1024 + (spec_section_bits(sec) | 0xc1) as int) as u64,
        )
    &&& forall|t: int|
        #![trigger image[sec.offset + t]]
        0 <= t < sec.size ==> region[sec.addr as int % 4096 + t] == image[sec.offset + t]
}

/// Law: loading a section and reading it back through address translation
/// reproduces the image's bytes. If every page a section covers is mapped
/// onto the frames that hold it — as `map`'s contract states for each page
/// the loader maps — and the section's bytes sit in those frames at the
/// section's page offset — as the loader's copy places them — then for
/// every byte of the section, translating its virtual address and reading
/// the frames there gives back the image byte.
pub proof fn lemma_section_read_back(
    m: MapTable,
    region: Seq<u8>,
    image: Seq<u8>,
    addr: u64,
    size: u64,
    offset: u64,
    pages_addr: u64,
    b: u64,
)
    requires
        addr + size < 0x40_0000_0000,
        pages_addr % 4096 == 0,
        pages_addr < 0x40_0000_0000_0000,
        b < size,
        offset + size <= image.len(),
        addr % 4096 + size <= region.len(),
        forall|pg: u64, va: u64|
            #![trigger same_path(va, (addr + 4096 * pg) as u64, 0)]
            pg <= (addr + size) as int / 4096 - addr as int / 4096 && same_path(
                va,
                (addr + 4096 * pg) as u64,
                0,
            ) ==> m.translate(va) == Some(
                crate::map_table::mapped_phys((pages_addr + 4096 * pg) as u64, va, 0),
            ),
        forall|t: int|
            #![trigger image[offset + t]]
            0 <= t < size ==> region[addr as int % 4096 + t] == image[offset + t],
    ensures
        m.translate((addr + b) as u64) == Some(pages_addr + addr as int % 4096 + b),
        region[(m.translate((addr + b) as u64)->Some_0) - pages_addr] == image[offset + b],
{
    let va = (addr + b) as u64;
    let pg = ((addr % 4096 + b) / 4096) as u64;
    let r = (addr % 4096 + b) % 4096;
    assert(pg <= (addr + size) as int / 4096 - addr as int / 4096 && va as int / 4096 == (addr
        + 4096 * pg) as int / 4096 && addr + 4096 * pg < 0x40_0000_0000 && va as int % 4096 == r
        && addr % 4096 + b == 4096 * pg + r) by (nonlinear_arith)
        requires
            0 <= b < size,
            addr + size < 0x40_0000_0000,
            va == addr + b,
            pg == (addr as int % 4096 + b) / 4096,
            r == (addr as int % 4096 + b) % 4096,
            addr >= 0,
    ;
    crate::map_table::lemma_same_page_same_path(va, (addr + 4096 * pg) as u64);
    assert(m.translate(va) == Some(
        crate::map_table::mapped_phys((pages_addr + 4096 * pg) as u64, va, 0),
    ));
    assert(crate::map_table::mapped_phys((pages_addr + 4096 * pg) as u64, va, 0) == pages_addr
        + 4096 * pg + r) by (nonlinear_arith)
        requires
            pages_addr as int % 4096 == 0,
            pages_addr >= 0,
            pg >= 0,
            0 <= r < 4096,
            va as int % 4096 == r,
            crate::map_table::mapped_phys((pages_addr + 4096 * pg) as u64, va, 0) == ((pages_addr
                + 4096 * pg) as int / 4096) * 4096 + va as int % 4096,
    ;
    assert(region[addr as int % 4096 + b] == image[offset + b]);
}


/// From the per-page and per-byte claims of a loaded section, every byte
/// of the section reads back through the table, behind a leaf carrying the
/// section's permission word.
proof fn lemma_loaded_claims_give_read_back(
    m: MapTable,
    region: Seq<u8>,
    image: Seq<u8>,
    sec: Elf64SectionHeader,
    pages_addr: u64,
)
    requires
        loaded_section_claims(m, region, image, sec, pages_addr),
        0 < sec.size,
        sec.addr + sec.size < 0x10_0000_0000,
        sec.offset + sec.size <= image.len(),
        sec.addr as int % 4096 + sec.size <= region.len(),
        pages_addr % 4096 == 0,
        pages_addr < 0x40_0000_0000_0000,
    ensures
        forall|b: u64|
            #![trigger m.translate((sec.addr + b) as u64)]
            b < sec.size ==> m.translate((sec.addr + b) as u64) == Some(
                pages_addr + sec.addr as int % 4096 + b,
            ) && region[m.translate((sec.addr + b) as u64)->Some_0 - pages_addr] == image[sec.offset
                + b],
        forall|b: u64|
            #![trigger m.leaf_word_at((sec.addr + b) as u64, 0)]
            b < sec.size ==> m.leaf_word_at((sec.addr + b) as u64, 0) == Some(
                ((pages_addr as int / 4096 + (sec.addr as int % 4096 + b) / 4096) * 1024 + (
                spec_section_bits(sec) | 0xc1) as int) as u64,
            ),
{
    assert forall|b: u64|
        #![trigger m.translate((sec.addr + b) as u64)]
        b < sec.size implies m.translate((sec.addr + b) as u64) == Some(
        pages_addr + sec.addr as int % 4096 + b,
    ) && region[m.translate((sec.addr + b) as u64)->Some_0 - pages_addr] == image[sec.offset
        + b] by {
        lemma_section_read_back(m, region, image, sec.addr, sec.size, sec.offset, pages_addr, b);
    }
    assert forall|b: u64|
        #![trigger m.leaf_word_at((sec.addr + b) as u64, 0)]
        b < sec.size implies m.leaf_word_at((sec.addr + b) as u64, 0) == Some(
        ((pages_addr as int / 4096 + (sec.addr as int % 4096 + b) / 4096) * 1024 + (
        spec_section_bits(sec) | 0xc1) as int) as u64,
    ) by {
        lemma_section_flags(
            m,
            sec.addr,
            sec.size,
            pages_addr,
            (spec_section_bits(sec) | 0xc1) as int,
            b,
        );
    }
}

/// The flags companion of `lemma_section_read_back`: with every covered
/// page mapped under the same leaf word pattern, every byte of the section
/// sits behind a leaf carrying exactly those permission bits.
pub proof fn lemma_section_flags(
    m: MapTable,
    addr: u64,
    size: u64,
    pages_addr: u64,
    wbits: int,
    b: u64,
)
    requires
        addr + size < 0x40_0000_0000,
        pages_addr % 4096 == 0,
        pages_addr < 0x40_0000_0000_0000,
        b < size,
        forall|pg: u64, va: u64|
            #![trigger same_path(va, (addr + 4096 * pg) as u64, 0)]
            pg <= (addr + size) as int / 4096 - addr as int / 4096 && same_path(
                va,
                (addr + 4096 * pg) as u64,
                0,
            ) ==> m.leaf_word_at(va, 0) == Some(
                ((pages_addr as int / 4096 + pg) * 1024 + wbits) as u64,
            ),
    ensures
        m.leaf_word_at((addr + b) as u64, 0) == Some(
            ((pages_addr as int / 4096 + (addr as int % 4096 + b) / 4096) * 1024 + wbits) as u64,
        ),
{
    let va = (addr + b) as u64;
    let pg = ((addr % 4096 + b) / 4096) as u64;
    assert(pg <= (addr + size) as int / 4096 - addr as int / 4096 && va as int / 4096 == (addr
        + 4096 * pg) as int / 4096 && addr + 4096 * pg < 0x40_0000_0000) by (nonlinear_arith)
        requires
            0 <= b < size,
            addr + size < 0x40_0000_0000,
            va == addr + b,
            pg == (addr as int % 4096 + b) / 4096,
            addr >= 0,
    ;
    crate::map_table::lemma_same_page_same_path(va, (addr + 4096 * pg) as u64);
    assert(m.leaf_word_at(va, 0) == Some(((pages_addr as int / 4096 + pg) * 1024 + wbits) as u64));
}

/// Each prefix of the occupying-section list extends to the full list.
proof fn lemma_alloc_sections_prefix(image: Seq<u8>, shoff: int, k: int, n: int)
    requires
        0 <= k <= n,
    ensures
        crate::elf::spec_alloc_sections(image, shoff, k).len() <= crate::elf::spec_alloc_sections(
            image,
            shoff,
            n,
        ).len(),
        forall|j: int|
            0 <= j < crate::elf::spec_alloc_sections(image, shoff, k).len()
                ==> crate::elf::spec_alloc_sections(image, shoff, k)[j]
                == #[trigger] crate::elf::spec_alloc_sections(image, shoff, n)[j],
    decreases n - k,
{
    if k < n {
        lemma_alloc_sections_prefix(image, shoff, k, n - 1);
    }
}

/// With the heap capped a megabyte below the encodable limit, every frame
/// the allocator can hand out leaves room for a map-table pool.
proof fn lemma_heap_addr_bound(pt: PageTable)
    requires
        pt.wf(),
        pt.spec_heap_alloc_start() + pt.spec_heap_size() + 0x100_0000 <= PHYS_LIMIT,
    ensures
        forall|i: int|
            0 <= i < pt.num_pages() ==> #[trigger] pt.addr_of(i) + 0x100_0000 + 4096 <= PHYS_LIMIT,
{
    assert forall|i: int| 0 <= i < pt.num_pages() implies #[trigger] pt.addr_of(i) + 0x100_0000
        + 4096 <= PHYS_LIMIT by {
        assert(4096 * i + 4096 <= pt.spec_heap_size()) by (nonlinear_arith)
            requires
                0 <= i < pt.num_pages(),
                pt.num_pages() == pt.spec_heap_size() / 4096,
        ;
    }
}

/// If a pair of frames was taken first-fit and then no run of `n` frames
/// is free, no run of `n + 3` frames was free to begin with: the pair sits
/// at or just before the first free frame, so a free `n + 3` run keeps a
/// free `n` run behind it.
proof fn lemma_big_run_survives_pair(pre: PageTable, mid: PageTable, stack: u64, n: int)
    requires
        pre.wf(),
        mid.wf(),
        n >= 1,
        mid.num_pages() == pre.num_pages(),
        ({
            let f = (stack - pre.spec_heap_alloc_start()) / PAGE_SIZE as int;
            &&& 0 <= f
            &&& f + 2 <= pre.num_pages()
            &&& pre.run_free(f, 2)
            &&& forall|i: int| 0 <= i < f ==> !pre.run_free(i, 2)
            &&& PageTable::alloc_marks(pre, mid, f, 2)
        }),
        forall|i: int| 0 <= i && i + n <= mid.num_pages() ==> !mid.run_free(i, n),
    ensures
        forall|i: int|
            0 <= i && i + n + 3 <= pre.num_pages() ==> !(#[trigger] pre.run_free(i, n + 3)),
{
    let f = (stack - pre.spec_heap_alloc_start()) / PAGE_SIZE as int;
    assert forall|i: int|
        0 <= i && i + n + 3 <= pre.num_pages() implies !(#[trigger] pre.run_free(i, n + 3)) by {
        if pre.run_free(i, n + 3) {
            assert(pre.run_free(i, 2));
            assert(f <= i);
            if f + 2 <= i {
                assert forall|k: int| i <= k < i + n implies mid.is_free(k) by {
                    assert(mid.desc(k) == pre.desc(k));
                }
                assert(mid.run_free(i, n));
            } else {
                // the pair overlaps the run's head: at worst frames i and
                // i + 1 are taken
                assert forall|k: int| i + 2 <= k < i + 2 + n implies mid.is_free(k) by {
                    assert(pre.is_free(k));
                    if f <= k < f + 2 {
                        assert(k < i + 2);
                        assert(false);
                    }
                    assert(mid.desc(k) == pre.desc(k));
                }
                assert(mid.run_free(i + 2, n));
            }
            assert(false);
        }
    }
}

/// A frame address handed out by a capped heap leaves pool room below the
/// encodable limit and is page-aligned.
proof fn lemma_alloc_addr_fits(pre: PageTable, addr: u64)
    requires
        pre.wf(),
        pre.spec_heap_alloc_start() + pre.spec_heap_size() + 0x100_0000 <= PHYS_LIMIT,
        exists|first: int|
            0 <= first && first < pre.num_pages() && addr == #[trigger] pre.addr_of(first),
    ensures
        addr % 4096 == 0,
        addr + 0x100_0000 + 4096 <= PHYS_LIMIT,
{
    let first = choose|first: int|
        0 <= first && first < pre.num_pages() && addr == #[trigger] pre.addr_of(first);
    lemma_heap_addr_bound(pre);
    assert(addr + 0x100_0000 + 4096 <= PHYS_LIMIT);
    assert(addr % 4096 == 0) by (nonlinear_arith)
        requires
            addr == pre.spec_heap_alloc_start() + 4096 * first,
            pre.spec_heap_alloc_start() % 4096 == 0,
            first >= 0,
            addr >= 0,
    ;
}

} // verus!

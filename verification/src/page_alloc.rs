//! Physical page-frame allocator.
//!
//! The heap is carved into frames of `PAGE_SIZE` bytes. One descriptor
//! byte per frame records whether the frame is taken (`Used`) and whether
//! it ends an allocation (`Last`). A run of frames marked `Used` and
//! terminated by a frame marked `Used | Last` is one allocation; a clear
//! byte is a free frame. The descriptor bytes themselves live in frames
//! reserved at the bottom of the heap, so the first frame handed out sits
//! at `heap_alloc_start`, the heap start rounded past the reserved region.
//!
//! Physical addresses are held as `u64`: the modeled machine is 64-bit
//! RISC-V, whatever the host is.

use vstd::prelude::*;

verus! {

use vstd::arithmetic::power2::{pow2, lemma_pow2_pos, lemma2_to64};
use vstd::bits::{lemma_u64_shl_is_mul, lemma_u64_pow2_no_overflow};

pub const PAGE_ORDER: u64 = 12;

pub const PAGE_SIZE: u64 = 4096;

/// Largest heap byte address the allocator accepts. Keeping every frame
/// address below `2^54` lets a frame address be encoded in an Sv39 page
/// table entry without overflow.
pub const HEAP_LIMIT: u64 = 0x40_0000_0000_0000;

/// Descriptor byte value of a free frame.
pub const DESC_EMPTY: u8 = 0;

/// Descriptor byte value of an interior frame of an allocation.
pub const DESC_USED: u8 = 1;

/// Descriptor byte value of the final frame of an allocation.
pub const DESC_USED_LAST: u8 = 3;

/// The two flag bits of a frame descriptor byte.
#[derive(Clone, Copy)]
pub enum PageBits {
    Empty,
    Used,
    Last,
}

impl PageBits {
    pub open spec fn spec_val(self) -> u8 {
        match self {
            PageBits::Empty => 0,
            PageBits::Used => 1,
            PageBits::Last => 2,
        }
    }

    pub fn val(self) -> (r: u8)
        ensures
            r == self.spec_val(),
    {
        match self {
            PageBits::Empty => 0,
            PageBits::Used => 1,
            PageBits::Last => 2,
        }
    }
}

/// One frame descriptor.
pub struct Page {
    pub bits: u8,
}

impl Page {
    pub fn is_used(&self) -> (r: bool)
        ensures
            r == (self.bits & 1 != 0),
    {
        self.bits & PageBits::Used.val() != 0
    }

    pub fn is_last(&self) -> (r: bool)
        ensures
            r == (self.bits & 2 != 0),
    {
        self.bits & PageBits::Last.val() != 0
    }

    pub fn set_flag(&mut self, flags: PageBits)
        ensures
            final(self).bits == old(self).bits | flags.spec_val(),
    {
        self.bits = self.bits | flags.val();
    }

    pub fn clear(&mut self)
        ensures
            final(self).bits == 0,
    {
        self.bits = PageBits::Empty.val();
    }
}

/// Facts about the three descriptor byte values the allocator writes.
proof fn lemma_desc_byte_values()
    by (bit_vector)
    ensures
        forall|b: u8| (b == 0 || b == 1 || b == 3) ==> ((b & 1 != 0) == (b == 1 || b == 3)),
        forall|b: u8| (b == 0 || b == 1 || b == 3) ==> ((b & 2 != 0) == (b == 3)),
        0u8 | 1 == 1u8,
        1u8 | 2 == 3u8,
        (0u8 | 1) | 2 == 3u8,
{
}

/// `val` rounded up to the next multiple of `size`.
pub open spec fn spec_round_up(val: int, size: int) -> int {
    ((val + size - 1) / size) * size
}

/// Rounds `val` up to the next multiple of `2^order`.
pub fn round_up(val: u64, order: u64) -> (r: u64)
    requires
        order < 64,
        val + pow2(order as nat) - 1 <= u64::MAX,
    ensures
        r == spec_round_up(val as int, pow2(order as nat) as int),
        r >= val,
        r % (pow2(order as nat) as u64) == 0,
        r < val + pow2(order as nat),
{
    proof {
        lemma_pow2_pos(order as nat);
        lemma_u64_pow2_no_overflow(order as nat);
        lemma_u64_shl_is_mul(1, order);
    }
    let size: u64 = 1u64 << order;
    let sum: u64 = val + (size - 1);
    let q: u64 = sum / size;
    proof {
        let s = size as int;
        let v = val as int;
        assert(q * s <= v + s - 1 && q * s >= v && q * s < v + s && (q * s) % s == 0) by (
        nonlinear_arith)
            requires
                s >= 1,
                v >= 0,
                q == (v + s - 1) / s,
        ;
    }
    let r: u64 = q * size;
    r
}

/// The page-frame allocator: the heap bounds, the address of the first
/// frame it hands out, and one descriptor byte per frame of the heap.
pub struct PageTable {
    pub heap_start: u64,
    pub heap_size: u64,
    pub heap_alloc_start: u64,
    pub descriptors: Vec<Page>,
}

impl PageTable {
    /// Number of frames the heap is divided into (descriptor frames included).
    pub open spec fn num_pages(self) -> int {
        self.heap_size as int / PAGE_SIZE as int
    }

    /// The descriptor byte of frame `i`.
    #[verifier::inline]
    pub open spec fn desc(self, i: int) -> u8 {
        self.descriptors@[i].bits
    }

    /// Frame `i` is free.
    #[verifier::inline]
    pub open spec fn is_free(self, i: int) -> bool {
        self.desc(i) == DESC_EMPTY
    }

    /// Frames `[start, start + n)` are all free.
    pub open spec fn run_free(self, start: int, n: int) -> bool {
        forall|k: int| start <= k < start + n ==> self.is_free(k)
    }

    /// The physical address of frame `i`.
    pub open spec fn addr_of(self, i: int) -> int {
        self.heap_alloc_start + PAGE_SIZE * i
    }

    pub open spec fn spec_heap_start(self) -> int {
        self.heap_start as int
    }

    pub open spec fn spec_heap_size(self) -> int {
        self.heap_size as int
    }

    pub open spec fn spec_heap_alloc_start(self) -> int {
        self.heap_alloc_start as int
    }

    /// Frames reserved at the bottom of the heap for the descriptor bytes.
    pub open spec fn reserved_pages(self) -> int {
        self.num_pages() / (PAGE_SIZE + 1) as int + 1
    }

    /// The allocator is initialized: one descriptor per frame, every
    /// descriptor holding one of the three legal byte values, and the
    /// first usable frame aligned past the reserved region.
    pub open spec fn wf(self) -> bool {
        &&& self.descriptors@.len() == self.num_pages()
        &&& self.heap_start + self.heap_size <= HEAP_LIMIT
        &&& self.heap_alloc_start as int == spec_round_up(
            self.heap_start + self.reserved_pages() * PAGE_SIZE,
            PAGE_SIZE as int,
        )
        &&& self.heap_alloc_start as int % PAGE_SIZE as int == 0
        &&& self.heap_alloc_start + 2 * PAGE_SIZE <= HEAP_LIMIT + 4 * PAGE_SIZE
        &&& forall|i: int|
            0 <= i < self.num_pages() ==> (self.desc(i) == DESC_EMPTY || self.desc(i) == DESC_USED
                || self.desc(i) == DESC_USED_LAST)
    }

    /// A fresh allocator for the heap `[heap_start, heap_start + heap_size)`;
    /// `init` must run before any allocation.
    pub fn new(heap_start: u64, heap_size: u64) -> (r: PageTable)
        ensures
            r.spec_heap_start() == heap_start,
            r.spec_heap_size() == heap_size,
            r.spec_heap_alloc_start() == heap_start,
            r.descriptors@.len() == 0,
    {
        PageTable { heap_start, heap_size, heap_alloc_start: heap_start, descriptors: Vec::new() }
    }

    /// Clears every descriptor byte and computes the first usable frame
    /// address, one page-aligned step past the reserved descriptor frames.
    #[verifier::loop_isolation(false)]
    pub fn init(&mut self)
        requires
            old(self).heap_start + old(self).heap_size <= HEAP_LIMIT,
            old(self).num_pages() <= usize::MAX,
        ensures
            final(self).wf(),
            final(self).spec_heap_start() == old(self).spec_heap_start(),
            final(self).spec_heap_size() == old(self).spec_heap_size(),
            forall|i: int| 0 <= i < final(self).num_pages() ==> final(self).is_free(i),
    {
        proof {
            lemma2_to64();
        }
        let num_pages: usize = (self.heap_size / PAGE_SIZE) as usize;
        let reserved_pages: usize = num_pages / (PAGE_SIZE as usize + 1) + 1;
        let mut descriptors: Vec<Page> = Vec::new();
        let mut i: usize = 0;
        while i < num_pages
            invariant
                i <= num_pages,
                descriptors@.len() == i,
                forall|k: int| 0 <= k < i ==> descriptors@[k].bits == 0,
            decreases num_pages - i,
        {
            descriptors.push(Page { bits: DESC_EMPTY });
            i = i + 1;
        }
        self.descriptors = descriptors;
        assert((reserved_pages as int) * (PAGE_SIZE as int) <= self.heap_size + PAGE_SIZE) by (
        nonlinear_arith)
            requires
                reserved_pages as int == (self.heap_size as int / 4096) / 4097 + 1,
                PAGE_SIZE == 4096,
                self.heap_size >= 0,
        ;
        let start: u64 = self.heap_start + (reserved_pages as u64) * PAGE_SIZE;
        self.heap_alloc_start = round_up(start, PAGE_ORDER);
    }

    /// Number of frames needed to cover the byte range `[start, end)`,
    /// taking both bounds rounded up to a page boundary.
    pub fn pages_needed(start: u64, end: u64) -> (r: u64)
        requires
            start <= end,
            end + PAGE_SIZE - 1 <= u64::MAX,
        ensures
            r == (spec_round_up(end as int, PAGE_SIZE as int) - spec_round_up(
                start as int,
                PAGE_SIZE as int,
            )) / PAGE_SIZE as int + 1,
            r * PAGE_SIZE >= end - start,
            r >= 1,
    {
        proof {
            lemma2_to64();
        }
        let up_end: u64 = round_up(end, PAGE_ORDER);
        let up_start: u64 = round_up(start, PAGE_ORDER);
        assert(up_start <= up_end) by (nonlinear_arith)
            requires
                up_start == spec_round_up(start as int, 4096),
                up_end == spec_round_up(end as int, 4096),
                start <= end,
                start >= 0,
        ;
        let r: u64 = (up_end - up_start) / PAGE_SIZE + 1;
        proof {
            lemma_pages_needed_covers(start as int, end as int, r as int);
        }
        r
    }

    /// Number of frames the heap is divided into.
    pub fn get_heap_pages_len(&self) -> (r: u64)
        ensures
            r == self.num_pages(),
    {
        self.heap_size / PAGE_SIZE
    }

    /// The descriptor bytes written by a successful allocation of `n`
    /// frames at first frame `first`: `Used` on the interior frames,
    /// `Used | Last` on the final frame, everything else untouched.
    pub open spec fn alloc_marks(pre: PageTable, post: PageTable, first: int, n: int) -> bool {
        &&& post.descriptors@.len() == pre.descriptors@.len()
        &&& forall|k: int| first <= k < first + n - 1 ==> post.desc(k) == DESC_USED
        &&& post.desc(first + n - 1) == DESC_USED_LAST
        &&& forall|k: int|
            0 <= k < pre.num_pages() && !(first <= k < first + n) ==> post.desc(k) == pre.desc(k)
    }

    /// First-fit allocation of `pages` contiguous frames.
    ///
    /// Returns the physical address of the first frame of the leftmost run
    /// of `pages` consecutive free frames, marking the run's descriptors,
    /// or `None` — with nothing changed — when no such run exists.
    #[verifier::loop_isolation(false)]
    pub fn allocate(&mut self, pages: usize) -> (r: Option<u64>)
        requires
            old(self).wf(),
            pages >= 1,
        ensures
            final(self).wf(),
            final(self).spec_heap_start() == old(self).spec_heap_start(),
            final(self).spec_heap_size() == old(self).spec_heap_size(),
            final(self).spec_heap_alloc_start() == old(self).spec_heap_alloc_start(),
            r is None ==> *final(self) == *old(self) && (forall|i: int|
                0 <= i && i + pages <= old(self).num_pages() ==> !old(self).run_free(
                    i,
                    pages as int,
                )),
            r is Some ==> {
                let first = (r->Some_0 - old(self).spec_heap_alloc_start()) / PAGE_SIZE as int;
                &&& 0 <= first
                &&& first + pages <= old(self).num_pages()
                &&& r->Some_0 == old(self).addr_of(first)
                &&& old(self).run_free(first, pages as int)
                &&& forall|i: int| 0 <= i < first ==> !old(self).run_free(i, pages as int)
                &&& PageTable::alloc_marks(*old(self), *final(self), first, pages as int)
            },
    {
        proof {
            lemma_desc_byte_values();
        }
        let num_pages: usize = self.descriptors.len();
        let ghost pre = *self;
        let mut free_pages: usize = 0;
        let mut cur_page_idx: usize = 0;
        while cur_page_idx < num_pages
            invariant
                *self == pre,
                pre.wf(),
                num_pages == pre.num_pages(),
                pages >= 1,
                cur_page_idx <= num_pages,
                free_pages <= cur_page_idx,
                free_pages < pages,
                pre.run_free(cur_page_idx - free_pages, free_pages as int),
                free_pages == cur_page_idx || !pre.is_free(cur_page_idx - free_pages - 1),
                forall|i: int|
                    0 <= i && i + pages <= cur_page_idx ==> !pre.run_free(i, pages as int),
            decreases num_pages - cur_page_idx,
        {
            let used: bool = self.descriptors[cur_page_idx].is_used();
            if !used {
                proof {
                    lemma_desc_byte_values();
                    assert(pre.desc(cur_page_idx as int) == DESC_EMPTY);
                }
                free_pages = free_pages + 1;
            } else {
                proof {
                    lemma_desc_byte_values();
                    assert(!pre.is_free(cur_page_idx as int));
                }
                free_pages = 0;
            }
            if free_pages == pages {
                let first_page: usize = cur_page_idx + 1 - pages;
                assert(pre.run_free(first_page as int, pages as int));
                assert(forall|i: int| 0 <= i < first_page ==> !pre.run_free(i, pages as int)) by {
                    assert forall|i: int| 0 <= i < first_page implies !pre.run_free(
                        i,
                        pages as int,
                    ) by {
                        assert(i + pages <= cur_page_idx as int);
                    }
                }
                // Mark the interior frames, then the final frame.
                let mut offset: usize = first_page;
                while offset < cur_page_idx
                    invariant
                        first_page <= offset <= cur_page_idx,
                        cur_page_idx < num_pages,
                        num_pages == pre.num_pages(),
                        pre.wf(),
                        pre.run_free(first_page as int, pages as int),
                        first_page + pages == cur_page_idx + 1,
                        self.descriptors@.len() == pre.descriptors@.len(),
                        self.heap_start == pre.heap_start,
                        self.heap_size == pre.heap_size,
                        self.heap_alloc_start == pre.heap_alloc_start,
                        forall|k: int| first_page <= k < offset ==> self.desc(k) == DESC_USED,
                        forall|k: int|
                            0 <= k < pre.num_pages() && !(first_page <= k < offset) ==> self.desc(k)
                                == pre.desc(k),
                    decreases cur_page_idx - offset,
                {
                    proof {
                        lemma_desc_byte_values();
                        assert(self.desc(offset as int) == pre.desc(offset as int));
                        assert(pre.is_free(offset as int));
                    }
                    let ghost prev = self.descriptors@;
                    let page = &mut self.descriptors[offset];
                    page.set_flag(PageBits::Used);
                    proof {
                        assert(self.descriptors@[offset as int].bits == prev[offset as int].bits
                            | 1u8);
                        assert(prev[offset as int].bits == 0u8);
                        assert(self.desc(offset as int) == DESC_USED);
                        assert(forall|k: int|
                            0 <= k < prev.len() && k != offset ==> self.descriptors@[k]
                                == prev[k]);
                    }
                    offset = offset + 1;
                }
                proof {
                    lemma_desc_byte_values();
                    assert(self.desc(cur_page_idx as int) == pre.desc(cur_page_idx as int));
                    assert(pre.is_free(cur_page_idx as int));
                }
                let page = &mut self.descriptors[cur_page_idx];
                page.set_flag(PageBits::Used);
                page.set_flag(PageBits::Last);
                proof {
                    assert(PAGE_SIZE as int * first_page as int <= PAGE_SIZE as int
                        * pre.num_pages() && PAGE_SIZE as int * pre.num_pages()
                        <= pre.heap_size as int) by (nonlinear_arith)
                        requires
                            first_page as int <= pre.num_pages(),
                            pre.num_pages() == pre.heap_size as int / 4096,
                            PAGE_SIZE == 4096,
                            pre.heap_size >= 0,
                    ;
                }
                let addr: u64 = self.heap_alloc_start + PAGE_SIZE * (first_page as u64);
                proof {
                    assert((addr - pre.heap_alloc_start as int) / PAGE_SIZE as int
                        == first_page as int) by (nonlinear_arith)
                        requires
                            addr == pre.heap_alloc_start + PAGE_SIZE as int * first_page as int,
                            PAGE_SIZE == 4096,
                            pre.heap_alloc_start >= 0,
                    ;
                    assert forall|i: int| 0 <= i < pre.num_pages() implies (self.descriptors@[i].bits
                        == DESC_EMPTY || self.descriptors@[i].bits == DESC_USED
                        || self.descriptors@[i].bits == DESC_USED_LAST) by {
                        if !(first_page <= i < first_page + pages) {
                            assert(self.descriptors@[i].bits == pre.descriptors@[i].bits);
                        }
                    }
                }
                return Some(addr);
            }
            cur_page_idx = cur_page_idx + 1;
        }
        None
    }

    /// `allocate`, for a region the caller will clear before use. The
    /// descriptor state is exactly that of `allocate`; the contents of the
    /// frames themselves are not modeled here.
    pub fn zalloc(&mut self, pages: usize) -> (r: Option<u64>)
        requires
            old(self).wf(),
            pages >= 1,
        ensures
            final(self).wf(),
            final(self).spec_heap_start() == old(self).spec_heap_start(),
            final(self).spec_heap_size() == old(self).spec_heap_size(),
            final(self).spec_heap_alloc_start() == old(self).spec_heap_alloc_start(),
            r is None ==> *final(self) == *old(self) && (forall|i: int|
                0 <= i && i + pages <= old(self).num_pages() ==> !old(self).run_free(
                    i,
                    pages as int,
                )),
            r is Some ==> {
                let first = (r->Some_0 - old(self).spec_heap_alloc_start()) / PAGE_SIZE as int;
                &&& 0 <= first
                &&& first + pages <= old(self).num_pages()
                &&& r->Some_0 == old(self).addr_of(first)
                &&& old(self).run_free(first, pages as int)
                &&& forall|i: int| 0 <= i < first ==> !old(self).run_free(i, pages as int)
                &&& PageTable::alloc_marks(*old(self), *final(self), first, pages as int)
            },
    {
        self.allocate(pages)
    }

    /// Frame `first` through frame `end` form one live allocation: only
    /// `Used` descriptors from `first`, terminated by `Used | Last` at `end`.
    pub open spec fn is_alloc_run(self, first: int, end: int) -> bool {
        &&& 0 <= first <= end < self.num_pages()
        &&& self.desc(end) == DESC_USED_LAST
        &&& forall|k: int| first <= k < end ==> self.desc(k) == DESC_USED
    }

    pub open spec fn frame_index_of(self, ptr: int) -> int {
        (ptr - self.heap_alloc_start as int) / PAGE_SIZE as int
    }

    /// Frame `first` starts a live allocation: some later frame terminates
    /// it with `Used | Last`, with only `Used` descriptors in between.
    pub open spec fn is_alloc_start(self, first: int) -> bool {
        exists|end: int| self.is_alloc_run(first, end)
    }

    /// Frame `k` belongs to the allocation run that starts at `first`.
    pub open spec fn in_run(self, first: int, k: int) -> bool {
        &&& first <= k < self.num_pages()
        &&& forall|j: int| first <= j < k ==> self.desc(j) == DESC_USED
        &&& (self.desc(k) == DESC_USED || self.desc(k) == DESC_USED_LAST)
    }

    /// Frees the allocation whose first frame holds `ptr`: clears `Used`
    /// descriptors forward until the `Used | Last` terminator is cleared
    /// too. The caller must name a frame of a live allocation — a cleared
    /// first descriptor (a double free) is rejected by the precondition,
    /// as the kernel's runtime check rejects it loudly.
    #[verifier::loop_isolation(false)]
    pub fn dealloc(&mut self, ptr: u64)
        requires
            old(self).wf(),
            ptr >= old(self).spec_heap_alloc_start(),
            old(self).is_alloc_start(old(self).frame_index_of(ptr as int)),
        ensures
            final(self).wf(),
            final(self).spec_heap_start() == old(self).spec_heap_start(),
            final(self).spec_heap_size() == old(self).spec_heap_size(),
            final(self).spec_heap_alloc_start() == old(self).spec_heap_alloc_start(),
            final(self).descriptors@.len() == old(self).descriptors@.len(),
            forall|k: int|
                0 <= k < old(self).num_pages() ==> final(self).desc(k) == (if old(self).in_run(
                    old(self).frame_index_of(ptr as int),
                    k,
                ) {
                    DESC_EMPTY
                } else {
                    old(self).desc(k)
                }),
    {
        proof {
            lemma_desc_byte_values();
        }
        let ghost pre = *self;
        let nd: usize = self.descriptors.len();
        let idx64: u64 = (ptr - self.heap_alloc_start) / PAGE_SIZE;
        let ghost end = choose|e: int| pre.is_alloc_run(pre.frame_index_of(ptr as int), e);
        proof {
            assert(pre.is_alloc_run(pre.frame_index_of(ptr as int), end));
            assert(idx64 as int == pre.frame_index_of(ptr as int));
            assert(idx64 < nd as u64);
        }
        let bits_id: usize = idx64 as usize;
        let mut cur: usize = bits_id;
        while self.descriptors[cur].is_used() && !self.descriptors[cur].is_last()
            invariant
                pre.wf(),
                pre.is_alloc_run(bits_id as int, end),
                bits_id <= cur <= end < nd,
                nd == pre.descriptors@.len(),
                self.descriptors@.len() == pre.descriptors@.len(),
                self.heap_start == pre.heap_start,
                self.heap_size == pre.heap_size,
                self.heap_alloc_start == pre.heap_alloc_start,
                forall|k: int| bits_id <= k < cur ==> self.desc(k) == DESC_EMPTY,
                forall|k: int|
                    0 <= k < pre.num_pages() && !(bits_id <= k < cur) ==> self.desc(k) == pre.desc(
                        k,
                    ),
            decreases end - cur,
        {
            proof {
                lemma_desc_byte_values();
                assert(self.desc(cur as int) == pre.desc(cur as int));
                assert(cur < end) by {
                    if cur == end {
                        assert(pre.desc(end) == DESC_USED_LAST);
                    }
                }
                assert(pre.desc(cur as int) == DESC_USED);
            }
            let page = &mut self.descriptors[cur];
            page.clear();
            cur = cur + 1;
        }
        proof {
            lemma_desc_byte_values();
            assert(self.desc(cur as int) == pre.desc(cur as int));
            assert(cur == end) by {
                if cur < end {
                    assert(pre.desc(cur as int) == DESC_USED);
                }
            }
        }
        let page = &mut self.descriptors[cur];
        page.clear();
        proof {
            lemma_desc_byte_values();
            assert forall|k: int| 0 <= k < pre.num_pages() implies self.desc(k) == (if pre.in_run(
                bits_id as int,
                k,
            ) {
                DESC_EMPTY
            } else {
                pre.desc(k)
            }) by {
                if bits_id as int <= k <= end {
                    assert(pre.in_run(bits_id as int, k));
                    assert(self.desc(k) == DESC_EMPTY);
                } else if k > end {
                    assert(pre.desc(end) == DESC_USED_LAST);
                    assert(!pre.in_run(bits_id as int, k));
                    assert(self.desc(k) == pre.desc(k));
                } else {
                    assert(!pre.in_run(bits_id as int, k));
                    assert(self.desc(k) == pre.desc(k));
                }
            }
            assert forall|i: int| 0 <= i < pre.num_pages() implies (self.descriptors@[i].bits
                == DESC_EMPTY || self.descriptors@[i].bits == DESC_USED || self.descriptors@[i].bits
                == DESC_USED_LAST) by {
                if !(bits_id as int <= i <= end) {
                    assert(self.descriptors@[i].bits == pre.descriptors@[i].bits);
                }
            }
        }
    }
}

impl PageTable {
    /// Taken frames among the first `i` descriptors.
    pub open spec fn spec_used_count(self, i: int) -> int
        decreases i,
        when 0 <= i
    {
        if i == 0 {
            0
        } else {
            self.spec_used_count(i - 1) + (if self.desc(i - 1) != DESC_EMPTY {
                1int
            } else {
                0int
            })
        }
    }

    /// A reported allocation entry is consistent: at least one frame, a
    /// page-aligned span from the usable heap, a taken first frame and a
    /// `Used | Last` terminator on its final frame.
    pub open spec fn run_entry_ok(self, e: (u64, u64, u64)) -> bool {
        let si = self.frame_index_of(e.0 as int);
        let ei = self.frame_index_of(e.1 as int + 1) - 1;
        &&& e.2 >= 1
        &&& e.0 >= self.spec_heap_alloc_start()
        &&& (e.0 - self.spec_heap_alloc_start()) % 4096 == 0
        &&& e.1 + 1 - e.0 >= 4096
        &&& (e.1 + 1 - e.0) % 4096 == 0
        &&& 0 <= si <= ei < self.num_pages()
        &&& self.desc(ei) == DESC_USED_LAST
        &&& self.desc(si) != DESC_EMPTY
    }

    /// The allocation table, as the kernel prints it at boot: the total of
    /// taken frames, and each live allocation as its first address, its
    /// last byte's address and its frame count.
    #[verifier::loop_isolation(false)]
    pub fn allocation_runs(&self) -> (r: (u64, Vec<(u64, u64, u64)>))
        requires
            self.wf(),
        ensures
            r.0 == self.spec_used_count(self.num_pages()),
            forall|j: int| 0 <= j < r.1@.len() ==> self.run_entry_ok(#[trigger] r.1@[j]),
    {
        let num_pages: usize = self.descriptors.len();
        let mut runs: Vec<(u64, u64, u64)> = Vec::new();
        let mut total_taken: u64 = 0;
        let mut cur_taken: u64 = 0;
        let mut cur_start_page: u64 = self.heap_alloc_start;
        let mut is_begin: bool = true;
        let mut i: usize = 0;
        while i < num_pages
            invariant
                i <= num_pages,
                num_pages == self.num_pages(),
                total_taken == self.spec_used_count(i as int),
                total_taken <= i,
                cur_taken <= total_taken,
                forall|j: int| 0 <= j < runs@.len() ==> self.run_entry_ok(#[trigger] runs@[j]),
                !is_begin ==> (cur_start_page >= self.spec_heap_alloc_start() && (cur_start_page
                    - self.spec_heap_alloc_start()) % 4096 == 0 && 0 <= self.frame_index_of(
                    cur_start_page as int,
                ) < i && self.desc(self.frame_index_of(cur_start_page as int)) != DESC_EMPTY),
            decreases num_pages - i,
        {
            proof {
                assert(4096 * i <= 4096 * self.num_pages() && 4096 * self.num_pages()
                    <= self.heap_size) by (nonlinear_arith)
                    requires
                        0 <= i <= self.num_pages(),
                        self.num_pages() == self.heap_size as int / 4096,
                        self.heap_size >= 0,
                ;
            }
            if self.descriptors[i].is_used() {
                proof {
                    lemma_desc_byte_values();
                }
                if is_begin {
                    cur_start_page = self.heap_alloc_start + PAGE_SIZE * (i as u64);
                    is_begin = false;
                }
                cur_taken = cur_taken + 1;
                total_taken = total_taken + 1;
                if self.descriptors[i].is_last() {
                    let end_addr: u64 = self.heap_alloc_start + PAGE_SIZE * (i as u64 + 1) - 1;
                    proof {
                        let e = (cur_start_page, end_addr, cur_taken);
                        assert(self.frame_index_of(cur_start_page as int) == (cur_start_page
                            - self.spec_heap_alloc_start()) / 4096 && self.frame_index_of(
                            end_addr as int + 1,
                        ) == i + 1 && (cur_start_page - self.spec_heap_alloc_start()) % 4096 == 0
                            && (end_addr + 1 - cur_start_page) % 4096 == 0 && end_addr + 1
                            - cur_start_page >= 4096) by (nonlinear_arith)
                            requires
                                end_addr == self.spec_heap_alloc_start() + 4096 * (i + 1) - 1,
                                cur_start_page >= self.spec_heap_alloc_start(),
                                (cur_start_page - self.spec_heap_alloc_start()) % 4096 == 0,
                                self.frame_index_of(cur_start_page as int) == (cur_start_page
                                    - self.spec_heap_alloc_start()) / 4096,
                                self.frame_index_of(end_addr as int + 1) == (end_addr + 1
                                    - self.spec_heap_alloc_start()) / 4096,
                                self.frame_index_of(cur_start_page as int) <= i,
                                PAGE_SIZE == 4096,
                        ;
                        assert(self.run_entry_ok(e));
                    }
                    runs.push((cur_start_page, end_addr, cur_taken));
                    cur_taken = 0;
                    is_begin = true;
                }
            } else {
                proof {
                    lemma_desc_byte_values();
                }
            }
            i = i + 1;
        }
        (total_taken, runs)
    }
}

/// Law: a paired allocation and deallocation restore every descriptor
/// byte, so the allocator returns to its prior state.
pub proof fn lemma_alloc_dealloc_roundtrip(
    pre: PageTable,
    mid: PageTable,
    post: PageTable,
    first: int,
    n: int,
)
    requires
        pre.wf(),
        n >= 1,
        0 <= first,
        first + n <= pre.num_pages(),
        pre.run_free(first, n),
        PageTable::alloc_marks(pre, mid, first, n),
        mid.num_pages() == pre.num_pages(),
        forall|k: int|
            0 <= k < mid.num_pages() ==> post.desc(k) == (if mid.in_run(first, k) {
                DESC_EMPTY
            } else {
                mid.desc(k)
            }),
        post.descriptors@.len() == mid.descriptors@.len(),
    ensures
        post.descriptors@.len() == pre.descriptors@.len(),
        forall|k: int| 0 <= k < pre.num_pages() ==> post.desc(k) == pre.desc(k),
{
    assert forall|k: int| 0 <= k < pre.num_pages() implies post.desc(k) == pre.desc(k) by {
        if first <= k < first + n {
            assert(mid.in_run(first, k)) by {
                if k < first + n - 1 {
                    assert(mid.desc(k) == DESC_USED);
                } else {
                    assert(mid.desc(k) == DESC_USED_LAST);
                }
            }
            assert(pre.is_free(k));
            assert(post.desc(k) == DESC_EMPTY);
        } else {
            assert(!mid.in_run(first, k)) by {
                if k >= first + n {
                    assert(mid.desc(first + n - 1) == DESC_USED_LAST);
                }
            }
            assert(post.desc(k) == mid.desc(k));
            assert(mid.desc(k) == pre.desc(k));
        }
    }
}

/// Law: two allocations never overlap. A second allocation is carved out
/// of frames that are still free, and the first allocation's frames are
/// all marked, so the two frame runs are disjoint — a request that could
/// only be met by overlapping the first returns nothing instead.
pub proof fn lemma_allocations_disjoint(
    pre: PageTable,
    mid: PageTable,
    first1: int,
    n1: int,
    first2: int,
    n2: int,
)
    requires
        pre.wf(),
        n1 >= 1,
        n2 >= 1,
        0 <= first1,
        first1 + n1 <= pre.num_pages(),
        pre.run_free(first1, n1),
        PageTable::alloc_marks(pre, mid, first1, n1),
        mid.num_pages() == pre.num_pages(),
        0 <= first2,
        first2 + n2 <= mid.num_pages(),
        mid.run_free(first2, n2),
    ensures
        first2 + n2 <= first1 || first1 + n1 <= first2,
{
    if !(first2 + n2 <= first1 || first1 + n1 <= first2) {
        let k = if first1 >= first2 {
            first1
        } else {
            first2
        };
        assert(first1 <= k < first1 + n1 && first2 <= k < first2 + n2);
        assert(mid.desc(k) == DESC_EMPTY);
        if k < first1 + n1 - 1 {
            assert(mid.desc(k) == DESC_USED);
        } else {
            assert(mid.desc(k) == DESC_USED_LAST);
        }
        assert(false);
    }
}

/// Law: the frame count returned by `pages_needed` always covers the byte
/// range: `pages_needed(a, b) * PAGE_SIZE >= b - a`.
pub proof fn lemma_pages_needed_covers(start: int, end: int, r: int)
    requires
        0 <= start <= end,
        r == (spec_round_up(end, PAGE_SIZE as int) - spec_round_up(start, PAGE_SIZE as int))
            / PAGE_SIZE as int + 1,
    ensures
        r * PAGE_SIZE >= end - start,
{
    let s = spec_round_up(start, 4096);
    let e = spec_round_up(end, 4096);
    assert(s >= start && s < start + 4096 && s % 4096 == 0 && e >= end && e < end + 4096 && e
        % 4096 == 0) by (nonlinear_arith)
        requires
            s == ((start + 4095) / 4096) * 4096,
            e == ((end + 4095) / 4096) * 4096,
            0 <= start,
            0 <= end,
    ;
    assert(s <= e) by (nonlinear_arith)
        requires
            s == ((start + 4095) / 4096) * 4096,
            e == ((end + 4095) / 4096) * 4096,
            start <= end,
    ;
    assert(r * 4096 == e - s + 4096) by (nonlinear_arith)
        requires
            r == (e - s) / 4096 + 1,
            s % 4096 == 0,
            e % 4096 == 0,
            s <= e,
    ;
}

} // verus!

//! ELF64 section-based loading: the header, the section-header table, and
//! the page count an image needs in process memory.

use vstd::prelude::*;

verus! {

use crate::partition::{le32, read_le32};
use crate::ext2::{le16, read_le16};

/// The section carries initialized bytes in the image.
pub const SHT_PROGBITS: u32 = 1;

/// The section occupies memory at run time.
pub const SHF_ALLOC: u64 = 2;

/// The section is writable.
pub const SHF_WRITE: u64 = 1;

/// The section holds instructions.
pub const SHF_EXECINSTR: u64 = 4;

/// Bytes of an ELF64 header.
pub const ELF64_HEADER_SIZE: usize = 64;

/// Bytes of one section header.
pub const SECTION_HEADER_SIZE: usize = 64;

#[derive(PartialEq, Eq, Structural, Clone, Copy, Debug)]
pub enum ElfLoaderError {
    InvalidMagic,
}

/// The little-endian 64-bit number at `off`.
pub open spec fn le64(s: Seq<u8>, off: int) -> int {
    le32(s, off) + 0x1_0000_0000 * le32(s, off + 4)
}

/// Assembles the little-endian 64-bit number at `off`.
pub fn read_le64(data: &Vec<u8>, off: usize) -> (r: u64)
    requires
        off + 8 <= data@.len(),
    ensures
        r == le64(data@, off as int),
{
    let n: usize = data.len();
    let lo: u32 = read_le32(data, off);
    let hi: u32 = read_le32(data, off + 4);
    (lo as u64) + 0x1_0000_0000 * (hi as u64)
}

/// The fields of an ELF64 header this loader reads; the entry point is
/// stored in the image's first word after the identification block.
pub struct Elf64Header {
    pub entry: u32,
    pub phoff: u64,
    pub shoff: u64,
    pub phnum: u16,
    pub shentsize: u16,
    pub shnum: u16,
    pub shstrndx: u16,
}

/// The header decodes from the first bytes of the image.
pub open spec fn header_matches(h: Elf64Header, s: Seq<u8>) -> bool {
    &&& h.entry == le32(s, 24)
    &&& h.phoff == le64(s, 32)
    &&& h.shoff == le64(s, 40)
    &&& h.phnum == le16(s, 56)
    &&& h.shentsize == le16(s, 58)
    &&& h.shnum == le16(s, 60)
    &&& h.shstrndx == le16(s, 62)
}

/// One ELF64 section header.
#[derive(PartialEq, Eq, Structural, Clone, Copy, Debug)]
pub struct Elf64SectionHeader {
    pub name: u32,
    pub section_type: u32,
    pub flags: u64,
    pub addr: u64,
    pub offset: u64,
    pub size: u64,
    pub link: u32,
    pub info: u32,
    pub addralign: u64,
    pub entsize: u64,
}

/// A section header decodes from the bytes at `off`.
pub open spec fn section_matches(h: Elf64SectionHeader, s: Seq<u8>, off: int) -> bool {
    &&& h.name == le32(s, off)
    &&& h.section_type == le32(s, off + 4)
    &&& h.flags == le64(s, off + 8)
    &&& h.addr == le64(s, off + 16)
    &&& h.offset == le64(s, off + 24)
    &&& h.size == le64(s, off + 32)
    &&& h.link == le32(s, off + 40)
    &&& h.info == le32(s, off + 44)
    &&& h.addralign == le64(s, off + 48)
    &&& h.entsize == le64(s, off + 56)
}

/// Walks the image's section-header table.
pub struct SectionIterator {
    pub table_offset: u64,
    pub current_section: u16,
    pub n_sections: u16,
}

impl SectionIterator {
    /// The next section header, parsed from the table, or `None` past the
    /// table's end or when a header would lie outside the image.
    pub fn next(&mut self, image: &Vec<u8>) -> (r: Option<Elf64SectionHeader>)
        ensures
            final(self).table_offset == old(self).table_offset,
            final(self).n_sections == old(self).n_sections,
            old(self).current_section >= old(self).n_sections ==> r is None && *final(self) == *old(
                self,
            ),
            old(self).current_section < old(self).n_sections ==> final(self).current_section == old(
                self,
            ).current_section + 1 && {
                let off = old(self).table_offset + 64 * old(self).current_section;
                if off + 64 <= image@.len() {
                    r is Some && section_matches(r->Some_0, image@, off as int)
                } else {
                    r is None
                }
            },
    {
        if self.current_section >= self.n_sections {
            return None;
        }
        let n: usize = image.len();
        let cur: u64 = self.current_section as u64;
        self.current_section = self.current_section + 1;
        if self.table_offset > n as u64 {
            return None;
        }
        let room: u64 = (n as u64) - self.table_offset;
        if 64 * cur + 64 > room {
            return None;
        }
        let off: usize = (self.table_offset + 64 * cur) as usize;
        Some(
            Elf64SectionHeader {
                name: read_le32(image, off),
                section_type: read_le32(image, off + 4),
                flags: read_le64(image, off + 8),
                addr: read_le64(image, off + 16),
                offset: read_le64(image, off + 24),
                size: read_le64(image, off + 32),
                link: read_le32(image, off + 40),
                info: read_le32(image, off + 44),
                addralign: read_le64(image, off + 48),
                entsize: read_le64(image, off + 56),
            },
        )
    }
}

/// An ELF image and its parsed header.
pub struct ElfLoader {
    pub image: Vec<u8>,
    pub header: Elf64Header,
}

impl ElfLoader {
    /// Parses the image's header after checking the four magic bytes
    /// `0x7F 'E' 'L' 'F'`; a short or foreign image is refused.
    pub fn new(image: Vec<u8>) -> (r: Result<ElfLoader, ElfLoaderError>)
        ensures
            (image@.len() >= 64 && image@[0] == 0x7f && image@[1] == 0x45 && image@[2] == 0x4c
                && image@[3] == 0x46) <==> r is Ok,
            r is Ok ==> r->Ok_0.image@ == image@ && header_matches(r->Ok_0.header, image@),
    {
        let n: usize = image.len();
        if n < 64 {
            return Err(ElfLoaderError::InvalidMagic);
        }
        if !(image[0] == 0x7f && image[1] == 0x45 && image[2] == 0x4c && image[3] == 0x46) {
            return Err(ElfLoaderError::InvalidMagic);
        }
        let header = Elf64Header {
            entry: read_le32(&image, 24),
            phoff: read_le64(&image, 32),
            shoff: read_le64(&image, 40),
            phnum: read_le16(&image, 56),
            shentsize: read_le16(&image, 58),
            shnum: read_le16(&image, 60),
            shstrndx: read_le16(&image, 62),
        };
        Ok(ElfLoader { image, header })
    }

    /// A walk over the image's section-header table, as the header places
    /// it.
    pub fn get_section_iterator(&self) -> (r: SectionIterator)
        ensures
            r.table_offset == self.header.shoff,
            r.current_section == 0,
            r.n_sections == self.header.shnum,
    {
        SectionIterator {
            table_offset: self.header.shoff,
            current_section: 0,
            n_sections: self.header.shnum,
        }
    }

    /// The clean physical pages the sorted sections need: a section opens
    /// a fresh page unless it starts in the page the previous section
    /// ended in, and spans one page per page boundary it crosses.
    pub fn needed_pages(sections: &Vec<Elf64SectionHeader>) -> (r: u64)
        requires
            forall|k: int|
                0 <= k < sections@.len() ==> (#[trigger] sections@[k]).addr + sections@[k].size
                    < 0x40_0000_0000_0000,
            sections@.len() < 0x1_0000,
        ensures
            r == spec_needed_pages(sections@, sections@.len() as int),
    {
        let n: usize = sections.len();
        let mut counter: u64 = 0;
        let mut last_end_page: u64 = 0xFFFF_FFFF_FFFF_FFFF;
        let mut i: usize = 0;
        while i < n
            invariant
                i <= n,
                n == sections@.len(),
                n < 0x1_0000,
                forall|k: int|
                    0 <= k < sections@.len() ==> (#[trigger] sections@[k]).addr + sections@[k].size
                        < 0x40_0000_0000_0000,
                counter == spec_needed_pages(sections@, i as int),
                last_end_page as int == spec_last_end_page(sections@, i as int),
                counter <= i * 0x400_0000_0001,
            decreases n - i,
        {
            let section = &sections[i];
            let section_start_page: u64 = section.addr / 4096;
            let section_end_page: u64 = (section.addr + section.size) / 4096;
            proof {
                assert(section_start_page <= section_end_page && section_end_page
                    <= 0x400_0000_0000) by (nonlinear_arith)
                    requires
                        section_start_page == section.addr as int / 4096,
                        section_end_page == (section.addr + section.size) as int / 4096,
                        0 <= section.addr,
                        0 <= section.size,
                        section.addr + section.size < 0x40_0000_0000_0000,
                ;
            }
            proof {
                vstd::arithmetic::mul::lemma_mul_inequality(i as int, 0xFFFF, 0x400_0000_0001);
                assert(0xFFFFint * 0x400_0000_0001 == 0x3ff_fc00_0000_ffff) by (nonlinear_arith);
                assert(counter <= 0x3ff_fc00_0000_ffff);
            }
            let clean: bool = section_start_page == last_end_page;
            if !clean {
                counter = counter + 1;
            }
            counter = counter + (section_end_page - section_start_page);
            last_end_page = section_end_page;
            proof {
                assert(counter <= (i + 1) * 0x400_0000_0001) by (nonlinear_arith)
                    requires
                        counter <= i * 0x400_0000_0001 + 1 + 0x400_0000_0000,
                        i >= 0,
                ;
            }
            i = i + 1;
        }
        counter
    }
}

/// The section header whose 64 bytes sit at `off` in the image.
pub open spec fn spec_section_at(image: Seq<u8>, off: int) -> Elf64SectionHeader {
    Elf64SectionHeader {
        name: le32(image, off) as u32,
        section_type: le32(image, off + 4) as u32,
        flags: le64(image, off + 8) as u64,
        addr: le64(image, off + 16) as u64,
        offset: le64(image, off + 24) as u64,
        size: le64(image, off + 32) as u64,
        link: le32(image, off + 40) as u32,
        info: le32(image, off + 44) as u32,
        addralign: le64(image, off + 48) as u64,
        entsize: le64(image, off + 56) as u64,
    }
}

/// The sections that occupy memory, among the first `n` headers of the
/// table at `shoff`, in table order.
pub open spec fn spec_alloc_sections(image: Seq<u8>, shoff: int, n: int) -> Seq<Elf64SectionHeader>
    decreases n,
    when 0 <= n
{
    if n == 0 {
        Seq::empty()
    } else {
        let prev = spec_alloc_sections(image, shoff, n - 1);
        let sec = spec_section_at(image, shoff + 64 * (n - 1));
        if sec.flags & SHF_ALLOC != 0 {
            prev.push(sec)
        } else {
            prev
        }
    }
}

/// The page count of the first `i` sorted sections, as `needed_pages`
/// walks them: a fresh page unless the section starts where the previous
/// ended, plus the page boundaries the section crosses.
pub open spec fn spec_needed_pages(s: Seq<Elf64SectionHeader>, i: int) -> int
    decreases i,
    when 0 <= i
{
    if i == 0 {
        0
    } else {
        let sec = s[i - 1];
        let start_page = sec.addr as int / 4096;
        let end_page = (sec.addr + sec.size) as int / 4096;
        spec_needed_pages(s, i - 1) + (if start_page == spec_last_end_page(s, i - 1) {
            0int
        } else {
            1int
        }) + (end_page - start_page)
    }
}

/// The page the `i`-th prefix of the sections ends in; before the first
/// section, a sentinel no section starts at.
pub open spec fn spec_last_end_page(s: Seq<Elf64SectionHeader>, i: int) -> int
    decreases i,
    when 0 <= i
{
    if i == 0 {
        0xFFFF_FFFF_FFFF_FFFF
    } else {
        (s[i - 1].addr + s[i - 1].size) as int / 4096
    }
}

} // verus!

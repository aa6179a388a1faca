use barba_os::elf::{ElfLoader, ElfLoaderError};
use barba_os::map_table::{EntryBits, KernelLayout, MapTable, SATP_MODE_SV39};
use barba_os::page_alloc::{PageTable, DESC_EMPTY, DESC_USED, DESC_USED_LAST};
use barba_os::process::{Process, STACK_ADDR};

fn heap_with_frames(frames: u64) -> PageTable {
    // One descriptor per frame; the reserved descriptor region is tiny for
    // these sizes, so every frame is reachable by the allocator's scan.
    let mut pt = PageTable::new(0x8000_0000, frames * 4096);
    pt.init();
    pt
}

#[test]
fn pfa_boundary_full_heap() {
    // Exactly 64 frames: a 64-frame allocation fills the heap, one more
    // frame is refused, and after freeing the run it fits again.
    let mut pt = heap_with_frames(64);
    let first = pt.allocate(64).expect("64 frames fit");
    assert!(pt.allocate(1).is_none());
    pt.dealloc(first);
    let again = pt.allocate(64).expect("64 frames fit again");
    assert_eq!(first, again);
}

#[test]
fn pfa_descriptor_bytes() {
    let mut pt = heap_with_frames(16);
    // the first allocation of a fresh heap starts at frame 0
    let _addr = pt.allocate(3).expect("3 frames fit");
    assert_eq!(pt.descriptors[0].bits, DESC_USED);
    assert_eq!(pt.descriptors[1].bits, DESC_USED);
    assert_eq!(pt.descriptors[2].bits, DESC_USED_LAST);
    assert_eq!(pt.descriptors[3].bits, DESC_EMPTY);
}

#[test]
fn pfa_alloc_dealloc_restores_descriptors() {
    let mut pt = heap_with_frames(16);
    let before: Vec<u8> = pt.descriptors.iter().map(|p| p.bits).collect();
    let addr = pt.allocate(5).expect("5 frames fit");
    pt.dealloc(addr);
    let after: Vec<u8> = pt.descriptors.iter().map(|p| p.bits).collect();
    assert_eq!(before, after);
}

#[test]
fn pfa_allocations_do_not_overlap() {
    let mut pt = heap_with_frames(16);
    let a = pt.allocate(4).expect("fits");
    let b = pt.allocate(4).expect("fits");
    assert!(b >= a + 4 * 4096 || a >= b + 4 * 4096);
}

#[test]
fn pages_needed_covers_range() {
    assert_eq!(PageTable::pages_needed(0, 1), 2);
    assert_eq!(PageTable::pages_needed(0, 4096), 2);
    assert_eq!(PageTable::pages_needed(4096, 4096), 1);
    assert_eq!(PageTable::pages_needed(100, 8292), 3);
    for (a, b) in [(0u64, 1u64), (5, 9000), (4096, 4096), (12345, 99999)] {
        let n = PageTable::pages_needed(a, b);
        assert!(n * 4096 >= b - a);
    }
}

#[test]
fn pfa_zalloc_and_heap_len() {
    let mut pt = heap_with_frames(8);
    assert_eq!(pt.get_heap_pages_len(), 8);
    assert!(pt.zalloc(2).is_some());
}

#[test]
fn pfa_allocation_table_summary() {
    let mut pt = heap_with_frames(16);
    let a = pt.allocate(3).expect("fits");
    let _b = pt.allocate(2).expect("fits");
    let (total, runs) = pt.allocation_runs();
    assert_eq!(total, 5);
    assert_eq!(runs.len(), 2);
    assert_eq!(runs[0], (a, a + 3 * 4096 - 1, 3));
}

#[test]
fn map_table_identity_page() {
    // map(0x1337000, 0x1337000, R, 0): the whole page translates to
    // itself, the next page does not, and unmap clears everything.
    let mut mt = MapTable::new(0x10_0000);
    mt.map(0x1337000, 0x1337000, EntryBits::Read.val(), 0);
    assert_eq!(mt.virt_to_phys(0x1337000), Some(0x1337000));
    assert_eq!(mt.virt_to_phys(0x1337FFF), Some(0x1337FFF));
    assert_eq!(mt.virt_to_phys(0x1338000), None);
    mt.unmap();
    assert_eq!(mt.virt_to_phys(0x1337000), None);
    assert_eq!(mt.virt_to_phys(0x1337FFF), None);
    assert_eq!(mt.virt_to_phys(0x1338000), None);
}

#[test]
fn map_then_translate_is_right_inverse() {
    let mut mt = MapTable::new(0x10_0000);
    mt.map(0x4000_0000, 0x8040_0000, EntryBits::ReadWrite.val(), 0);
    for k in [0u64, 1, 8, 4095] {
        assert_eq!(mt.virt_to_phys(0x4000_0000 + k), Some(0x8040_0000 + k));
    }
    assert_eq!(mt.virt_to_phys(0x3FFF_FFFF), None);
}

#[test]
fn map_unmapped_address_is_none() {
    let mt = MapTable::new(0x10_0000);
    assert_eq!(mt.virt_to_phys(0), None);
    assert_eq!(mt.virt_to_phys(0x1337000), None);
    assert_eq!(mt.virt_to_phys(u64::MAX), None);
}

#[test]
fn range_map_identity_maps_every_page() {
    let mut mt = MapTable::new(0x10_0000);
    mt.range_map(0x8000_0100, 0x8000_3000, EntryBits::ReadWrite.val());
    for va in [0x8000_0000u64, 0x8000_0100, 0x8000_1234, 0x8000_2FFF] {
        assert_eq!(mt.virt_to_phys(va), Some(va));
    }
}

#[test]
fn satp_encodes_mode_asid_and_root() {
    let mt = MapTable::new(0x80_4000);
    assert_eq!(mt.get_initial_satp(1), SATP_MODE_SV39 + (1 << 44) + 0x80_4000 / 4096);
}

#[test]
fn init_map_covers_kernel_regions() {
    let layout = KernelLayout {
        text_start: 0x8000_0000,
        text_end: 0x8000_4000,
        rodata_start: 0x8000_4000,
        rodata_end: 0x8000_5000,
        data_start: 0x8000_5000,
        data_end: 0x8000_6000,
        bss_start: 0x8000_6000,
        bss_end: 0x8000_8000,
        kernel_stack_start: 0x8000_8000,
        kernel_stack_end: 0x8001_0000,
        heap_start: 0x8100_0000,
        heap_pages: 16,
    };
    let mut mt = MapTable::new(0x10_0000);
    mt.init_map(&layout);
    for va in [
        0x8000_0000u64,
        0x8000_3FFF,
        0x8000_4800,
        0x8000_7000,
        0x8000_9000,
        0x8100_0000,
        0x0200_bff8,
        0x0200_4000,
        0x0010_0000,
        0x1000_0000,
        0x10_0000,
        0x0C00_0000,
        0x0C20_0004,
    ] {
        assert_eq!(mt.virt_to_phys(va), Some(va), "identity map for {va:#x}");
    }
}

#[test]
fn process_create_maps_stack() {
    let mut pt = heap_with_frames(64);
    let p = Process::create(&mut pt, 7).expect("heap has room");
    assert_eq!(p.pid, 7);
    assert_eq!(p.frame.regs[2], STACK_ADDR + 2 * 4096 - 8);
    assert_eq!(p.root.virt_to_phys(STACK_ADDR), Some(p.stack));
    assert_eq!(p.root.virt_to_phys(STACK_ADDR + 8191), Some(p.stack + 8191));
    assert_eq!(p.root.virt_to_phys(STACK_ADDR + 8192), None);
    assert_eq!(p.frame.satp, SATP_MODE_SV39 + (7u64 << 44) + p.root.base / 4096);
}

#[test]
fn process_destroy_returns_frames() {
    let mut pt = heap_with_frames(64);
    let before: Vec<u8> = pt.descriptors.iter().map(|p| p.bits).collect();
    let p = Process::create(&mut pt, 3).expect("heap has room");
    p.destroy(&mut pt);
    let after: Vec<u8> = pt.descriptors.iter().map(|p| p.bits).collect();
    assert_eq!(before, after);
}

#[test]
fn loaded_process_destroy_returns_frames() {
    let image = tiny_elf();
    let loader = ElfLoader::new(image).expect("valid magic");
    let mut pt = heap_with_frames(64);
    let before: Vec<u8> = pt.descriptors.iter().map(|p| p.bits).collect();
    let p = loader.into_process(&mut pt, 1).expect("image loads");
    p.destroy(&mut pt);
    let after: Vec<u8> = pt.descriptors.iter().map(|p| p.bits).collect();
    assert_eq!(before, after);
}

/// A minimal ELF image: one loadable PROGBITS section of 8 bytes at
/// virtual address 0x10000, its bytes at image offset 128.
fn tiny_elf() -> Vec<u8> {
    let mut image = vec![0u8; 256];
    image[0] = 0x7f;
    image[1] = b'E';
    image[2] = b'L';
    image[3] = b'F';
    image[24..28].copy_from_slice(&0x10000u32.to_le_bytes());
    image[40..48].copy_from_slice(&192u64.to_le_bytes());
    image[60..62].copy_from_slice(&1u16.to_le_bytes());
    // one section header at offset 192
    image[192 + 4..192 + 8].copy_from_slice(&1u32.to_le_bytes()); // PROGBITS
    image[192 + 8..192 + 16].copy_from_slice(&6u64.to_le_bytes()); // ALLOC | WRITE
    image[192 + 16..192 + 24].copy_from_slice(&0x10000u64.to_le_bytes());
    image[192 + 24..192 + 32].copy_from_slice(&128u64.to_le_bytes());
    image[192 + 32..192 + 40].copy_from_slice(&8u64.to_le_bytes());
    image[128..136].copy_from_slice(b"ABCDEFGH");
    image
}

#[test]
fn elf_loader_rejects_bad_magic() {
    let mut image = tiny_elf();
    image[1] = b'X';
    assert_eq!(ElfLoader::new(image).err(), Some(ElfLoaderError::InvalidMagic));
    assert_eq!(ElfLoader::new(vec![0u8; 10]).err(), Some(ElfLoaderError::InvalidMagic));
}

#[test]
fn elf_load_and_read_back_through_translation() {
    // Load the image, then read every PROGBITS byte back through the
    // process's address translation: the bytes must reproduce the image.
    let image = tiny_elf();
    let loader = ElfLoader::new(image.clone()).expect("valid magic");
    let mut pt = heap_with_frames(64);
    let p = loader.into_process(&mut pt, 1).expect("image loads");
    assert_eq!(p.program_counter, 0x10000);
    for b in 0..8u64 {
        let pa = p.root.virt_to_phys(0x10000 + b).expect("mapped");
        let byte = p.image_pages[(pa - p.image_pages_addr) as usize];
        assert_eq!(byte, image[128 + b as usize]);
    }
}

use barba_os::error::IoError;
use barba_os::ext2::{DataBlock, Ext2Filetype, LinuxPartition, Superblock};
use barba_os::virtio::DeviceError;
use barba_os::ext2_driver::Ext2FilesystemDriver;
use barba_os::partition::{PartitionTable, PartitionType};
use barba_os::vfs::{FilesystemDriver, FilesystemType, MountPoint, VirtualFilesystem};

fn mbr_sector() -> Vec<u8> {
    let mut s = vec![0u8; 512];
    s[0x1FE] = 0x55;
    s[0x1FF] = 0xAA;
    // entry 1 at 0x1BE: type 0x83 (Linux), LBA 0x800, 0x100000 sectors
    s[0x1BE + 4] = 0x83;
    s[0x1BE + 8..0x1BE + 12].copy_from_slice(&0x800u32.to_le_bytes());
    s[0x1BE + 12..0x1BE + 16].copy_from_slice(&0x0010_0000u32.to_le_bytes());
    s
}

#[test]
fn mbr_signature() {
    let table = PartitionTable::new(mbr_sector());
    assert!(table.is_mbr());
    let mut bad = mbr_sector();
    bad[0x1FE] = 0x54;
    assert!(!PartitionTable::new(bad).is_mbr());
    let mut bad2 = mbr_sector();
    bad2[0x1FF] = 0;
    assert!(!PartitionTable::new(bad2).is_mbr());
}

#[test]
fn mbr_partition_entry() {
    let table = PartitionTable::new(mbr_sector());
    let info = table.get_partition_info(1);
    assert_eq!(info.partition_type, PartitionType::Linux);
    assert_eq!(info.initial_sector, 2048);
    assert_eq!(info.size, 0x0010_0000);
    assert!(!info.booteable);
    let empty = table.get_partition_info(2);
    assert_eq!(empty.partition_type, PartitionType::Free);
}

#[test]
fn partition_type_from_byte() {
    assert_eq!(PartitionType::from(0u8), PartitionType::Free);
    assert_eq!(PartitionType::from(0x83u8), PartitionType::Linux);
    assert_eq!(PartitionType::from(7u8), PartitionType::Unsupported);
}

fn put32(d: &mut [u8], off: usize, v: u32) {
    d[off..off + 4].copy_from_slice(&v.to_le_bytes());
}

fn put16(d: &mut [u8], off: usize, v: u16) {
    d[off..off + 2].copy_from_slice(&v.to_le_bytes());
}

/// A small EXT2 image with 1 KiB blocks holding `/boot/hello.md`, a
/// 13-byte file reading "Hello world!\n". The partition starts at
/// sector 0, so the superblock sits at byte 1024.
fn tiny_ext2_disk() -> Vec<u8> {
    let mut d = vec![0u8; 16384];
    // boot sector: a Linux partition at sector 0
    d[0x1FE] = 0x55;
    d[0x1FF] = 0xAA;
    d[0x1BE + 4] = 0x83;
    put32(&mut d, 0x1BE + 8, 0);
    // superblock at 1024: block size 1024, 16 inodes per group, 128-byte inodes
    put32(&mut d, 1024 + 24, 0); // s_log_block_size
    put32(&mut d, 1024 + 40, 16); // s_inodes_per_group
    put16(&mut d, 1024 + 88, 128); // s_inode_size
    // group descriptor at 2048: inode table at block 5
    put32(&mut d, 2048 + 8, 5);
    // the inode table sits at byte 5 * 1024 = 5120; inode i at 5120 + (i-1)*128
    // inode 2 (root directory): one direct block, block 10
    put32(&mut d, 5120 + 128 + 4, 1024); // i_size
    put32(&mut d, 5120 + 128 + 40, 10); // i_block[0]
    // inode 12 (directory "boot"): one direct block, block 11
    put32(&mut d, 5120 + 11 * 128 + 4, 1024);
    put32(&mut d, 5120 + 11 * 128 + 40, 11);
    // inode 13 (file "hello.md"): 13 bytes in block 12
    put32(&mut d, 5120 + 12 * 128 + 4, 13);
    put32(&mut d, 5120 + 12 * 128 + 40, 12);
    // block 10 at byte 10240: root directory: "boot" -> inode 12
    put32(&mut d, 10240, 12);
    put16(&mut d, 10240 + 4, 16); // rec_len
    d[10240 + 6] = 4; // name_len
    d[10240 + 7] = 2; // directory
    d[10240 + 8..10240 + 12].copy_from_slice(b"boot");
    // block 11 at byte 11264: "boot" directory: "hello.md" -> inode 13
    put32(&mut d, 11264, 13);
    put16(&mut d, 11264 + 4, 20);
    d[11264 + 6] = 8;
    d[11264 + 7] = 1; // regular file
    d[11264 + 8..11264 + 16].copy_from_slice(b"hello.md");
    // block 12 at byte 12288: the file's bytes
    d[12288..12288 + 13].copy_from_slice(b"Hello world!\n");
    d
}

#[test]
fn ext2_superblock_and_block_size() {
    let p = LinuxPartition::new(tiny_ext2_disk(), 0).expect("superblock parses");
    assert_eq!(p.get_block_size(), 1024);
    assert_eq!(p.superblock.s_inodes_per_group, 16);
    assert_eq!(p.superblock.s_inode_size, 128);
}

#[test]
fn ext2_short_disk_is_refused() {
    assert_eq!(
        LinuxPartition::new(vec![0u8; 100], 0).err(),
        Some(DeviceError::InitializationError)
    );
}

#[test]
fn ext2_block_size_formula() {
    for (log, size) in [(0u32, 1024u64), (1, 2048), (2, 4096), (3, 8192)] {
        let sb = Superblock {
            s_inodes_count: 0,
            s_blocks_count_lo: 0,
            s_free_blocks_count_lo: 0,
            s_free_inodes_count: 0,
            s_first_data_block: 0,
            s_log_block_size: log,
            s_blocks_per_group: 0,
            s_inodes_per_group: 16,
            s_magic: 0,
            s_inode_size: 128,
        };
        assert_eq!(sb.get_block_size(), size);
    }
}

#[test]
fn disk_without_linux_partition_has_no_filesystem() {
    let mut disk = tiny_ext2_disk();
    disk[0x1BE + 4] = 0; // no Linux entry in the table
    let driver = Ext2FilesystemDriver::new(disk, 0);
    assert_eq!(driver.get_partition().err(), Some(IoError::FileNotExists));
}

#[test]
fn ext2_root_listing_resolves_file() {
    // /boot/hello.md resolves to an inode of 13 bytes whose blocks,
    // trimmed to the size, read "Hello world!\n".
    let disk = tiny_ext2_disk();
    let driver = Ext2FilesystemDriver::new(disk, 0);
    let path = vec![b"boot".to_vec(), b"hello.md".to_vec()];
    let inode = driver.get_inode(&path).expect("path resolves");
    assert_eq!(inode.i_size, 13);
    let partition = driver.get_partition().expect("partition mounts");
    let contents = partition.read_file(&inode).expect("file reads");
    assert_eq!(contents, b"Hello world!\n".to_vec());
}

#[test]
fn ext2_missing_entry_fails() {
    let driver = Ext2FilesystemDriver::new(tiny_ext2_disk(), 0);
    let path = vec![b"boot".to_vec(), b"missing".to_vec()];
    assert_eq!(
        driver.get_inode(&path).err(),
        Some(IoError::DeviceError(DeviceError::EntryNotFound))
    );
}

#[test]
fn ext2_file_block_count_matches_size() {
    // A 13-byte file with a 1 KiB block size spans one block.
    let disk = tiny_ext2_disk();
    let p = LinuxPartition::new(disk, 0).expect("mounts");
    let inode = p.read_inode(13).expect("inode reads");
    let mut it = p.get_inode_block_iterator(inode);
    let mut blocks = 0;
    while let Some(_) = it.next_block(&p) {
        blocks += 1;
    }
    assert_eq!(blocks, 1);
}

#[test]
fn directory_iteration_stops_at_zero_record() {
    let block = DataBlock { data: vec![0u8; 64] };
    let mut it = block.iter_directories();
    assert!(it.next(&block).is_none());
}

#[test]
fn directory_iteration_never_passes_block_end() {
    let mut data = vec![0u8; 32];
    // one record claiming to run past the block's end
    put32(&mut data, 0, 9);
    put16(&mut data, 4, 64);
    data[6] = 1;
    let block = DataBlock { data };
    let mut it = block.iter_directories();
    assert!(it.next(&block).is_none());
    assert_eq!(it.offset, 0);
}

#[test]
fn directory_entry_filetype() {
    let disk = tiny_ext2_disk();
    let p = LinuxPartition::new(disk, 0).expect("mounts");
    let root = p.read_root().expect("root inode");
    let block = p.read_datablock(10).expect("root block");
    let mut it = block.iter_directories();
    let (entry, name) = it.next(&block).expect("one record");
    assert_eq!(name, b"boot".to_vec());
    assert_eq!(entry.filetype(), Ext2Filetype::Dir);
    assert_eq!(entry.inode, 12);
    assert_eq!(root.i_size, 1024);
}

#[test]
fn vfs_longest_prefix_lookup() {
    let mut vfs = VirtualFilesystem::new();
    vfs.push_mount_point(MountPoint {
        path: b"/boot".to_vec(),
        fs_type: FilesystemType::Ext3 { device_id: 0, partition_id: 1 },
    });
    vfs.push_mount_point(MountPoint {
        path: b"/".to_vec(),
        fs_type: FilesystemType::Ext3 { device_id: 0, partition_id: 0 },
    });
    let hit = vfs.get_mount_point(&b"/boot/hello.md".to_vec()).expect("covered");
    assert_eq!(vfs.mount_points[hit].path, b"/boot".to_vec());
    let root_hit = vfs.get_mount_point(&b"/etc/passwd".to_vec()).expect("covered");
    assert_eq!(vfs.mount_points[root_hit].path, b"/".to_vec());
    assert!(vfs.get_mount_point(&b"nope".to_vec()).is_none());
}

#[test]
fn vfs_open_through_driver() {
    let driver = Ext2FilesystemDriver::new(tiny_ext2_disk(), 0);
    let path = vec![b"boot".to_vec(), b"hello.md".to_vec()];
    let fd = driver.open(&path).expect("opens");
    assert_eq!(fd.file_pos, 0);
    assert!(!fd.eof_flag);
    assert_eq!(fd.path, path);
}

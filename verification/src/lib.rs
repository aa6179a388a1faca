//! A verified model of the privilege-and-memory substrate of a small
//! RISC-V teaching kernel: the physical page-frame allocator, the Sv39
//! map table, trap and syscall dispatch, the Virtio block-device queue
//! bookkeeping, the MBR partition table and the read-only EXT2 path.
//!
//! Hardware state (descriptor bytes, page tables, disk sectors) is held
//! as plain values, so every rule the kernel applies to that state is
//! stated in a contract and proved.

pub mod error;
pub mod ext2;
pub mod elf;
pub mod ext2_driver;
pub mod map_table;
pub mod page_alloc;
pub mod partition;
pub mod plic;
pub mod process;
pub mod syscall;
pub mod trap;
pub mod vfs;
pub mod virtio;

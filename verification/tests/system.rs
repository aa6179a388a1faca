use barba_os::map_table::{EntryBits, MapTable, SIFIVE_TEST_ADDRESS};
use barba_os::plic;
use barba_os::syscall::{
    execute_syscall, user_write_bytes, Syscall, SyscallAction, REBOOT_MAGIC_1, REBOOT_MAGIC_2,
    SHUTDOWN_CODE, SYS_REBOOT, SYS_WRITE,
};
use barba_os::trap::{m_trap_handler, schedule_mtime_interrupt, trap_is_fatal, TrapAction, TrapFrame};
use barba_os::error::IoError;
use barba_os::virtio::{
    split_queue_padding, BlockDevice, BlockRequest, DeviceAddress, DeviceBuilder, DeviceError,
    VIRTIO_MAGIC,
};

const ASYNC_BIT: u64 = 0x8000_0000_0000_0000;

#[test]
fn trap_dispatch_async_codes() {
    assert_eq!(
        m_trap_handler(0x100, 0, ASYNC_BIT | 3, 0),
        (0x100, TrapAction::LogSoftwareInterrupt)
    );
    assert_eq!(m_trap_handler(0x100, 0, ASYNC_BIT | 7, 0), (0x100, TrapAction::RearmTimer));
    assert_eq!(m_trap_handler(0x100, 0, ASYNC_BIT | 11, 0), (0x100, TrapAction::ClaimExternal));
}

#[test]
fn trap_dispatch_sync_codes_step_past() {
    assert_eq!(m_trap_handler(0x100, 0, 8, 0), (0x104, TrapAction::Syscall));
    assert_eq!(m_trap_handler(0x100, 0, 9, 0), (0x104, TrapAction::LogSupervisorCall));
    assert_eq!(m_trap_handler(0x100, 0, 13, 0), (0x104, TrapAction::LogLoadPageFault));
    assert_eq!(m_trap_handler(0x100, 0, 15, 0), (0x104, TrapAction::LogStorePageFault));
}

#[test]
fn trap_fatal_causes() {
    for code in [1u64, 2, 5, 7, 11, 12, 14] {
        assert!(trap_is_fatal(code), "sync cause {code} is fatal");
    }
    for code in [8u64, 9, 13, 15] {
        assert!(!trap_is_fatal(code));
    }
    assert!(!trap_is_fatal(ASYNC_BIT | 3));
    assert!(!trap_is_fatal(ASYNC_BIT | 7));
    assert!(!trap_is_fatal(ASYNC_BIT | 11));
    assert!(trap_is_fatal(ASYNC_BIT | 5));
}

#[test]
fn timer_rearm_value() {
    assert_eq!(schedule_mtime_interrupt(1000, 0), 10_000_000);
    assert_eq!(schedule_mtime_interrupt(1000, 500), 10_000_500);
    // the counter wraps like the hardware register
    assert_eq!(schedule_mtime_interrupt(1, u64::MAX), 9_999);
}

#[test]
fn trap_frame_init() {
    let mt = MapTable::new(0x20_0000);
    let mut frame = TrapFrame::new();
    assert_eq!(frame.regs[0], 0);
    frame.init(&mt, 0x8050_0000);
    assert_eq!(frame.trap_stack, 0x8050_1000);
    assert_eq!(frame.satp, mt.get_initial_satp(0));
}

#[test]
fn plic_register_math() {
    assert_eq!(plic::enable(0, 10), 1 << 10);
    assert_eq!(plic::enable(0b100, 0), 0b101);
    assert_eq!(plic::priority_register(10), 0x0C00_0000 + 40);
    assert_eq!(plic::set_priority(9), 1);
    assert_eq!(plic::set_threshold(0xFF), 7);
    assert_eq!(plic::next_interrupt(0), None);
    assert_eq!(plic::next_interrupt(10), Some(10));
    assert_eq!(plic::complete(10), 10);
    assert_eq!(plic::plic_window_end(), 0x0C20_0008);
}

fn frame_with_call(a0: u64, a1: u64, a2: u64, a3: u64) -> TrapFrame {
    let mut frame = TrapFrame::new();
    frame.regs[10] = a0;
    frame.regs[11] = a1;
    frame.regs[12] = a2;
    frame.regs[13] = a3;
    frame
}

#[test]
fn syscall_write_emits_exact_bytes() {
    // A user buffer holding "Hi" at virtual 0x5000_0040: the dispatcher
    // translates the pointer and orders exactly the bytes H, i, in order.
    let mut mt = MapTable::new(0x40_0000);
    mt.map(0x5000_0000, 0x8020_0000, EntryBits::UserReadWrite.val(), 0);
    let frame = frame_with_call(SYS_WRITE, 1, 0x5000_0040, 2);
    let action = execute_syscall(&frame, &mt).expect("write decodes");
    let (phys_addr, len) = match action {
        SyscallAction::Write { phys_addr, len } => (phys_addr, len),
        other => panic!("expected a write order, got {other:?}"),
    };
    assert_eq!(phys_addr, 0x8020_0040);
    assert_eq!(len, 2);
    // physical memory modeled from address 0x8020_0000
    let mut mem = vec![0u8; 0x100];
    mem[0x40] = b'H';
    mem[0x41] = b'i';
    let emitted = user_write_bytes(&mem, (phys_addr - 0x8020_0000) as usize, len as usize);
    assert_eq!(emitted, b"Hi".to_vec());
}

#[test]
fn syscall_write_with_unmapped_buffer_is_refused() {
    let mt = MapTable::new(0x40_0000);
    let frame = frame_with_call(SYS_WRITE, 1, 0x5000_0040, 2);
    assert!(execute_syscall(&frame, &mt).is_none());
}

#[test]
fn syscall_reboot_magic() {
    let mt = MapTable::new(0x40_0000);
    let frame = frame_with_call(SYS_REBOOT, REBOOT_MAGIC_1, REBOOT_MAGIC_2, 0);
    assert_eq!(execute_syscall(&frame, &mt), Some(SyscallAction::Shutdown));
    // the shutdown order means storing 0x5555 to the test device
    assert_eq!(SIFIVE_TEST_ADDRESS, 0x0010_0000);
    assert_eq!(SHUTDOWN_CODE, 0x5555);
}

#[test]
fn syscall_reboot_wrong_magic_is_ignored() {
    let mt = MapTable::new(0x40_0000);
    let frame = frame_with_call(SYS_REBOOT, REBOOT_MAGIC_1, 0xDEAD_BEEF, 0);
    assert_eq!(execute_syscall(&frame, &mt), Some(SyscallAction::Ignore));
}

#[test]
fn syscall_unknown_code_is_refused() {
    let mt = MapTable::new(0x40_0000);
    let frame = frame_with_call(99, 0, 0, 0);
    assert!(execute_syscall(&frame, &mt).is_none());
}

#[test]
fn syscall_register_encoding() {
    let w = Syscall::Write { fd: 1, buf: 0x5000, n_bytes: 2 };
    assert_eq!(w.registers(), [SYS_WRITE, 1, 0x5000, 2]);
    let r = Syscall::Reboot { magic1: REBOOT_MAGIC_1, magic2: REBOOT_MAGIC_2, poweroff: true };
    assert_eq!(r.registers(), [SYS_REBOOT, REBOOT_MAGIC_1, REBOOT_MAGIC_2, 1]);
}

#[test]
fn virtio_probe_decisions() {
    let bad = DeviceBuilder::new(0x1000_1000, 0, 1, 2, 0, 0x0F);
    assert!(!bad.valid());
    assert!(matches!(bad.init_driver(), Err(DeviceError::InvalidDevice)));
    let wrong_id = DeviceBuilder::new(0x1000_1000, VIRTIO_MAGIC, 1, 3, 0, 0x0F);
    assert!(matches!(wrong_id.init_driver(), Err(DeviceError::UnsupportedDevice(3))));
    let no_features = DeviceBuilder::new(0x1000_1000, VIRTIO_MAGIC, 1, 2, 0, 0x07);
    assert!(matches!(no_features.init_driver(), Err(DeviceError::InitializationError)));
    let good = DeviceBuilder::new(0x1000_1000, VIRTIO_MAGIC, 1, 2, 0xFF, 0x0F);
    let device = good.init_driver().expect("block device accepted");
    // the read-only feature bit is cleared during negotiation
    assert_eq!(device.guest_features, 0xFF & !0x20);
    assert_eq!(device.driver_idx, 0);
}

#[test]
fn virtio_request_chains_three_descriptors() {
    let address = DeviceAddress::new(0x1000_1000);
    let mut device = BlockDevice::new(address, 0, 0x0F).expect("negotiates");
    let request = device.new_request(0x8100_0000, 512, 1024, false, 0x8200_0000, 0x8200_0010);
    assert_eq!(request.sector, 2);
    assert_eq!(request.req_type, 0); // a read
    assert_eq!(request.status, 0x7F);
    assert!(!request.is_finished());
    let d0 = &device.queue.descriptor_table[0];
    assert_eq!((d0.addr, d0.len, d0.flags, d0.next), (0x8200_0000, 16, 1, 1));
    let d1 = &device.queue.descriptor_table[1];
    assert_eq!((d1.addr, d1.len, d1.flags, d1.next), (0x8100_0000, 512, 3, 2));
    let d2 = &device.queue.descriptor_table[2];
    assert_eq!((d2.addr, d2.len, d2.flags, d2.next), (0x8200_0010, 1, 2, 0));
    assert_eq!(device.driver_idx, 3);
    assert_eq!(device.queue.available.ring[0], 0);
    assert_eq!(device.queue.available.idx, 1);
}

#[test]
fn virtio_write_request_direction() {
    let address = DeviceAddress::new(0x1000_1000);
    let mut device = BlockDevice::new(address, 0, 0x0F).expect("negotiates");
    let request = device.new_request(0x8100_0000, 512, 0, true, 0x8200_0000, 0x8200_0010);
    assert_eq!(request.req_type, 1); // a write
    // the device must not write the data buffer of a write request
    assert_eq!(device.queue.descriptor_table[1].flags, 1);
}

#[test]
fn virtio_completion_is_the_status_byte() {
    let mut request = BlockRequest::new(0x8100_0000, 0, false);
    assert!(!request.is_finished());
    request.status = 0;
    assert!(request.is_finished());
}

#[test]
fn virtio_queue_padding() {
    assert_eq!(split_queue_padding(), (16 * 128 - 262) % 4096);
}

#[test]
fn io_error_from_device_error() {
    let e: IoError = DeviceError::EntryNotFound.into();
    assert_eq!(e, IoError::DeviceError(DeviceError::EntryNotFound));
}

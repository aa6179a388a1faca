//! The system-call ABI: how user code loads the argument registers, and
//! how the kernel decodes a trapped environment call.
//!
//! The dispatcher reads `a0` (register 10) as the call number and
//! `a1..a3` as arguments. `write` translates the user's buffer pointer
//! through the calling process's map table and hands back the physical
//! range to emit; `reboot` checks the two magic words and orders the
//! shutdown write; everything else is refused.

use vstd::prelude::*;

verus! {

use crate::map_table::MapTable;
use crate::trap::TrapFrame;

pub const SYS_WRITE: u64 = 1;

pub const SYS_REBOOT: u64 = 48;

pub const REBOOT_MAGIC_1: u64 = 0x13011990;

pub const REBOOT_MAGIC_2: u64 = 0xCACAFEAA;

/// The word that halts the machine when stored to the test device.
pub const SHUTDOWN_CODE: u32 = 0x5555;

/// A system call as user code issues it.
pub enum Syscall {
    Write { fd: u64, buf: u64, n_bytes: u64 },
    Reboot { magic1: u64, magic2: u64, poweroff: bool },
}

impl Syscall {
    /// The values of `a0..a3` for this call: the call number and its
    /// arguments, as the `ecall` stub loads them.
    pub fn registers(&self) -> (r: [u64; 4])
        ensures
            r@ == (match self {
                Syscall::Write { fd, buf, n_bytes } => seq![SYS_WRITE, *fd, *buf, *n_bytes],
                Syscall::Reboot { magic1, magic2, poweroff } => seq![
                    SYS_REBOOT,
                    *magic1,
                    *magic2,
                    if *poweroff {
                        1u64
                    } else {
                        0u64
                    },
                ],
            }),
    {
        let r: [u64; 4] = match self {
            Syscall::Write { fd, buf, n_bytes } => [SYS_WRITE, *fd, *buf, *n_bytes],
            Syscall::Reboot { magic1, magic2, poweroff } => [
                SYS_REBOOT,
                *magic1,
                *magic2,
                if *poweroff {
                    1u64
                } else {
                    0u64
                },
            ],
        };
        proof {
            assert(r@ =~= (match self {
                Syscall::Write { fd, buf, n_bytes } => seq![SYS_WRITE, *fd, *buf, *n_bytes],
                Syscall::Reboot { magic1, magic2, poweroff } => seq![
                    SYS_REBOOT,
                    *magic1,
                    *magic2,
                    if *poweroff {
                        1u64
                    } else {
                        0u64
                    },
                ],
            }));
        }
        r
    }
}

/// What servicing a system call asks of the machine.
#[derive(PartialEq, Eq, Structural, Clone, Copy, Debug)]
pub enum SyscallAction {
    /// Emit `len` bytes starting at the physical address to the UART.
    Write { phys_addr: u64, len: u64 },
    /// Store `SHUTDOWN_CODE` to the test device.
    Shutdown,
    /// A reboot call whose magic words did not match: do nothing.
    Ignore,
}

/// Decodes the environment call saved in `frame` against the calling
/// process's map table.
///
/// A `write` whose buffer pointer translates yields the physical range to
/// emit; one whose pointer does not translate yields `None`, as does an
/// unknown call number — both are fatal in the kernel, which has no error
/// path back to the user. A `reboot` yields the shutdown order exactly
/// when both magic words match.
pub fn execute_syscall(frame: &TrapFrame, table: &MapTable) -> (r: Option<SyscallAction>)
    requires
        table.wf(),
    ensures
        frame.regs@[10] == SYS_WRITE ==> r == (match table.translate(frame.regs@[12]) {
            Some(pa) => Some(SyscallAction::Write { phys_addr: pa as u64, len: frame.regs@[13] }),
            None => Option::<SyscallAction>::None,
        }),
        frame.regs@[10] == SYS_REBOOT ==> r == Some(
            if frame.regs@[11] == REBOOT_MAGIC_1 && frame.regs@[12] == REBOOT_MAGIC_2 {
                SyscallAction::Shutdown
            } else {
                SyscallAction::Ignore
            },
        ),
        frame.regs@[10] != SYS_WRITE && frame.regs@[10] != SYS_REBOOT ==> r is None,
{
    let code: u64 = frame.regs[10];
    if code == SYS_WRITE {
        let buf_virt_ptr: u64 = frame.regs[12];
        let buf_size: u64 = frame.regs[13];
        match table.virt_to_phys(buf_virt_ptr) {
            Some(phys_addr) => Some(SyscallAction::Write { phys_addr, len: buf_size }),
            None => None,
        }
    } else if code == SYS_REBOOT {
        if frame.regs[11] == REBOOT_MAGIC_1 && frame.regs[12] == REBOOT_MAGIC_2 {
            Some(SyscallAction::Shutdown)
        } else {
            Some(SyscallAction::Ignore)
        }
    } else {
        None
    }
}

/// The bytes a `write` call emits: the user's buffer, read out of
/// physical memory at the translated address.
pub fn user_write_bytes(mem: &Vec<u8>, phys_addr: usize, len: usize) -> (r: Vec<u8>)
    requires
        phys_addr + len <= mem@.len(),
    ensures
        r@ == mem@.subrange(phys_addr as int, phys_addr + len),
{
    let n: usize = mem.len();
    let mut out: Vec<u8> = Vec::new();
    let mut i: usize = 0;
    while i < len
        invariant
            i <= len,
            phys_addr + len <= n == mem@.len(),
            out@.len() == i,
            forall|k: int| 0 <= k < i ==> out@[k] == mem@[phys_addr + k],
        decreases len - i,
    {
        out.push(mem[phys_addr + i]);
        i = i + 1;
    }
    proof {
        assert(out@ =~= mem@.subrange(phys_addr as int, phys_addr + len));
    }
    out
}

} // verus!

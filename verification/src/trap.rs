//! The trap frame and the machine-trap dispatcher's decisions.
//!
//! The assembly trap vector saves the CPU context into a `TrapFrame` and
//! calls the dispatcher with the trap's cause. The dispatcher here is the
//! decision core: from the cause it picks the action the kernel must take
//! and the program counter to return to; performing the action (logging,
//! claiming the interrupt controller, rearming the timer register) is
//! machine work that stays at the boundary.

use vstd::prelude::*;

verus! {

use crate::map_table::{MapTable, SATP_MODE_SV39};

/// Milliseconds between two timer interrupts.
pub const TIMER_OFFSET_VALUE: u64 = 1000;

/// Timer cycles per millisecond on the emulated platform.
pub const MSECS_CYCLES: u64 = 10_000;

/// The interrupt controller id of the UART.
pub const UART_INT: u32 = 10;

/// The saved CPU context of a trap: the 32 integer registers, the 32
/// floating-point register slots, the user's `satp`, the kernel trap
/// stack's top, and the hart id.
pub struct TrapFrame {
    pub regs: [u64; 32],
    pub fregs: [u64; 32],
    pub satp: u64,
    pub trap_stack: u64,
    pub hartid: u64,
}

impl TrapFrame {
    /// A zeroed frame.
    pub fn new() -> (r: TrapFrame)
        ensures
            forall|i: int| 0 <= i < 32 ==> r.regs@[i] == 0,
            forall|i: int| 0 <= i < 32 ==> r.fregs@[i] == 0,
            r.satp == 0,
            r.trap_stack == 0,
            r.hartid == 0,
    {
        TrapFrame { regs: [0; 32], fregs: [0; 32], satp: 0, trap_stack: 0, hartid: 0 }
    }

    /// Prepares the frame of hart 0: the `satp` of the kernel table with
    /// address-space id 0, and the trap stack's top — one page above the
    /// stack's frame, since stacks grow down.
    pub fn init(&mut self, map_table: &MapTable, trap_stack: u64)
        requires
            map_table.wf(),
            trap_stack + 4096 <= u64::MAX,
        ensures
            final(self).satp == SATP_MODE_SV39 + map_table.base as int / 4096,
            final(self).trap_stack == trap_stack + 4096,
            final(self).regs == old(self).regs,
            final(self).fregs == old(self).fregs,
            final(self).hartid == old(self).hartid,
    {
        self.satp = map_table.get_initial_satp(0);
        self.trap_stack = trap_stack + 4096;
    }
}

/// A trap's cause word marks an interrupt in its top bit.
pub open spec fn spec_is_async(cause: u64) -> bool {
    cause as int / 0x8000_0000_0000_0000 == 1
}

/// The low twelve bits of the cause word: the cause number.
pub open spec fn spec_cause_num(cause: u64) -> int {
    cause as int % 0x1000
}

/// The causes the kernel survives. An unknown interrupt code, an access
/// fault, an illegal instruction, a machine-mode environment call or an
/// instruction page fault end the kernel.
pub open spec fn spec_trap_fatal(cause: u64) -> bool {
    if spec_is_async(cause) {
        spec_cause_num(cause) != 3 && spec_cause_num(cause) != 7 && spec_cause_num(cause) != 11
    } else {
        spec_cause_num(cause) != 8 && spec_cause_num(cause) != 9 && spec_cause_num(cause) != 13
            && spec_cause_num(cause) != 15
    }
}

/// Whether a trap cause is one the dispatcher refuses to handle.
pub fn trap_is_fatal(cause: u64) -> (r: bool)
    ensures
        r == spec_trap_fatal(cause),
{
    let is_async: bool = cause / 0x8000_0000_0000_0000 == 1;
    let cause_num: u64 = cause % 0x1000;
    if is_async {
        !(cause_num == 3 || cause_num == 7 || cause_num == 11)
    } else {
        !(cause_num == 8 || cause_num == 9 || cause_num == 13 || cause_num == 15)
    }
}

/// What the kernel does about a trap, beyond choosing the next program
/// counter.
#[derive(PartialEq, Eq, Structural, Clone, Copy, Debug)]
pub enum TrapAction {
    /// A machine software interrupt: log it.
    LogSoftwareInterrupt,
    /// A machine timer interrupt: rearm `mtimecmp`.
    RearmTimer,
    /// A machine external interrupt: claim it from the interrupt
    /// controller and dispatch on the claimed id.
    ClaimExternal,
    /// An environment call from user mode: run the syscall dispatcher.
    Syscall,
    /// An environment call from supervisor mode: log it.
    LogSupervisorCall,
    /// A load page fault: log it and step over the instruction.
    LogLoadPageFault,
    /// A store page fault: log it and step over the instruction.
    LogStorePageFault,
}

/// The machine-trap dispatcher's decision: the new program counter and
/// the action the cause calls for. Synchronous causes that are stepped
/// past — environment calls and the logged page faults — resume at
/// `epc + 4`; interrupts resume where they hit.
pub fn m_trap_handler(epc: u64, tval: u64, cause: u64, hart: u64) -> (r: (u64, TrapAction))
    requires
        !spec_trap_fatal(cause),
        !spec_is_async(cause) ==> epc + 4 <= u64::MAX,
    ensures
        spec_is_async(cause) ==> r.0 == epc,
        !spec_is_async(cause) ==> r.0 == epc + 4,
        r.1 == (if spec_is_async(cause) {
            if spec_cause_num(cause) == 3 {
                TrapAction::LogSoftwareInterrupt
            } else if spec_cause_num(cause) == 7 {
                TrapAction::RearmTimer
            } else {
                TrapAction::ClaimExternal
            }
        } else {
            if spec_cause_num(cause) == 8 {
                TrapAction::Syscall
            } else if spec_cause_num(cause) == 9 {
                TrapAction::LogSupervisorCall
            } else if spec_cause_num(cause) == 13 {
                TrapAction::LogLoadPageFault
            } else {
                TrapAction::LogStorePageFault
            }
        }),
{
    let is_async: bool = cause / 0x8000_0000_0000_0000 == 1;
    let cause_num: u64 = cause % 0x1000;
    let _ = tval;
    let _ = hart;
    if is_async {
        if cause_num == 3 {
            (epc, TrapAction::LogSoftwareInterrupt)
        } else if cause_num == 7 {
            (epc, TrapAction::RearmTimer)
        } else {
            (epc, TrapAction::ClaimExternal)
        }
    } else {
        if cause_num == 8 {
            (epc + 4, TrapAction::Syscall)
        } else if cause_num == 9 {
            (epc + 4, TrapAction::LogSupervisorCall)
        } else if cause_num == 13 {
            (epc + 4, TrapAction::LogLoadPageFault)
        } else {
            (epc + 4, TrapAction::LogStorePageFault)
        }
    }
}

/// The value to write into `mtimecmp` so the next timer interrupt lands
/// `msecs` milliseconds after the current `mtime`, with the 64-bit
/// wrap-around the counter itself has.
pub fn schedule_mtime_interrupt(msecs: u64, mtime: u64) -> (r: u64)
    requires
        msecs * MSECS_CYCLES <= u64::MAX,
    ensures
        r == (mtime + msecs * MSECS_CYCLES) % 0x1_0000_0000_0000_0000,
{
    let offset: u64 = msecs * MSECS_CYCLES;
    let headroom: u64 = u64::MAX - mtime;
    if offset <= headroom {
        mtime + offset
    } else {
        offset - headroom - 1
    }
}

} // verus!

//! Platform-level interrupt controller register arithmetic.
//!
//! The controller lives behind memory-mapped registers; the kernel's part
//! is to compute which register to touch and which word to write. Those
//! computations live here; the volatile loads and stores stay at the
//! machine boundary.

use vstd::prelude::*;

verus! {

use crate::map_table::PLIC_BASE_ADDRESS;

/// The priority array: one 32-bit slot per interrupt source.
pub const PLIC_PRIORITY: u64 = 0x0C00_0000;

/// The enable bitset.
pub const PLIC_INT_ENABLE: u64 = 0x0C00_2000;

/// The global priority threshold.
pub const PLIC_THRESHOLD: u64 = 0x0C20_0000;

/// Read to claim the next interrupt, write to complete one.
pub const PLIC_CLAIM: u64 = 0x0C20_0004;

/// The enable bitset with interrupt `id` switched on: the word to write
/// back after reading `current` from the enable register.
pub fn enable(current: u32, id: u32) -> (r: u32)
    requires
        id < 32,
    ensures
        r == current | (1u32 << id),
{
    current | (1u32 << id)
}

/// The address of interrupt `id`'s priority slot.
pub fn priority_register(id: u32) -> (r: u64)
    ensures
        r == PLIC_PRIORITY + 4 * id,
{
    PLIC_PRIORITY + 4 * (id as u64)
}

/// The word to write into a priority slot: priorities run 0 to 7, and
/// only the low three bits count.
pub fn set_priority(priority: u8) -> (r: u32)
    ensures
        r == (priority & 7) as u32,
{
    (priority & 7) as u32
}

/// The word to write into the threshold register: thresholds run 0 to 7.
pub fn set_threshold(tsh: u8) -> (r: u32)
    ensures
        r == (tsh & 7) as u32,
{
    (tsh & 7) as u32
}

/// Reads a claim-register value: id 0 is hardwired to mean that no
/// interrupt is pending, any other id names the claimed source.
pub fn next_interrupt(claim_no: u32) -> (r: Option<u32>)
    ensures
        r == (if claim_no == 0 {
            Option::<u32>::None
        } else {
            Some(claim_no)
        }),
{
    if claim_no == 0 {
        None
    } else {
        Some(claim_no)
    }
}

/// The word that completes interrupt `id`: the claim register takes the
/// claimed id back, unchanged.
pub fn complete(id: u32) -> (r: u32)
    ensures
        r == id,
{
    id
}

/// The last byte of the controller's register window, for the boot
/// identity map.
pub fn plic_window_end() -> (r: u64)
    ensures
        r == PLIC_BASE_ADDRESS + 0x20_0008,
{
    PLIC_CLAIM + 4
}

} // verus!

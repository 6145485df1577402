//! The segment selectors of the descriptor table, and what the fast system-call
//! path is told about them.

use vstd::prelude::*;

verus! {

/// Index of the stack that the double-fault handler runs on, in the stack table of
/// the task state segment; an interrupt descriptor names it by this index plus one.
pub const DOUBLE_FAULT_IST_INDEX: u8 = 0;

/// Size of the double-fault stack and of the stack for entries from user mode.
pub const STACK_SIZE: usize = 0x2000;

/// Position in the descriptor table of the kernel's code segment.
pub const KERNEL_CODE_SLOT: u16 = 1;

/// Position of the kernel's data segment.
pub const KERNEL_DATA_SLOT: u16 = 2;

/// Position of the task state segment, which takes two slots.
pub const TSS_SLOT: u16 = 3;

/// Position of the user data segment.
pub const USER_DATA_SLOT: u16 = 5;

/// Position of the user code segment.
pub const USER_CODE_SLOT: u16 = 6;

/// The selector of the descriptor in `slot`, asked for with privilege level `ring`.
pub open spec fn selector_spec(slot: u16, ring: u8) -> u16 {
    (slot * 8 + ring) as u16
}

/// The selector of the descriptor in `slot`, asked for with privilege level `ring`.
pub fn selector(slot: u16, ring: u8) -> (s: u16)
    requires
        slot < 0x2000,
        ring < 4,
    ensures
        s == selector_spec(slot, ring),
        s == (slot << 3) | (ring as u16),
{
    assert(slot < 0x2000 && ring < 4 ==> (slot << 3) | (ring as u16) == slot * 8 + ring)
        by (bit_vector);
    (slot << 3) | (ring as u16)
}

/// The selectors that a task in user mode runs with, code first and data second:
/// those of the user code and user data segments, asked for at ring 3. These
/// are 51 and 43.
pub fn set_usermode_segs() -> (r: (u16, u16))
    ensures
        r.0 == selector_spec(USER_CODE_SLOT, 3),
        r.1 == selector_spec(USER_DATA_SLOT, 3),
        r == (51u16, 43u16),
{
    (selector(USER_CODE_SLOT, 3), selector(USER_DATA_SLOT, 3))
}

/// The selectors that the kernel runs with, code first and data second: 8 and 16.
pub fn kernel_segs() -> (r: (u16, u16))
    ensures
        r.0 == selector_spec(KERNEL_CODE_SLOT, 0),
        r.1 == selector_spec(KERNEL_DATA_SLOT, 0),
        r == (8u16, 16u16),
{
    (selector(KERNEL_CODE_SLOT, 0), selector(KERNEL_DATA_SLOT, 0))
}

} // verus!

//! The order in which the kernel is brought up.

use vstd::prelude::*;

verus! {

/// One step of bringing the kernel up.
#[derive(Copy, Clone, Debug, PartialEq, Eq, Structural)]
pub enum InitStep {
    /// Load the descriptor table and the task state segment.
    Gdt,
    /// Load the interrupt descriptor table.
    Idt,
    /// Program the interrupt controllers, with interrupts off.
    Pics,
    /// Install the system-call entry.
    SyscallMsrs,
    /// Make the frame allocator from the boot loader's memory map.
    FrameAllocator,
    /// Set the heap up on the frames.
    Heap,
    /// Turn interrupts on.
    Unmask,
    /// Load the first program and schedule it.
    FirstSchedule,
}

/// The steps of bringing the kernel up, in their fixed order.
pub open spec fn init_order_spec() -> Seq<InitStep> {
    seq![
        InitStep::Gdt,
        InitStep::Idt,
        InitStep::Pics,
        InitStep::SyscallMsrs,
        InitStep::FrameAllocator,
        InitStep::Heap,
        InitStep::Unmask,
        InitStep::FirstSchedule,
    ]
}

/// The steps of bringing the kernel up, in their fixed order.
pub fn init_order() -> (steps: [InitStep; 8])
    ensures
        steps@ == init_order_spec(),
{
    let steps = [
        InitStep::Gdt,
        InitStep::Idt,
        InitStep::Pics,
        InitStep::SyscallMsrs,
        InitStep::FrameAllocator,
        InitStep::Heap,
        InitStep::Unmask,
        InitStep::FirstSchedule,
    ];
    assert(steps@ =~= init_order_spec());
    steps
}

impl InitStep {
    /// The place of the step in the order, from 0.
    pub open spec fn position_spec(self) -> int {
        match self {
            InitStep::Gdt => 0,
            InitStep::Idt => 1,
            InitStep::Pics => 2,
            InitStep::SyscallMsrs => 3,
            InitStep::FrameAllocator => 4,
            InitStep::Heap => 5,
            InitStep::Unmask => 6,
            InitStep::FirstSchedule => 7,
        }
    }

    /// The place of the step in the order, from 0.
    pub fn position(self) -> (p: usize)
        ensures
            p == self.position_spec(),
            p < 8,
            init_order_spec()[p as int] == self,
    {
        match self {
            InitStep::Gdt => 0,
            InitStep::Idt => 1,
            InitStep::Pics => 2,
            InitStep::SyscallMsrs => 3,
            InitStep::FrameAllocator => 4,
            InitStep::Heap => 5,
            InitStep::Unmask => 6,
            InitStep::FirstSchedule => 7,
        }
    }

    /// Whether this step may be taken when `done` steps were taken: each step is
    /// taken once, after all the steps before it.
    pub fn is_due(self, done: usize) -> (r: bool)
        ensures
            r == (done == self.position_spec()),
    {
        self.position() == done
    }
}

} // verus!

//! Core of a small x86-64 kernel: address types and page tables, the frame,
//! buddy and heap allocators, tasks and the round-robin scheduler, and the
//! descriptor, interrupt-controller and system-call rules that tie them
//! together. Everything here computes on plain values; whoever drives the
//! hardware feeds it what was read and carries out what it decides.

pub mod boot;
pub mod buddy_alloc;
pub mod buddy_laws;
pub mod buddy_manager;
pub mod bytes;
pub mod elf;
pub mod fat16;
pub mod frame_alloc;
pub mod gdt;
pub mod global_alloc;
pub mod interrupts;
pub mod keyboard;
pub mod mem;
pub mod paging;
pub mod paging_laws;
pub mod port;
pub mod scheduler;
pub mod syscalls;
pub mod userspace;
pub mod vga_buffer;

//! The interrupt descriptor table: how an entry is encoded, which vectors are
//! installed, and what the keyboard interrupt does with a decoded key.

use vstd::prelude::*;
use crate::gdt::DOUBLE_FAULT_IST_INDEX;

verus! {

pub const VECTOR_DIVIDE_BY_ZERO: usize = 0;

pub const VECTOR_BREAKPOINT: usize = 3;

pub const VECTOR_DOUBLE_FAULT: usize = 8;

pub const VECTOR_GENERAL_PROTECTION: usize = 13;

pub const VECTOR_PAGE_FAULT: usize = 14;

pub const VECTOR_TIMER: usize = 32;

pub const VECTOR_KEYBOARD: usize = 33;

pub const VECTOR_IDE: usize = 46;

/// Number of entries in the table.
pub const IDT_ENTRIES: usize = 256;

/// Size of one entry in bytes.
pub const IDT_ENTRY_SIZE: usize = 16;

/// One entry of the interrupt descriptor table.
#[derive(Copy, Clone, Debug, PartialEq, Eq, Structural)]
pub struct IDTEntry {
    pub handler_low: u16,
    pub gdt_selector: u16,
    pub options: u16,
    pub handler_mid: u16,
    pub handler_hi: u32,
    pub reserved: u32,
}

/// The options of an entry: the stack index in bits 0 to 2, bit 8 set for an entry that
/// leaves interrupts enabled, bits 9 to 11 set, the privilege level that may call
/// the entry in bits 13 and 14, and the present bit 15.
pub open spec fn entry_options(int_stack_idx: u8, disable_interrupts: bool, dpl_priv: u8) -> u16 {
    ((int_stack_idx as u16 & 0b111) | (if disable_interrupts {
        0u16
    } else {
        0x100u16
    }) | 0xe00u16 | ((dpl_priv as u16 & 0b11) << 13) | 0x8000u16) as u16
}

impl IDTEntry {
    /// The address of the handler that the entry leads to.
    pub open spec fn handler_spec(self) -> u64 {
        (self.handler_low as u64) | ((self.handler_mid as u64) << 16) | ((self.handler_hi as u64)
            << 32)
    }

    /// The entry that leads to `handler` in the code segment `gdt_selector`, on the
    /// interrupt stack `int_stack_idx` (0 for none), callable from privilege
    /// level `dpl_priv`.
    pub fn new(
        handler: u64,
        gdt_selector: u16,
        int_stack_idx: u8,
        disable_interrupts: bool,
        dpl_priv: u8,
    ) -> (e: IDTEntry)
        ensures
            e.options == entry_options(int_stack_idx, disable_interrupts, dpl_priv),
            e.handler_spec() == handler,
            e.gdt_selector == gdt_selector,
            e.reserved == 0,
            e.handler_low == (handler & 0xFFFF) as u16,
            e.handler_mid == ((handler >> 16) & 0xFFFF) as u16,
            e.handler_hi == (handler >> 32) as u32,
    {
        let mut options: u16 = int_stack_idx as u16 & 0b111;
        if !disable_interrupts {
            options |= 1 << 8;
        }
        options |= 1 << 9;
        options |= 1 << 10;
        options |= 1 << 11;
        options |= (dpl_priv as u16 & 0b11) << 13;
        options |= 1 << 15;
        let handler_low = (handler & 0xFFFF) as u16;
        let handler_mid = ((handler >> 16) & 0xFFFF) as u16;
        let handler_hi = (handler >> 32) as u32;
        proof {
            let i = int_stack_idx as u16;
            let d = dpl_priv as u16;
            assert(((((((i & 0b111) | (1u16 << 8)) | (1u16 << 9)) | (1u16 << 10)) | (1u16 << 11)) | ((d
                & 0b11) << 13)) | (1u16 << 15) == (i & 0b111) | 0x100u16 | 0xe00u16 | ((d & 0b11)
                << 13) | 0x8000u16) by (bit_vector);
            assert((((((i & 0b111) | (1u16 << 9)) | (1u16 << 10)) | (1u16 << 11)) | ((d & 0b11)
                << 13)) | (1u16 << 15) == (i & 0b111) | 0u16 | 0xe00u16 | ((d & 0b11) << 13)
                | 0x8000u16) by (bit_vector);
            assert((((handler & 0xFFFF) as u16) as u64) | (((((handler >> 16) & 0xFFFF) as u16) as u64)
                << 16) | ((((handler >> 32) as u32) as u64) << 32) == handler) by (bit_vector);
        }
        IDTEntry { handler_low, handler_mid, handler_hi, options, gdt_selector, reserved: 0 }
    }

    /// An entry that is not present, in the code segment `gdt_selector`.
    pub fn empty(gdt_selector: u16) -> (e: IDTEntry)
        ensures
            e == (IDTEntry {
                handler_low: 0,
                gdt_selector,
                options: 0,
                handler_mid: 0,
                handler_hi: 0,
                reserved: 0,
            }),
    {
        IDTEntry {
            handler_low: 0,
            handler_mid: 0,
            handler_hi: 0,
            options: 0,
            gdt_selector,
            reserved: 0,
        }
    }

    /// The entry as the processor reads it: two 64-bit words, the low one first.
    pub open spec fn words_spec(self) -> (u64, u64) {
        (
            (self.handler_low as u64) | ((self.gdt_selector as u64) << 16) | ((self.options as u64)
                << 32) | ((self.handler_mid as u64) << 48),
            (self.handler_hi as u64) | ((self.reserved as u64) << 32),
        )
    }

    /// The entry as the processor reads it.
    pub fn to_words(&self) -> (w: (u64, u64))
        ensures
            w == self.words_spec(),
    {
        (
            (self.handler_low as u64) | ((self.gdt_selector as u64) << 16) | ((self.options as u64)
                << 32) | ((self.handler_mid as u64) << 48),
            (self.handler_hi as u64) | ((self.reserved as u64) << 32),
        )
    }
}

/// The addresses of the handlers that the table leads to.
#[derive(Copy, Clone, Debug, PartialEq, Eq, Structural)]
pub struct Handlers {
    pub div_by_zero: u64,
    pub breakpoint: u64,
    pub double_fault: u64,
    pub gpf: u64,
    pub page_fault: u64,
    pub timer: u64,
    pub keyboard: u64,
    pub ide: u64,
}

/// What a handler does once it has logged what happened.
#[derive(Copy, Clone, Debug, PartialEq, Eq, Structural)]
pub enum VectorAction {
    /// Log the frame and go on.
    LogAndContinue,
    /// Log the frame and halt: the fault is fatal.
    LogAndHalt,
    /// Save the context, signal the end of the interrupt, run the next task.
    SwitchTask,
    /// Read the scancode, feed the decoder, signal the end of the interrupt.
    ReadKey,
    /// Signal the end of the interrupt, nothing else.
    EoiOnly,
}

/// The handler installed for `vector`: its address, the interrupt stack it runs on
/// (0 for none) and what it does; `None` for a vector that has no handler. Only
/// the double fault runs on a stack of its own, the first.
pub open spec fn installed_spec(handlers: Handlers, vector: int) -> Option<(u64, u8, VectorAction)> {
    if vector == VECTOR_DIVIDE_BY_ZERO {
        Some((handlers.div_by_zero, 0u8, VectorAction::LogAndContinue))
    } else if vector == VECTOR_BREAKPOINT {
        Some((handlers.breakpoint, 0u8, VectorAction::LogAndContinue))
    } else if vector == VECTOR_DOUBLE_FAULT {
        Some((handlers.double_fault, 1u8, VectorAction::LogAndHalt))
    } else if vector == VECTOR_GENERAL_PROTECTION {
        Some((handlers.gpf, 0u8, VectorAction::LogAndHalt))
    } else if vector == VECTOR_PAGE_FAULT {
        Some((handlers.page_fault, 0u8, VectorAction::LogAndHalt))
    } else if vector == VECTOR_TIMER {
        Some((handlers.timer, 0u8, VectorAction::SwitchTask))
    } else if vector == VECTOR_KEYBOARD {
        Some((handlers.keyboard, 0u8, VectorAction::ReadKey))
    } else if vector == VECTOR_IDE {
        Some((handlers.ide, 0u8, VectorAction::EoiOnly))
    } else {
        None
    }
}

/// The handler installed for `vector`.
pub fn installed(handlers: &Handlers, vector: usize) -> (r: Option<(u64, u8, VectorAction)>)
    ensures
        r == installed_spec(*handlers, vector as int),
{
    if vector == VECTOR_DIVIDE_BY_ZERO {
        Some((handlers.div_by_zero, 0u8, VectorAction::LogAndContinue))
    } else if vector == VECTOR_BREAKPOINT {
        Some((handlers.breakpoint, 0u8, VectorAction::LogAndContinue))
    } else if vector == VECTOR_DOUBLE_FAULT {
        Some((handlers.double_fault, DOUBLE_FAULT_IST_INDEX + 1, VectorAction::LogAndHalt))
    } else if vector == VECTOR_GENERAL_PROTECTION {
        Some((handlers.gpf, 0u8, VectorAction::LogAndHalt))
    } else if vector == VECTOR_PAGE_FAULT {
        Some((handlers.page_fault, 0u8, VectorAction::LogAndHalt))
    } else if vector == VECTOR_TIMER {
        Some((handlers.timer, 0u8, VectorAction::SwitchTask))
    } else if vector == VECTOR_KEYBOARD {
        Some((handlers.keyboard, 0u8, VectorAction::ReadKey))
    } else if vector == VECTOR_IDE {
        Some((handlers.ide, 0u8, VectorAction::EoiOnly))
    } else {
        None
    }
}

/// The interrupt descriptor table.
pub struct InterruptDescriptorTable(pub [IDTEntry; 256]);

impl InterruptDescriptorTable {
    /// What the processor is given as the limit of the table: its size in bytes
    /// less one.
    pub fn limit(&self) -> (l: u16)
        ensures
            l == IDT_ENTRIES * IDT_ENTRY_SIZE - 1,
    {
        (IDT_ENTRIES * IDT_ENTRY_SIZE - 1) as u16
    }
}

/// The entry of `vector` in the table made for `handlers` in the code segment
/// `code_selector`: an interrupt descriptor of privilege level 0 for a vector that has a
/// handler, on the stack that the handler runs on; an entry that is not present for
/// any other.
pub open spec fn entry_spec(handlers: Handlers, code_selector: u16, vector: int) -> IDTEntry {
    match installed_spec(handlers, vector) {
        Some((handler, stack, _)) => IDTEntry {
            handler_low: (handler & 0xFFFF) as u16,
            gdt_selector: code_selector,
            options: entry_options(stack, true, 0),
            handler_mid: ((handler >> 16) & 0xFFFF) as u16,
            handler_hi: (handler >> 32) as u32,
            reserved: 0,
        },
        None => IDTEntry {
            handler_low: 0,
            gdt_selector: code_selector,
            options: 0,
            handler_mid: 0,
            handler_hi: 0,
            reserved: 0,
        },
    }
}

/// The interrupt descriptor table for `handlers`, with every entry in the code
/// segment `code_selector`.
pub fn setup_idt(handlers: &Handlers, code_selector: u16) -> (idt: InterruptDescriptorTable)
    ensures
        forall|v: int| 0 <= v < 256 ==> #[trigger] idt.0@[v] == entry_spec(*handlers, code_selector, v),
{
    let mut vectors = [IDTEntry::empty(code_selector);256];
    let mut v: usize = 0;
    while v < 256
        invariant
            v <= 256,
            forall|i: int| 0 <= i < v ==> #[trigger] vectors@[i] == entry_spec(*handlers, code_selector, i),
        decreases 256 - v,
    {
        let entry = match installed(handlers, v) {
            Some((handler, stack, _)) => IDTEntry::new(handler, code_selector, stack, true, 0),
            None => IDTEntry::empty(code_selector),
        };
        vectors[v] = entry;
        v += 1;
    }
    InterruptDescriptorTable(vectors)
}

/// An installed entry is present, is an interrupt descriptor of privilege level 0, and
/// names the stack of its handler: the first for the double fault, none else.
pub proof fn law_installed_entry_options()
    ensures
        entry_options(0, true, 0) == 0x8e00,
        entry_options(1, true, 0) == 0x8e01,
{
    assert(((0u8 as u16 & 0b111) | 0u16 | 0xe00u16 | ((0u8 as u16 & 0b11) << 13) | 0x8000u16) as u16
        == 0x8e00) by (bit_vector);
    assert(((1u8 as u16 & 0b111) | 0u16 | 0xe00u16 | ((0u8 as u16 & 0b11) << 13) | 0x8000u16) as u16
        == 0x8e01) by (bit_vector);
}

/// A key as the keyboard decoder hands it on.
#[derive(Copy, Clone, Debug, PartialEq, Eq, Structural)]
pub enum Key {
    /// The Enter key.
    Enter,
    /// A key that stands for a character.
    Unicode(char),
    /// Any other key.
    Raw,
}

/// The keys typed since the last Enter.
pub struct KeyBuffer {
    pub keys: Vec<u8>,
}

impl KeyBuffer {
    pub fn new() -> (b: KeyBuffer)
        ensures
            b.keys@ == Seq::<u8>::empty(),
    {
        KeyBuffer { keys: Vec::new() }
    }

    /// Takes a key. Enter completes the line: it becomes the input that the next
    /// read gets, in place of a line not read yet, and a new line is begun. A
    /// character joins the line, cut down to its low eight bits, and is returned
    /// to be shown on the screen. Any other key changes nothing.
    pub fn on_key(&mut self, key: Key, stdin_buf: &mut Option<Vec<u8>>) -> (echo: Option<char>)
        ensures
            match key {
                Key::Enter => {
                    &&& echo is None
                    &&& *final(stdin_buf) == Some(old(self).keys)
                    &&& final(self).keys@ == Seq::<u8>::empty()
                },
                Key::Unicode(c) => {
                    &&& echo == Some(c)
                    &&& *final(stdin_buf) == *old(stdin_buf)
                    &&& final(self).keys@ == old(self).keys@.push(c as u8)
                },
                Key::Raw => {
                    &&& echo is None
                    &&& *final(stdin_buf) == *old(stdin_buf)
                    &&& final(self).keys@ == old(self).keys@
                },
            },
    {
        match key {
            Key::Enter => {
                let mut line: Vec<u8> = Vec::new();
                core::mem::swap(&mut self.keys, &mut line);
                *stdin_buf = Some(line);
                None
            },
            Key::Unicode(character) => {
                self.keys.push(character as u8);
                Some(character)
            },
            Key::Raw => None,
        }
    }
}

} // verus!

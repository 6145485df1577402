//! I/O ports as values: which port a value goes to, the sequence of writes that
//! programs the two interrupt controllers, and what those writes leave behind.

use vstd::prelude::*;
use core::marker::PhantomData;

verus! {

/// A value that travels through an I/O port: a byte, a word or a double word.
pub trait InOut: Sized + Copy {
    /// Width of the port access in bytes.
    spec fn width_spec() -> u8;

    /// The value as 32 bits.
    spec fn bits_spec(self) -> u32;

    fn width() -> (w: u8)
        ensures
            w == Self::width_spec(),
    ;

    fn bits(self) -> (b: u32)
        ensures
            b == self.bits_spec(),
    ;
}

impl InOut for u8 {
    open spec fn width_spec() -> u8 {
        1
    }

    open spec fn bits_spec(self) -> u32 {
        self as u32
    }

    fn width() -> (w: u8) {
        1
    }

    fn bits(self) -> (b: u32) {
        self as u32
    }
}

impl InOut for u16 {
    open spec fn width_spec() -> u8 {
        2
    }

    open spec fn bits_spec(self) -> u32 {
        self as u32
    }

    fn width() -> (w: u8) {
        2
    }

    fn bits(self) -> (b: u32) {
        self as u32
    }
}

impl InOut for u32 {
    open spec fn width_spec() -> u8 {
        4
    }

    open spec fn bits_spec(self) -> u32 {
        self
    }

    fn width() -> (w: u8) {
        4
    }

    fn bits(self) -> (b: u32) {
        self
    }
}

/// One write to an I/O port, to be carried out by whoever owns the hardware.
#[derive(Copy, Clone, Debug, PartialEq, Eq, Structural)]
pub struct PortWrite {
    pub port: u16,
    /// Width of the access in bytes: 1, 2 or 4.
    pub width: u8,
    pub value: u32,
}

/// An I/O port that carries values of type `T`.
pub struct Port<T: InOut> {
    pub port: u16,
    pub pt: PhantomData<T>,
}

impl<T: InOut> Port<T> {
    pub fn new(port: u16) -> (p: Port<T>)
        ensures
            p.port == port,
    {
        Port { port, pt: PhantomData }
    }

    /// The write that sends `val` to this port.
    pub fn write(&self, val: T) -> (w: PortWrite)
        ensures
            w == (PortWrite { port: self.port, width: T::width_spec(), value: val.bits_spec() }),
    {
        PortWrite { port: self.port, width: T::width(), value: val.bits() }
    }
}

pub const PIC_MASTER_PORT: u16 = 0x20;

pub const PIC_SLAVE_PORT: u16 = 0xA0;

/// A port that nothing listens on: a write to it passes the time.
pub const WAIT_PORT: u16 = 0x11;

pub const ICW1_ICW4: u8 = 0x01;

pub const ICW1_INIT: u8 = 0x10;

pub const ICW4_8086: u8 = 0x01;

/// First vector of the master controller after it was programmed.
pub const PIC_MASTER_NEW_OFFSET: u8 = 0x20;

/// First vector of the slave controller after it was programmed.
pub const PIC_SLAVE_NEW_OFFSET: u8 = 0x28;

pub const END_OF_INTERRUPT: u8 = 0x20;

/// A byte written to `port`.
pub open spec fn byte_to(port: u16, value: u8) -> PortWrite {
    PortWrite { port, width: 1, value: value as u32 }
}

/// The writes that program the two controllers: both are put into initialisation,
/// the master gets vectors 32 to 39 and the slave 40 to 47, the slave is chained to
/// line 2 of the master, both are set to 8086 mode, and the interrupt masks that
/// were read before are written back. A write to the wait port follows each step
/// but the last two.
pub open spec fn init_pics_spec(master_mask: u8, slave_mask: u8) -> Seq<PortWrite> {
    seq![
        byte_to(PIC_MASTER_PORT, 0x11),
        byte_to(WAIT_PORT, 0),
        byte_to(PIC_SLAVE_PORT, 0x11),
        byte_to(WAIT_PORT, 0),
        byte_to(0x21, PIC_MASTER_NEW_OFFSET),
        byte_to(WAIT_PORT, 0),
        byte_to(0xA1, PIC_SLAVE_NEW_OFFSET),
        byte_to(WAIT_PORT, 0),
        byte_to(0x21, 4),
        byte_to(WAIT_PORT, 0),
        byte_to(0xA1, 2),
        byte_to(WAIT_PORT, 0),
        byte_to(0x21, ICW4_8086),
        byte_to(WAIT_PORT, 0),
        byte_to(0xA1, ICW4_8086),
        byte_to(WAIT_PORT, 0),
        byte_to(0x21, master_mask),
        byte_to(0xA1, slave_mask),
    ]
}

/// The writes that program the two interrupt controllers, given the interrupt
/// masks read from their data ports beforehand. Interrupts are to be off while
/// the writes are carried out.
pub fn init_pics(master_mask: u8, slave_mask: u8) -> (writes: Vec<PortWrite>)
    ensures
        writes@ == init_pics_spec(master_mask, slave_mask),
{
    let master_cmd: Port<u8> = Port::new(PIC_MASTER_PORT);
    let master_data: Port<u8> = Port::new(PIC_MASTER_PORT + 1);
    let slave_cmd: Port<u8> = Port::new(PIC_SLAVE_PORT);
    let slave_data: Port<u8> = Port::new(PIC_SLAVE_PORT + 1);
    let wait_port: Port<u8> = Port::new(WAIT_PORT);
    let mut writes: Vec<PortWrite> = Vec::new();
    // begin initialization
    writes.push(master_cmd.write(ICW1_INIT + ICW1_ICW4));
    writes.push(wait_port.write(0));
    writes.push(slave_cmd.write(ICW1_INIT + ICW1_ICW4));
    writes.push(wait_port.write(0));
    // set interrupt offsets
    writes.push(master_data.write(PIC_MASTER_NEW_OFFSET));
    writes.push(wait_port.write(0));
    writes.push(slave_data.write(PIC_SLAVE_NEW_OFFSET));
    writes.push(wait_port.write(0));
    // chain the slave to the master
    writes.push(master_data.write(4));
    writes.push(wait_port.write(0));
    writes.push(slave_data.write(2));
    writes.push(wait_port.write(0));
    // set mode
    writes.push(master_data.write(ICW4_8086));
    writes.push(wait_port.write(0));
    writes.push(slave_data.write(ICW4_8086));
    writes.push(wait_port.write(0));
    // restore interrupt masks
    writes.push(master_data.write(master_mask));
    writes.push(slave_data.write(slave_mask));
    assert(writes@ =~= init_pics_spec(master_mask, slave_mask));
    writes
}

/// The writes that signal the end of interrupt `interrupt_id`: to the slave
/// controller if the vector is one of its eight, and to the master in any case.
pub open spec fn end_of_interrupt_spec(interrupt_id: u8) -> Seq<PortWrite> {
    if PIC_SLAVE_NEW_OFFSET <= interrupt_id < PIC_SLAVE_NEW_OFFSET + 8 {
        seq![byte_to(PIC_SLAVE_PORT, END_OF_INTERRUPT), byte_to(PIC_MASTER_PORT, END_OF_INTERRUPT)]
    } else {
        seq![byte_to(PIC_MASTER_PORT, END_OF_INTERRUPT)]
    }
}

/// The writes that signal the end of interrupt `interrupt_id`.
pub fn end_of_interrupt(interrupt_id: u8) -> (writes: Vec<PortWrite>)
    ensures
        writes@ == end_of_interrupt_spec(interrupt_id),
{
    let mut writes: Vec<PortWrite> = Vec::new();
    if interrupt_id >= PIC_SLAVE_NEW_OFFSET && interrupt_id < PIC_SLAVE_NEW_OFFSET + 8 {
        let slave: Port<u8> = Port::new(PIC_SLAVE_PORT);
        writes.push(slave.write(END_OF_INTERRUPT));
    }
    let master: Port<u8> = Port::new(PIC_MASTER_PORT);
    writes.push(master.write(END_OF_INTERRUPT));
    assert(writes@ =~= end_of_interrupt_spec(interrupt_id));
    writes
}

/// What was programmed into one 8259 interrupt controller.
#[derive(Copy, Clone, Debug, PartialEq, Eq, Structural)]
pub struct Pic {
    /// How many initialisation words are still awaited on the data port: 0 when
    /// the controller is in operation.
    pub awaiting: u8,
    /// Whether the initialisation under way ends with a mode word.
    pub wants_mode: bool,
    /// First vector of the controller's eight.
    pub offset: u8,
    /// The cascade word: which line the other controller hangs on.
    pub cascade: u8,
    /// The mode word.
    pub mode: u8,
    /// The interrupt mask.
    pub mask: u8,
}

impl Pic {
    /// The controller after a byte was written to its command port: a byte with
    /// bit 4 set begins the initialisation and clears the mask; others change
    /// nothing that was programmed.
    pub open spec fn command_spec(self, value: u8) -> Pic {
        if value & ICW1_INIT != 0 {
            Pic {
                awaiting: if value & ICW1_ICW4 != 0 {
                    3
                } else {
                    2
                },
                wants_mode: value & ICW1_ICW4 != 0,
                mask: 0,
                ..self
            }
        } else {
            self
        }
    }

    /// The controller after a byte was written to its data port: during the
    /// initialisation it is the vector offset, then the cascade word, then the
    /// mode word if one was announced; in operation it is the interrupt mask.
    pub open spec fn data_spec(self, value: u8) -> Pic {
        if self.awaiting == 0 {
            Pic { mask: value, ..self }
        } else if self.awaiting == 3 || (self.awaiting == 2 && !self.wants_mode) {
            Pic { offset: value, awaiting: (self.awaiting - 1) as u8, ..self }
        } else if self.awaiting == 2 || (self.awaiting == 1 && !self.wants_mode) {
            Pic { cascade: value, awaiting: (self.awaiting - 1) as u8, ..self }
        } else {
            Pic { mode: value, awaiting: 0, ..self }
        }
    }

    pub fn command(&mut self, value: u8)
        ensures
            *final(self) == old(self).command_spec(value),
    {
        if value & ICW1_INIT != 0 {
            let wants_mode = value & ICW1_ICW4 != 0;
            self.awaiting = if wants_mode {
                3
            } else {
                2
            };
            self.wants_mode = wants_mode;
            self.mask = 0;
        }
    }

    pub fn data(&mut self, value: u8)
        ensures
            *final(self) == old(self).data_spec(value),
    {
        if self.awaiting == 0 {
            self.mask = value;
        } else if self.awaiting == 3 || (self.awaiting == 2 && !self.wants_mode) {
            self.offset = value;
            self.awaiting = self.awaiting - 1;
        } else if self.awaiting == 2 || (self.awaiting == 1 && !self.wants_mode) {
            self.cascade = value;
            self.awaiting = self.awaiting - 1;
        } else {
            self.mode = value;
            self.awaiting = 0;
        }
    }
}

/// The master and the slave controller.
#[derive(Copy, Clone, Debug, PartialEq, Eq, Structural)]
pub struct PicPair {
    pub master: Pic,
    pub slave: Pic,
}

impl PicPair {
    /// The pair after one port write: a byte to a command or data port of one of
    /// the two reaches that controller; any other write passes them by.
    pub open spec fn apply_spec(self, w: PortWrite) -> PicPair {
        if w.width != 1 {
            self
        } else if w.port == PIC_MASTER_PORT {
            PicPair { master: self.master.command_spec(w.value as u8), ..self }
        } else if w.port == PIC_MASTER_PORT + 1 {
            PicPair { master: self.master.data_spec(w.value as u8), ..self }
        } else if w.port == PIC_SLAVE_PORT {
            PicPair { slave: self.slave.command_spec(w.value as u8), ..self }
        } else if w.port == PIC_SLAVE_PORT + 1 {
            PicPair { slave: self.slave.data_spec(w.value as u8), ..self }
        } else {
            self
        }
    }

    /// The pair after the first `n` of the writes.
    pub open spec fn run_spec(self, writes: Seq<PortWrite>, n: nat) -> PicPair
        decreases n,
    {
        if n == 0 {
            self
        } else {
            self.run_spec(writes, (n - 1) as nat).apply_spec(writes[n - 1])
        }
    }

    /// The pair after the controllers were programmed, starting from the masks
    /// that they have.
    pub open spec fn after_init(self) -> PicPair {
        self.run_spec(init_pics_spec(self.master.mask, self.slave.mask), 18)
    }

    pub fn apply(&mut self, w: PortWrite)
        ensures
            *final(self) == old(self).apply_spec(w),
    {
        if w.width == 1 {
            let raw: u32 = w.value;
            let value = (raw & 0xff) as u8;
            assert(value == raw as u8) by (bit_vector)
                requires
                    value == (raw & 0xff) as u8,
            ;
            if w.port == PIC_MASTER_PORT {
                self.master.command(value);
            } else if w.port == PIC_MASTER_PORT + 1 {
                self.master.data(value);
            } else if w.port == PIC_SLAVE_PORT {
                self.slave.command(value);
            } else if w.port == PIC_SLAVE_PORT + 1 {
                self.slave.data(value);
            }
        }
    }

    /// Carries out the writes, in order.
    pub fn run(&mut self, writes: &Vec<PortWrite>)
        ensures
            *final(self) == old(self).run_spec(writes@, writes@.len()),
    {
        let mut i: usize = 0;
        while i < writes.len()
            invariant
                i <= writes@.len(),
                *self == old(self).run_spec(writes@, i as nat),
            decreases writes@.len() - i,
        {
            self.apply(writes[i]);
            i += 1;
        }
    }
}

/// Programming the controllers leaves them in operation, with the vector offsets
/// 32 and 40, the slave chained to line 2, 8086 mode, and the masks they had.
pub proof fn lemma_after_init(p: PicPair)
    ensures
        p.after_init() == (PicPair {
            master: Pic {
                awaiting: 0,
                wants_mode: true,
                offset: PIC_MASTER_NEW_OFFSET,
                cascade: 4,
                mode: ICW4_8086,
                mask: p.master.mask,
            },
            slave: Pic {
                awaiting: 0,
                wants_mode: true,
                offset: PIC_SLAVE_NEW_OFFSET,
                cascade: 2,
                mode: ICW4_8086,
                mask: p.slave.mask,
            },
        }),
{
    let w = init_pics_spec(p.master.mask, p.slave.mask);
    assert(0x11u8 & 0x10 != 0 && 0x11u8 & 0x01 != 0) by (bit_vector);
    reveal_with_fuel(PicPair::run_spec, 19);
    let s1 = p.run_spec(w, 1);
    let s3 = p.run_spec(w, 3);
    let s5 = p.run_spec(w, 5);
    let s7 = p.run_spec(w, 7);
    let s9 = p.run_spec(w, 9);
    let s11 = p.run_spec(w, 11);
    let s13 = p.run_spec(w, 13);
    let s15 = p.run_spec(w, 15);
    let s17 = p.run_spec(w, 17);
    assert(s1.master.awaiting == 3);
    assert(s3.slave.awaiting == 3);
    assert(s5.master.awaiting == 2);
    assert(s7.slave.awaiting == 2);
    assert(s9.master.awaiting == 1);
    assert(s11.slave.awaiting == 1);
    assert(s13.master.awaiting == 0);
    assert(s15.slave.awaiting == 0);
    assert(s17.master.mask == p.master.mask);
}

/// Programming the controllers twice leaves what programming them once leaves.
pub proof fn law_init_pics_idempotent(p: PicPair)
    ensures
        p.after_init().after_init() == p.after_init(),
{
    lemma_after_init(p);
    lemma_after_init(p.after_init());
}

} // verus!

//! Physical and virtual addresses, page-table entries and single page tables.

use vstd::prelude::*;

verus! {

/// Offset of the direct map: physical `p` below 4 GiB is visible at virtual `p + VIRT_OFFSET`.
pub const VIRT_OFFSET: u64 = 0xC000_0000;

/// Size of a physical frame and of a small page.
pub const FRAME_SIZE: u64 = 0x1000;

/// Number of entries in one page table.
pub const TABLE_ENTRIES: usize = 512;

pub const BIT_PRESENT: u16 = 0x001;

pub const BIT_WRITABLE: u16 = 0x002;

pub const BIT_USER: u16 = 0x004;

pub const BIT_WRITE_THROUGH: u16 = 0x008;

pub const BIT_NO_CACHE: u16 = 0x010;

pub const BIT_ACCESSED: u16 = 0x020;

pub const BIT_DIRTY: u16 = 0x040;

pub const BIT_HUGE: u16 = 0x080;

pub const BIT_GLOBAL: u16 = 0x100;

/// Bits 12..52 of an entry: the frame it points at.
pub const FRAME_MASK: u64 = 0x000f_ffff_ffff_f000;

/// The nine flag bits of an entry.
pub const FLAGS_MASK: u64 = 0x1ff;

/// First physical address without a direct-map alias.
pub const DIRECT_MAP_LIMIT: u64 = 0x1_0000_0000;

/// A physical address.
#[derive(Copy, Clone, Debug, PartialEq, Eq, Structural)]
pub struct PhysAddr(pub u64);

/// A virtual address.
#[derive(Copy, Clone, Debug, PartialEq, Eq, Structural)]
pub struct VirtAddr(pub u64);

impl View for PhysAddr {
    type V = u64;

    open spec fn view(&self) -> u64 {
        self.0
    }
}

impl View for VirtAddr {
    type V = u64;

    open spec fn view(&self) -> u64 {
        self.0
    }
}

impl VirtAddr {
    pub fn new(addr: u64) -> (v: VirtAddr)
        ensures
            v@ == addr,
    {
        VirtAddr(addr)
    }

    /// The address `offset` bytes further on.
    pub fn offset(&self, offset: u64) -> (v: VirtAddr)
        requires
            self@ + offset <= u64::MAX,
        ensures
            v@ == self@ + offset,
    {
        VirtAddr::new(self.0 + offset)
    }

    pub fn addr(&self) -> (a: u64)
        ensures
            a == self@,
    {
        self.0
    }

    /// What `from_direct_map` returns: the physical address that the direct map
    /// shows at this address, for addresses in the direct map only.
    pub open spec fn from_direct_map_spec(self) -> Option<PhysAddr> {
        if VIRT_OFFSET <= self.0 < VIRT_OFFSET + DIRECT_MAP_LIMIT {
            Some(PhysAddr((self.0 - VIRT_OFFSET) as u64))
        } else {
            None
        }
    }

    /// The physical address that the direct map shows at this address; `None`
    /// outside the direct map. This undoes `PhysAddr::to_virt`.
    pub fn from_direct_map(&self) -> (p: Option<PhysAddr>)
        ensures
            p == self.from_direct_map_spec(),
            p is Some ==> p->0.to_virt_spec() == Some(*self),
    {
        if self.0 >= VIRT_OFFSET && self.0 - VIRT_OFFSET < DIRECT_MAP_LIMIT {
            Some(PhysAddr::new(self.0 - VIRT_OFFSET))
        } else {
            None
        }
    }

    /// Index into the table of the given level (4 is the root, 1 the leaf table).
    pub open spec fn index_spec(self, level: int) -> int {
        if level == 4 {
            ((self.0 >> 39) & 0x1ff) as int
        } else if level == 3 {
            ((self.0 >> 30) & 0x1ff) as int
        } else if level == 2 {
            ((self.0 >> 21) & 0x1ff) as int
        } else {
            ((self.0 >> 12) & 0x1ff) as int
        }
    }

    /// Every table index lies within a table.
    pub proof fn lemma_index_range(self, level: int)
        ensures
            0 <= self.index_spec(level) < 512,
    {
        let a: u64 = self.0;
        assert((a >> 39) & 0x1ff < 512 && (a >> 30) & 0x1ff < 512 && (a >> 21) & 0x1ff < 512 && (a
            >> 12) & 0x1ff < 512) by (bit_vector);
    }

    /// Index of this address in the table of `level`; levels outside 2..=4 read as level 1.
    pub fn index(&self, level: u8) -> (i: usize)
        ensures
            i == self.index_spec(level as int),
            i < TABLE_ENTRIES,
    {
        let a: u64 = self.0;
        proof {
            self.lemma_index_range(level as int);
        }
        if level == 4 {
            ((a >> 39) & 0x1ff) as usize
        } else if level == 3 {
            ((a >> 30) & 0x1ff) as usize
        } else if level == 2 {
            ((a >> 21) & 0x1ff) as usize
        } else {
            ((a >> 12) & 0x1ff) as usize
        }
    }
}

impl PhysAddr {
    pub fn new(addr: u64) -> (p: PhysAddr)
        ensures
            p@ == addr,
    {
        PhysAddr(addr)
    }

    /// What `to_virt` returns: the direct-map alias, for addresses below 4 GiB only.
    pub open spec fn to_virt_spec(self) -> Option<VirtAddr> {
        if self.0 < DIRECT_MAP_LIMIT {
            Some(VirtAddr((self.0 + VIRT_OFFSET) as u64))
        } else {
            None
        }
    }

    /// The virtual address at which the direct map shows this physical address.
    pub fn to_virt(&self) -> (v: Option<VirtAddr>)
        ensures
            v == self.to_virt_spec(),
            self@ < DIRECT_MAP_LIMIT ==> v is Some && v->0@ == self@ + VIRT_OFFSET,
            self@ >= DIRECT_MAP_LIMIT ==> v is None,
    {
        if self.0 < DIRECT_MAP_LIMIT {
            Some(VirtAddr::new(self.0 + VIRT_OFFSET))
        } else {
            None
        }
    }

    pub fn addr(&self) -> (a: u64)
        ensures
            a == self@,
    {
        self.0
    }

    /// The address `offset` bytes further on.
    pub fn offset(&self, offset: u64) -> (p: PhysAddr)
        requires
            self@ + offset <= u64::MAX,
        ensures
            p@ == self@ + offset,
    {
        PhysAddr::new(self.0 + offset)
    }

    /// Whether this is the address of a frame that a page-table entry can name.
    pub open spec fn is_frame(self) -> bool {
        self.0 & FRAME_MASK == self.0
    }
}

/// A physical address below 4 GiB, taken to its alias in the direct map and back,
/// is the same address; above, it has no alias.
pub proof fn law_direct_map_alias(p: PhysAddr)
    ensures
        p@ < DIRECT_MAP_LIMIT ==> p.to_virt_spec() is Some && p.to_virt_spec()->0.from_direct_map_spec()
            == Some(p),
        p@ >= DIRECT_MAP_LIMIT ==> p.to_virt_spec() is None,
{
}

/// One 64-bit page-table entry: nine flag bits and a frame address.
#[derive(Copy, Clone, Debug, PartialEq, Eq, Structural)]
pub struct PTEntry(pub u64);

impl View for PTEntry {
    type V = u64;

    open spec fn view(&self) -> u64 {
        self.0
    }
}

impl PTEntry {
    /// Whether any bit of the mask `bit` is set in the entry.
    pub open spec fn bit(self, bit: u16) -> bool {
        self.0 & (bit as u64) != 0
    }

    pub open spec fn present(self) -> bool {
        self.bit(BIT_PRESENT)
    }

    pub open spec fn huge(self) -> bool {
        self.bit(BIT_HUGE)
    }

    /// The frame address held in bits 12..52.
    pub open spec fn frame(self) -> u64 {
        self.0 & FRAME_MASK
    }

    /// The entry after `set_bit(bit, v)`: the mask is flipped when its state differs from `v`.
    pub open spec fn with_bit(self, bit: u16, v: bool) -> PTEntry {
        if self.bit(bit) != v {
            PTEntry(self.0 ^ (bit as u64))
        } else {
            self
        }
    }

    /// The entry after `set_opts(options)`: bits 0..9 replaced, `options` or-ed in.
    pub open spec fn with_opts(self, options: u16) -> PTEntry {
        PTEntry(((self.0 >> 9) << 9) | (options as u64))
    }

    /// The entry after `set_phys_addr(addr)`: the address with the old flag bits.
    pub open spec fn with_phys_addr(self, addr: PhysAddr) -> PTEntry {
        PTEntry(addr.0 | (self.0 & FLAGS_MASK))
    }

    pub fn get_bit(&self, bit: u16) -> (b: bool)
        ensures
            b == self.bit(bit),
    {
        (self.0 & (bit as u64)) != 0
    }

    pub fn set_opts(&mut self, options: u16)
        ensures
            *final(self) == old(self).with_opts(options),
    {
        let val: u64 = (self.0 >> 9) << 9;
        self.0 = val | (options as u64);
    }

    pub fn set_bit(&mut self, bit: u16, v: bool)
        ensures
            *final(self) == old(self).with_bit(bit, v),
    {
        if ((self.0 & (bit as u64)) != 0) != v {
            self.0 ^= bit as u64;
        }
    }

    pub fn set_phys_addr(&mut self, addr: PhysAddr)
        ensures
            *final(self) == old(self).with_phys_addr(addr),
    {
        let val: u64 = self.0 & FLAGS_MASK;
        self.0 = addr.addr() | val;
    }

    pub fn phys_addr(&self) -> (p: PhysAddr)
        ensures
            p@ == self.frame(),
            p.is_frame(),
    {
        let a: u64 = self.0;
        assert((a & 0x000f_ffff_ffff_f000) & 0x000f_ffff_ffff_f000 == a & 0x000f_ffff_ffff_f000)
            by (bit_vector);
        PhysAddr::new(self.0 & FRAME_MASK)
    }
}

/// Whether `bit` is exactly one of the nine flags.
pub open spec fn is_flag(bit: u16) -> bool {
    bit == BIT_PRESENT || bit == BIT_WRITABLE || bit == BIT_USER || bit == BIT_WRITE_THROUGH || bit
        == BIT_NO_CACHE || bit == BIT_ACCESSED || bit == BIT_DIRTY || bit == BIT_HUGE || bit
        == BIT_GLOBAL
}

/// Setting one flag leaves it with the value given and changes nothing else:
/// every other flag and the frame address stay as they were.
pub proof fn law_set_flag(e: PTEntry, bit: u16, v: bool, other: u16)
    requires
        is_flag(bit),
        is_flag(other),
    ensures
        e.with_bit(bit, v).bit(bit) == v,
        other != bit ==> e.with_bit(bit, v).bit(other) == e.bit(other),
        e.with_bit(bit, v).frame() == e.frame(),
        v ==> e.with_bit(bit, v).0 == e.0 | (bit as u64),
{
    let a: u64 = e.0;
    let b: u64 = bit as u64;
    let o: u64 = other as u64;
    assert((b == 1 || b == 2 || b == 4 || b == 8 || b == 16 || b == 32 || b == 64 || b == 128 || b
        == 256) && (o == 1 || o == 2 || o == 4 || o == 8 || o == 16 || o == 32 || o == 64 || o
        == 128 || o == 256) ==> ((a ^ b) & b != 0) == !(a & b != 0) && (o != b ==> ((a ^ b) & o
        != 0) == (a & o != 0)) && (a ^ b) & 0x000f_ffff_ffff_f000 == a & 0x000f_ffff_ffff_f000 && (a
        & b == 0 ==> a ^ b == a | b) && (a & b != 0 ==> a == a | b)) by (bit_vector);
}

/// One page table: 512 entries.
pub struct PageTable {
    pub entries: [PTEntry; 512],
}

impl View for PageTable {
    type V = Seq<PTEntry>;

    open spec fn view(&self) -> Seq<PTEntry> {
        self.entries@
    }
}

impl PageTable {
    /// A table with every entry zero: nothing present.
    pub fn empty() -> (t: PageTable)
        ensures
            t@ == Seq::new(512, |i: int| PTEntry(0)),
    {
        let t = PageTable { entries: [PTEntry(0);512] };
        assert(t@ =~= Seq::new(512, |i: int| PTEntry(0)));
        t
    }

    /// The entry at index `i`, for reading and writing in place.
    pub fn get_entry(&mut self, i: usize) -> (e: &mut PTEntry)
        requires
            i < TABLE_ENTRIES,
        ensures
            *e == old(self)@[i as int],
            final(self)@ == old(self)@.update(i as int, *final(e)),
    {
        &mut self.entries[i]
    }

    /// A copy of the entry at index `i`.
    pub fn entry(&self, i: usize) -> (e: PTEntry)
        requires
            i < TABLE_ENTRIES,
        ensures
            e == self@[i as int],
    {
        self.entries[i]
    }
}

} // verus!

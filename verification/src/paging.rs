//! The page tables that live in physical memory: a store of tables by frame
//! address, the four-level walk that resolves a virtual address, and the
//! editor that maps a page and links the tables that are missing.

use vstd::prelude::*;
use std::collections::HashMap;
use crate::mem::{
    PTEntry, PageTable, PhysAddr, VirtAddr, BIT_HUGE, BIT_PRESENT, BIT_USER, BIT_WRITABLE,
    FRAME_MASK, TABLE_ENTRIES, VIRT_OFFSET,
};

verus! {

/// A table in the store, with the level at which the walk reaches it.
pub struct TableFrame {
    level: u8,
    table: PageTable,
}

/// What the contracts see of one table.
pub struct TableView {
    /// 4 for a root, 1 for a table of small pages.
    pub level: int,
    pub entries: Seq<PTEntry>,
}

/// What the contracts see of the store.
pub struct MemoryView {
    /// The tables, keyed by the physical address of their frame.
    pub tables: Map<u64, TableView>,
    /// Zeroed frames kept for tables still to come; the last one is used first.
    pub spare: Seq<u64>,
}

/// Page tables in physical memory, and the zeroed frames set aside for new ones.
pub struct TableMemory {
    frames: HashMap<u64, TableFrame>,
    spare: Vec<u64>,
}

/// Why a mapping could not be made.
#[derive(Copy, Clone, Debug, PartialEq, Eq, Structural)]
pub enum MapError {
    /// A table is missing and no spare frame is left to hold it.
    MapFail,
    /// The address given as a root is not that of a root table.
    BadRoot,
}

/// An address that bits 12..52 of an entry can hold.
pub open spec fn frame_ok(f: u64) -> bool {
    f & FRAME_MASK == f
}

/// Whether the walk follows entry `e`, found in a table of `level`, down to another table.
pub open spec fn links(level: int, e: PTEntry) -> bool {
    e.present() && (level == 4 || !e.huge())
}

/// Whether the editor puts a new table under entry `e`, found in a table of `level`.
pub open spec fn needs_table(level: int, e: PTEntry) -> bool {
    !e.present() || (level < 4 && e.huge())
}

/// An entry of an upper table after the editor has passed through it: pointed at the
/// frame `fresh` and made present if a table was missing, then made writable and
/// user-accessible where `opts` asks for it.
pub open spec fn linked(e: PTEntry, level: int, fresh: u64, opts: u16) -> PTEntry {
    let e1 = if needs_table(level, e) {
        e.with_phys_addr(PhysAddr(fresh)).with_bit(BIT_PRESENT, true)
    } else {
        e
    };
    let e2 = if opts & BIT_WRITABLE != 0 {
        e1.with_bit(BIT_WRITABLE, true)
    } else {
        e1
    };
    if opts & BIT_USER != 0 {
        e2.with_bit(BIT_USER, true)
    } else {
        e2
    }
}

/// The entry that maps a page: the address with its low nine bits cleared, and the options.
pub open spec fn leaf_entry(phys: u64, opts: u16) -> PTEntry {
    PTEntry(phys).with_opts(opts)
}

pub open spec fn empty_table(level: int) -> TableView {
    TableView { level, entries: Seq::new(512, |i: int| PTEntry(0)) }
}

impl MemoryView {
    pub open spec fn is_table(self, frame: u64, level: int) -> bool {
        self.tables.contains_key(frame) && self.tables[frame].level == level
    }

    pub open spec fn entry(self, frame: u64, i: int) -> PTEntry {
        self.tables[frame].entries[i]
    }

    /// Every table has 512 entries and a level; every entry that the walk follows
    /// leads to a table one level down; the spare frames are distinct and unused.
    pub open spec fn wf(self) -> bool {
        &&& forall|f: u64| #[trigger]
            self.tables.contains_key(f) ==> frame_ok(f) && 1 <= self.tables[f].level <= 4
                && self.tables[f].entries.len() == 512
        &&& forall|f: u64, i: int|
            self.tables.contains_key(f) && 0 <= i < 512 && self.tables[f].level >= 2 && links(
                self.tables[f].level,
                #[trigger] self.entry(f, i),
            ) ==> self.is_table(self.entry(f, i).frame(), self.tables[f].level - 1)
        &&& forall|j: int|
            0 <= j < self.spare.len() ==> frame_ok(#[trigger] self.spare[j])
                && !self.tables.contains_key(self.spare[j])
        &&& forall|j: int, k: int|
            0 <= j < k < self.spare.len() ==> #[trigger] self.spare[j] != #[trigger] self.spare[k]
    }

    /// The store with entry `i` of table `frame` replaced by `e`.
    pub open spec fn write(self, frame: u64, i: int, e: PTEntry) -> MemoryView {
        MemoryView {
            tables: self.tables.insert(
                frame,
                TableView {
                    level: self.tables[frame].level,
                    entries: self.tables[frame].entries.update(i, e),
                },
            ),
            spare: self.spare,
        }
    }

    /// The store with the last spare frame turned into an empty table of `level`.
    pub open spec fn take_spare(self, level: int) -> MemoryView {
        MemoryView {
            tables: self.tables.insert(self.spare.last(), empty_table(level)),
            spare: self.spare.drop_last(),
        }
    }

    /// The walk from the root table at `root`: the physical address that `virt`
    /// resolves to and the entry that ends the walk, or `None` where an entry on
    /// the way is not present. A huge entry ends the walk at level 3 (1 GiB) or
    /// level 2 (2 MiB).
    pub open spec fn resolve(self, root: u64, virt: VirtAddr) -> Option<(PhysAddr, PTEntry)> {
        let e4 = self.entry(root, virt.index_spec(4));
        let e3 = self.entry(e4.frame(), virt.index_spec(3));
        let e2 = self.entry(e3.frame(), virt.index_spec(2));
        let e1 = self.entry(e2.frame(), virt.index_spec(1));
        if !self.is_table(root, 4) || !e4.present() || !e3.present() {
            None
        } else if e3.huge() {
            Some((PhysAddr((e3.frame() + (virt.0 & 0x3fff_ffff)) as u64), e3))
        } else if !e2.present() {
            None
        } else if e2.huge() {
            Some((PhysAddr((e2.frame() + (virt.0 & 0x1f_ffff)) as u64), e2))
        } else if !e1.present() {
            None
        } else {
            Some((PhysAddr((e1.frame() + (virt.0 & 0xfff)) as u64), e1))
        }
    }
}

impl MemoryView {
    /// One step of the editor, through entry `i` of the table at `table`: where no
    /// table hangs under the entry, the last spare frame becomes an empty table one
    /// level down and the entry is pointed at it; the entry gets the access bits
    /// that `opts` asks for. Gives the store afterwards and the table below.
    pub open spec fn descend(self, table: u64, i: int, level: int, opts: u16) -> (MemoryView, u64) {
        let e = self.entry(table, i);
        if needs_table(level, e) {
            let fresh = self.spare.last();
            (self.take_spare(level - 1).write(table, i, linked(e, level, fresh, opts)), fresh)
        } else {
            (self.write(table, i, linked(e, level, 0, opts)), e.frame())
        }
    }

    /// How many new tables mapping `virt` takes: one for each level from the first
    /// missing table down to the table that gets the mapping.
    pub open spec fn frames_needed(self, root: u64, virt: VirtAddr, opts: u16) -> nat {
        let e4 = self.entry(root, virt.index_spec(4));
        let e3 = self.entry(e4.frame(), virt.index_spec(3));
        let e2 = self.entry(e3.frame(), virt.index_spec(2));
        let huge = opts & BIT_HUGE != 0;
        if needs_table(4, e4) {
            if huge {
                2
            } else {
                3
            }
        } else if needs_table(3, e3) {
            if huge {
                1
            } else {
                2
            }
        } else if !huge && needs_table(2, e2) {
            1
        } else {
            0
        }
    }

    /// The store after mapping `virt` to `phys` under the root at `root`: the editor
    /// steps through levels 4 and 3, and writes a 2 MiB entry at level 2 if `opts`
    /// has the huge bit; else it steps through level 2 and writes the entry at level 1.
    pub open spec fn map(self, root: u64, virt: VirtAddr, phys: u64, opts: u16) -> MemoryView {
        let (m3, t3) = self.descend(root, virt.index_spec(4), 4, opts);
        let (m2, t2) = m3.descend(t3, virt.index_spec(3), 3, opts);
        if opts & BIT_HUGE != 0 {
            m2.write(t2, virt.index_spec(2), leaf_entry(phys, opts))
        } else {
            let (m1, t1) = m2.descend(t2, virt.index_spec(2), 2, opts);
            m1.write(t1, virt.index_spec(1), leaf_entry(phys, opts))
        }
    }
}

impl MemoryView {
    /// Whether no huge bit stands in the editor's way to `virt`: an entry at level 3
    /// or 2 that it passes through and that carries the huge bit keeps the bit, and
    /// the walk would stop there.
    pub open spec fn path_clear(self, root: u64, virt: VirtAddr, opts: u16) -> bool {
        let e4 = self.entry(root, virt.index_spec(4));
        let e3 = self.entry(e4.frame(), virt.index_spec(3));
        let e2 = self.entry(e3.frame(), virt.index_spec(2));
        needs_table(4, e4) || (!e3.huge() && (needs_table(3, e3) || opts & BIT_HUGE != 0
            || !e2.huge()))
    }

    /// The first entry of the root at `kernel_root` and, under it, the level-3 table
    /// whose entries 3 to 6 cover the direct map.
    pub open spec fn kernel_l3(self, kernel_root: u64) -> u64 {
        self.entry(kernel_root, 0).frame()
    }

    /// The first entry of a new root: present, writable, user, pointing at `l3`.
    pub open spec fn first_entry(l3: u64) -> PTEntry {
        PTEntry(0).with_phys_addr(PhysAddr(l3)).with_bit(BIT_PRESENT, true).with_bit(
            BIT_WRITABLE,
            true,
        ).with_bit(BIT_USER, true)
    }

    /// The store after a new address space is built from the last two spare frames:
    /// the last becomes the root, the one before it the level-3 table under the
    /// root's first entry, and that table's entries 3 to 6 are copies of the
    /// kernel's. Gives the store and the new root.
    pub open spec fn new_space(self, kernel_root: u64) -> (MemoryView, u64) {
        let k3 = self.kernel_l3(kernel_root);
        let l4 = self.spare.last();
        let m1 = self.take_spare(4);
        let l3 = m1.spare.last();
        let m2 = m1.take_spare(3);
        (
            m2.write(l4, 0, Self::first_entry(l3)).write(l3, 3, self.entry(k3, 3)).write(
                l3,
                4,
                self.entry(k3, 4),
            ).write(l3, 5, self.entry(k3, 5)).write(l3, 6, self.entry(k3, 6)),
            l4,
        )
    }

    /// Whether the root at `root` maps the low 4 GiB of physical memory at the
    /// direct-map offset: entries 3 to 6 of the level-3 table under its first entry
    /// each cover one GiB, as one huge page or as 512 huge pages of 2 MiB.
    pub open spec fn direct_mapped(self, root: u64) -> bool {
        &&& self.is_table(root, 4)
        &&& self.entry(root, 0).present()
        &&& forall|k: int|
            3 <= k < 7 ==> {
                let e3 = #[trigger] self.entry(self.kernel_l3(root), k);
                &&& e3.present()
                &&& e3.huge() ==> e3.frame() == (k - 3) * 0x4000_0000
                &&& !e3.huge() ==> forall|j: int|
                    0 <= j < 512 ==> {
                        let e2 = #[trigger] self.entry(e3.frame(), j);
                        e2.present() && e2.huge() && e2.frame() == (k - 3) * 0x4000_0000 + j
                            * 0x20_0000
                    }
            }
    }
}

impl View for TableMemory {
    type V = MemoryView;

    closed spec fn view(&self) -> MemoryView {
        MemoryView {
            tables: Map::new(
                |f: u64| self.frames@.contains_key(f),
                |f: u64|
                    TableView {
                        level: self.frames@[f].level as int,
                        entries: self.frames@[f].table@,
                    },
            ),
            spare: self.spare@,
        }
    }
}

/// An entry that is zero is neither present nor huge.
pub proof fn lemma_empty_entry()
    ensures
        !PTEntry(0).present(),
        !PTEntry(0).huge(),
{
    assert(0u64 & 1 == 0 && 0u64 & 0x80 == 0) by (bit_vector);
}

/// Facts about the bits of frame addresses and offsets that the walk relies on.
proof fn lemma_frame_bits(x: u64, v: u64)
    ensures
        frame_ok(x & FRAME_MASK),
        frame_ok(0),
        !PTEntry(0).present(),
        (x & FRAME_MASK) + (v & 0x3fff_ffff) <= u64::MAX,
        (x & FRAME_MASK) + (v & 0x1f_ffff) <= u64::MAX,
        (x & FRAME_MASK) + (v & 0xfff) <= u64::MAX,
        frame_ok(x) <==> x % 4096 == 0 && x < 0x10_0000_0000_0000,
{
    assert((x & 0x000f_ffff_ffff_f000) & 0x000f_ffff_ffff_f000 == x & 0x000f_ffff_ffff_f000
        && 0u64 & 0x000f_ffff_ffff_f000 == 0 && 0u64 & 1 == 0 && (x & 0x000f_ffff_ffff_f000) <= 0x000f_ffff_ffff_f000
        && (v & 0x3fff_ffff) <= 0x3fff_ffff && (v & 0x1f_ffff) <= 0x1f_ffff && (v & 0xfff) <= 0xfff
        && ((x & 0x000f_ffff_ffff_f000 == x) <==> (x % 4096 == 0 && x < 0x10_0000_0000_0000)))
        by (bit_vector);
}

/// What passing through an upper entry does to its bits: afterwards it is present and
/// names the table below, and its huge bit is as before.
pub proof fn lemma_linked_bits(e: PTEntry, level: int, fresh: u64, opts: u16)
    requires
        frame_ok(fresh),
    ensures
        linked(e, level, fresh, opts).present(),
        linked(e, level, fresh, opts).huge() == e.huge(),
        linked(e, level, fresh, opts).frame() == (if needs_table(level, e) {
            fresh
        } else {
            e.frame()
        }),
        (opts & BIT_WRITABLE != 0) ==> linked(e, level, fresh, opts).bit(BIT_WRITABLE),
        (opts & BIT_USER != 0) ==> linked(e, level, fresh, opts).bit(BIT_USER),
{
    let a: u64 = e.0;
    let a0: u64 = fresh | (a & 0x1ff);
    let a1: u64 = if a0 & 1 != 0 {
        a0
    } else {
        a0 ^ 1
    };
    assert(PTEntry(a0) == e.with_phys_addr(PhysAddr(fresh)));
    assert(PTEntry(a1) == PTEntry(a0).with_bit(BIT_PRESENT, true));
    lemma_access_bits(a, opts);
    lemma_access_bits(a1, opts);
    assert(fresh & 0x000f_ffff_ffff_f000 == fresh ==> a1 & 1 != 0 && (a1 & 0x80 != 0) == (a & 0x80
        != 0) && a1 & 0x000f_ffff_ffff_f000 == fresh) by (bit_vector)
        requires
            a0 == fresh | (a & 0x1ff),
            a1 == (if a0 & 1 != 0 {
                a0
            } else {
                a0 ^ 1
            }),
    ;
}

/// The entry `x` after the writable and user bits that `opts` asks for are set.
spec fn with_access(x: u64, opts: u16) -> u64 {
    let x2 = if opts & BIT_WRITABLE != 0 {
        PTEntry(x).with_bit(BIT_WRITABLE, true).0
    } else {
        x
    };
    if opts & BIT_USER != 0 {
        PTEntry(x2).with_bit(BIT_USER, true).0
    } else {
        x2
    }
}

/// Setting the access bits changes neither the present bit, the huge bit nor the frame.
proof fn lemma_access_bits(x: u64, opts: u16)
    ensures
        (with_access(x, opts) & 1 != 0) == (x & 1 != 0),
        (with_access(x, opts) & 0x80 != 0) == (x & 0x80 != 0),
        with_access(x, opts) & FRAME_MASK == x & FRAME_MASK,
        (opts & BIT_WRITABLE != 0) ==> with_access(x, opts) & 2 != 0,
        (opts & BIT_USER != 0) ==> with_access(x, opts) & 4 != 0,
{
    let x2: u64 = if x & 2 != 0 {
        x
    } else {
        x ^ 2
    };
    let x3: u64 = if x & 4 != 0 {
        x
    } else {
        x ^ 4
    };
    let x4: u64 = if x2 & 4 != 0 {
        x2
    } else {
        x2 ^ 4
    };
    assert((x2 & 1 != 0) == (x & 1 != 0) && (x3 & 1 != 0) == (x & 1 != 0) && (x4 & 1 != 0) == (x & 1
        != 0) && (x2 & 0x80 != 0) == (x & 0x80 != 0) && (x3 & 0x80 != 0) == (x & 0x80 != 0) && (x4
        & 0x80 != 0) == (x & 0x80 != 0) && x2 & 0x000f_ffff_ffff_f000 == x & 0x000f_ffff_ffff_f000
        && x3 & 0x000f_ffff_ffff_f000 == x & 0x000f_ffff_ffff_f000 && x4 & 0x000f_ffff_ffff_f000
        == x & 0x000f_ffff_ffff_f000 && x2 & 2 != 0 && x4 & 2 != 0 && x3 & 4 != 0 && x4 & 4 != 0)
        by (bit_vector)
        requires
            x2 == (if x & 2 != 0 {
                x
            } else {
                x ^ 2
            }),
            x3 == (if x & 4 != 0 {
                x
            } else {
                x ^ 4
            }),
            x4 == (if x2 & 4 != 0 {
                x2
            } else {
                x2 ^ 4
            }),
    ;
}

/// Writing an entry keeps the store well formed if the table stands at level 1, or
/// the walk does not follow the entry, or it leads to a table one level down.
pub proof fn lemma_write_wf(m: MemoryView, table: u64, i: int, e: PTEntry)
    requires
        m.wf(),
        m.tables.contains_key(table),
        0 <= i < 512,
        m.tables[table].level == 1 || !links(m.tables[table].level, e) || m.is_table(
            e.frame(),
            m.tables[table].level - 1,
        ),
    ensures
        m.write(table, i, e).wf(),
        m.write(table, i, e).tables.dom() == m.tables.dom(),
        m.write(table, i, e).entry(table, i) == e,
        forall|f: u64| #[trigger]
            m.tables.contains_key(f) ==> m.write(table, i, e).tables[f].level == m.tables[f].level,
        forall|f: u64, j: int|
            m.tables.contains_key(f) && 0 <= j < 512 && (f != table || j != i) ==> #[trigger] m.write(
                table,
                i,
                e,
            ).entry(f, j) == m.entry(f, j),
{
    let w = m.write(table, i, e);
    assert(w.tables.dom() =~= m.tables.dom());
    assert forall|f: u64, j: int|
        w.tables.contains_key(f) && 0 <= j < 512 && w.tables[f].level >= 2 && links(
            w.tables[f].level,
            #[trigger] w.entry(f, j),
        ) implies w.is_table(w.entry(f, j).frame(), w.tables[f].level - 1) by {
        if f == table && j == i {
        } else {
            assert(w.entry(f, j) == m.entry(f, j));
            assert(m.is_table(m.entry(f, j).frame(), m.tables[f].level - 1));
        }
    }
}

/// Turning the last spare frame into an empty table keeps the store well formed.
pub proof fn lemma_take_spare_wf(m: MemoryView, level: int)
    requires
        m.wf(),
        m.spare.len() > 0,
        1 <= level <= 4,
    ensures
        m.take_spare(level).wf(),
        m.take_spare(level).tables[m.spare.last()] == empty_table(level),
        !m.tables.contains_key(m.spare.last()),
        frame_ok(m.spare.last()),
        forall|f: u64| #[trigger]
            m.tables.contains_key(f) ==> m.take_spare(level).tables.contains_key(f) && m.take_spare(
                level,
            ).tables[f] == m.tables[f],
{
    let t = m.take_spare(level);
    let fresh = m.spare.last();
    lemma_frame_bits(0, 0);
    assert(fresh == m.spare[m.spare.len() - 1]);
    assert forall|f: u64, j: int|
        t.tables.contains_key(f) && 0 <= j < 512 && t.tables[f].level >= 2 && links(
            t.tables[f].level,
            #[trigger] t.entry(f, j),
        ) implies t.is_table(t.entry(f, j).frame(), t.tables[f].level - 1) by {
        if f == fresh {
            assert(t.entry(f, j) == PTEntry(0));
        } else {
            assert(t.entry(f, j) == m.entry(f, j));
            assert(m.is_table(m.entry(f, j).frame(), m.tables[f].level - 1));
        }
    }
    assert forall|j: int| 0 <= j < t.spare.len() implies frame_ok(#[trigger] t.spare[j])
        && !t.tables.contains_key(t.spare[j]) by {
        assert(t.spare[j] == m.spare[j]);
    }
}

/// What one step of the editor leaves behind: a well-formed store in which the entry
/// stepped through is present and names the table below, which stands one level
/// down; the levels of all tables and every other entry are as before.
pub proof fn lemma_descend(m: MemoryView, table: u64, i: int, level: int, opts: u16)
    requires
        m.wf(),
        m.is_table(table, level),
        2 <= level <= 4,
        0 <= i < 512,
        needs_table(level, m.entry(table, i)) ==> m.spare.len() > 0,
    ensures
        ({
            let (m1, next) = m.descend(table, i, level, opts);
            let e = m.entry(table, i);
            &&& m1.wf()
            &&& m1.is_table(next, level - 1)
            &&& m1.entry(table, i) == linked(e, level, next, opts)
            &&& m1.entry(table, i).present()
            &&& m1.entry(table, i).frame() == next
            &&& m1.entry(table, i).huge() == e.huge()
            &&& needs_table(level, e) ==> next == m.spare.last() && m1.spare == m.spare.drop_last()
                && m1.tables[next] == empty_table(level - 1) && !m.tables.contains_key(next)
            &&& !needs_table(level, e) ==> next == e.frame() && m1.spare == m.spare
                && m1.tables.dom() == m.tables.dom()
            &&& forall|f: u64| #[trigger]
                m.tables.contains_key(f) ==> m1.is_table(f, m.tables[f].level)
            &&& forall|f: u64, j: int|
                m.tables.contains_key(f) && 0 <= j < 512 && (f != table || j != i)
                    ==> #[trigger] m1.entry(f, j) == m.entry(f, j)
        }),
{
    let (m1, next) = m.descend(table, i, level, opts);
    let e = m.entry(table, i);
    if needs_table(level, e) {
        let t = m.take_spare(level - 1);
        lemma_take_spare_wf(m, level - 1);
        lemma_linked_bits(e, level, next, opts);
        assert(t.is_table(next, level - 1));
        assert(t.tables[table] == m.tables[table]);
        lemma_write_wf(t, table, i, linked(e, level, next, opts));
        assert forall|f: u64, j: int|
            m.tables.contains_key(f) && 0 <= j < 512 && (f != table || j != i) implies #[trigger] m1.entry(
            f,
            j,
        ) == m.entry(f, j) by {
            assert(t.tables.contains_key(f));
            assert(m1.entry(f, j) == t.entry(f, j));
        }
    } else {
        lemma_frame_bits(e.0, 0);
        lemma_linked_bits(e, level, 0, opts);
        assert(links(level, e));
        assert(m.is_table(e.frame(), level - 1));
        lemma_write_wf(m, table, i, linked(e, level, 0, opts));
        assert(linked(e, level, 0, opts) == linked(e, level, next, opts));
    }
}

impl TableMemory {
    pub open spec fn wf(&self) -> bool {
        self@.wf()
    }

    /// A store with no table and no spare frame.
    pub fn new() -> (m: TableMemory)
        ensures
            m.wf(),
            m@.tables == Map::<u64, TableView>::empty(),
            m@.spare == Seq::<u64>::empty(),
    {
        broadcast use vstd::std_specs::hash::group_hash_axioms;

        let m = TableMemory { frames: HashMap::new(), spare: Vec::new() };
        assert(m@.tables =~= Map::<u64, TableView>::empty());
        m
    }

    /// Number of spare frames.
    pub fn spare_frames(&self) -> (n: usize)
        ensures
            n == self@.spare.len(),
    {
        self.spare.len()
    }

    /// The level of the table at `frame`, if there is one.
    pub fn level_of(&self, frame: PhysAddr) -> (l: Option<u8>)
        ensures
            l is Some <==> self@.tables.contains_key(frame@),
            l is Some ==> l->0 as int == self@.tables[frame@].level,
    {
        broadcast use vstd::std_specs::hash::group_hash_axioms;

        match self.frames.get(&frame.0) {
            Some(f) => Some(f.level),
            None => None,
        }
    }

    /// Entry `i` of the table at `frame`, if there is such a table.
    pub fn read(&self, frame: PhysAddr, i: usize) -> (e: Option<PTEntry>)
        requires
            i < TABLE_ENTRIES,
        ensures
            e is Some <==> self@.tables.contains_key(frame@),
            e is Some ==> e->0 == self@.entry(frame@, i as int),
    {
        broadcast use vstd::std_specs::hash::group_hash_axioms;

        match self.frames.get(&frame.0) {
            Some(f) => Some(f.table.entry(i)),
            None => None,
        }
    }

    /// Entry `i` of the table at `frame`, which is there.
    fn read_or_zero(&self, frame: PhysAddr, i: usize) -> (e: PTEntry)
        requires
            i < TABLE_ENTRIES,
            self@.tables.contains_key(frame@),
        ensures
            e == self@.entry(frame@, i as int),
    {
        match self.read(frame, i) {
            Some(e) => e,
            None => PTEntry(0),
        }
    }

    /// Hands the store a zeroed frame for a table to come. Refused, with nothing
    /// changed, if the address is not that of a frame or is already in use here.
    pub fn add_frame(&mut self, frame: PhysAddr) -> (accepted: bool)
        requires
            old(self).wf(),
        ensures
            final(self).wf(),
            accepted <==> frame_ok(frame@) && !old(self)@.tables.contains_key(frame@) && !old(
                self,
            )@.spare.contains(frame@),
            accepted ==> final(self)@.spare == old(self)@.spare.push(frame@),
            !accepted ==> final(self)@.spare == old(self)@.spare,
            final(self)@.tables == old(self)@.tables,
    {
        broadcast use vstd::std_specs::hash::group_hash_axioms;

        if frame.0 & FRAME_MASK != frame.0 || self.frames.contains_key(&frame.0) {
            return false;
        }
        let mut j: usize = 0;
        while j < self.spare.len()
            invariant
                j <= self.spare.len(),
                *self == *old(self),
                self.wf(),
                forall|k: int| 0 <= k < j ==> self.spare@[k] != frame.0,
            decreases self.spare.len() - j,
        {
            if self.spare[j] == frame.0 {
                return false;
            }
            j += 1;
        }
        self.spare.push(frame.0);
        proof {
            let before = old(self)@;
            let after = self@;
            assert(after.tables =~= before.tables);
            assert(after.spare == before.spare.push(frame.0));
            assert forall|k: int| 0 <= k < before.spare.len() implies before.spare[k]
                != frame.0 by {}
            assert(!before.spare.contains(frame.0));
            assert forall|f: u64, i: int|
                after.tables.contains_key(f) && 0 <= i < 512 && after.tables[f].level >= 2
                    && links(after.tables[f].level, #[trigger] after.entry(f, i)) implies after.is_table(
                after.entry(f, i).frame(),
                after.tables[f].level - 1,
            ) by {
                assert(after.entry(f, i) == before.entry(f, i));
            }
        }
        true
    }
}

impl TableMemory {
    /// Replaces entry `i` of the table at `table`.
    fn write(&mut self, table: u64, i: usize, e: PTEntry)
        requires
            old(self).wf(),
            old(self)@.tables.contains_key(table),
            i < TABLE_ENTRIES,
            old(self)@.tables[table].level == 1 || !links(old(self)@.tables[table].level, e) || old(
                self,
            )@.is_table(e.frame(), old(self)@.tables[table].level - 1),
        ensures
            final(self).wf(),
            final(self)@ == old(self)@.write(table, i as int, e),
    {
        broadcast use vstd::std_specs::hash::group_hash_axioms;

        match self.frames.remove(&table) {
            Some(f) => {
                let mut f = f;
                *f.table.get_entry(i) = e;
                self.frames.insert(table, f);
            },
            None => {},
        }
        proof {
            let want = old(self)@.write(table, i as int, e);
            assert(self@.tables =~= want.tables);
            lemma_write_wf(old(self)@, table, i as int, e);
        }
    }

    /// Turns the last spare frame into an empty table of `level`.
    fn take_spare(&mut self, level: u8) -> (fresh: u64)
        requires
            old(self).wf(),
            old(self)@.spare.len() > 0,
            1 <= level <= 4,
        ensures
            final(self).wf(),
            final(self)@ == old(self)@.take_spare(level as int),
            fresh == old(self)@.spare.last(),
    {
        broadcast use vstd::std_specs::hash::group_hash_axioms;

        let fresh: u64 = match self.spare.pop() {
            Some(f) => f,
            None => 0,
        };
        self.frames.insert(fresh, TableFrame { level, table: PageTable::empty() });
        proof {
            let want = old(self)@.take_spare(level as int);
            assert(self@.tables =~= want.tables);
            assert(self@.spare =~= want.spare);
            lemma_take_spare_wf(old(self)@, level as int);
        }
        fresh
    }

    /// One step of the editor through entry `i` of the table at `table`; returns the
    /// table below.
    fn descend(&mut self, table: u64, i: usize, level: u8, opts: u16) -> (next: u64)
        requires
            old(self).wf(),
            old(self)@.is_table(table, level as int),
            2 <= level <= 4,
            i < TABLE_ENTRIES,
            needs_table(level as int, old(self)@.entry(table, i as int)) ==> old(self)@.spare.len()
                > 0,
        ensures
            final(self).wf(),
            final(self)@ == old(self)@.descend(table, i as int, level as int, opts).0,
            next == old(self)@.descend(table, i as int, level as int, opts).1,
    {
        let ghost before = self@;
        let mut e = self.read_or_zero(PhysAddr::new(table), i);
        let ghost e0 = e;
        let next: u64;
        if !e.get_bit(BIT_PRESENT) || (level < 4 && e.get_bit(BIT_HUGE)) {
            next = self.take_spare(level - 1);
            e.set_phys_addr(PhysAddr::new(next));
            e.set_bit(BIT_PRESENT, true);
        } else {
            next = e.phys_addr().addr();
        }
        if opts & BIT_WRITABLE != 0 {
            e.set_bit(BIT_WRITABLE, true);
        }
        if opts & BIT_USER != 0 {
            e.set_bit(BIT_USER, true);
        }
        proof {
            lemma_descend(before, table, i as int, level as int, opts);
            assert(e == linked(e0, level as int, next, opts));
            if !needs_table(level as int, e0) {
                assert(linked(e0, level as int, next, opts) == linked(e0, level as int, 0, opts));
            }
        }
        self.write(table, i, e);
        next
    }

    /// How many spare frames mapping `virt` under `root` would use up; `None` if
    /// `root` is no root table.
    pub fn frames_needed(&self, root: PhysAddr, virt: VirtAddr, opts: u16) -> (r: Option<usize>)
        requires
            self.wf(),
        ensures
            match r {
                Some(n) => self@.is_table(root@, 4) && n == self@.frames_needed(root@, virt, opts)
                    && n <= 3,
                None => !self@.is_table(root@, 4),
            },
    {
        match self.level_of(root) {
            Some(l) => {
                if l != 4 {
                    return None;
                }
            },
            None => {
                return None;
            },
        }
        let huge = opts & BIT_HUGE != 0;
        let e4 = self.read_or_zero(root, virt.index(4));
        if !e4.get_bit(BIT_PRESENT) {
            return Some(
                if huge {
                    2
                } else {
                    3
                },
            );
        }
        assert(links(4, self@.entry(root@, virt.index_spec(4))));
        let e3 = self.read_or_zero(e4.phys_addr(), virt.index(3));
        if !e3.get_bit(BIT_PRESENT) || e3.get_bit(BIT_HUGE) {
            return Some(
                if huge {
                    1
                } else {
                    2
                },
            );
        }
        if huge {
            return Some(0);
        }
        assert(links(3, self@.entry(e4.frame(), virt.index_spec(3))));
        let e2 = self.read_or_zero(e3.phys_addr(), virt.index(2));
        if !e2.get_bit(BIT_PRESENT) || e2.get_bit(BIT_HUGE) {
            Some(1)
        } else {
            Some(0)
        }
    }
}

/// The bits of the entry that maps a page: its flags are the low nine bits of the
/// options, and it names `phys` if that is a frame address and the options have
/// nothing above bit 11.
pub proof fn lemma_leaf_bits(phys: u64, opts: u16)
    ensures
        leaf_entry(phys, opts).present() == (opts & BIT_PRESENT != 0),
        leaf_entry(phys, opts).huge() == (opts & BIT_HUGE != 0),
        leaf_entry(phys, opts).bit(BIT_WRITABLE) == (opts & BIT_WRITABLE != 0),
        leaf_entry(phys, opts).bit(BIT_USER) == (opts & BIT_USER != 0),
        leaf_entry(phys, opts).0 & 0x1ff == (opts & 0x1ff) as u64,
        frame_ok(phys) && opts & 0xf000 == 0 ==> leaf_entry(phys, opts).frame() == phys,
{
    let o: u64 = opts as u64;
    let l: u64 = ((phys >> 9) << 9) | o;
    assert(leaf_entry(phys, opts).0 == l);
    assert((l & 1 != 0) == (opts & 1 != 0) && (l & 0x80 != 0) == (opts & 0x80 != 0) && (l & 2 != 0)
        == (opts & 2 != 0) && (l & 4 != 0) == (opts & 4 != 0) && l & 0x1ff == (opts & 0x1ff) as u64
        && (phys & 0x000f_ffff_ffff_f000 == phys && opts & 0xf000 == 0 ==> l
        & 0x000f_ffff_ffff_f000 == phys)) by (bit_vector)
        requires
            o == opts as u64,
            l == ((phys >> 9) << 9) | o,
    ;
}

impl PageTable {
    /// Maps the page of `virt` to `phys` in the address space under the root table at
    /// `root`, with `create_options` as the flags of the entry; tables that are
    /// missing on the way are made from spare frames, and every entry passed through
    /// gets the writable and user bits that the options hold. With the huge bit in
    /// the options the entry is written at level 2, as a 2 MiB page. Returns the
    /// entry written.
    ///
    /// Fails, with the store unchanged, if `root` is no root table, or if fewer
    /// spare frames are left than tables are missing.
    pub fn map_virt_to_phys(
        mem: &mut TableMemory,
        root: PhysAddr,
        virt: VirtAddr,
        phys: PhysAddr,
        create_options: u16,
    ) -> (r: Result<PTEntry, MapError>)
        requires
            old(mem).wf(),
        ensures
            final(mem).wf(),
            match r {
                Ok(e) => {
                    &&& old(mem)@.is_table(root@, 4)
                    &&& old(mem)@.spare.len() >= old(mem)@.frames_needed(root@, virt, create_options)
                    &&& final(mem)@ == old(mem)@.map(root@, virt, phys@, create_options)
                    &&& final(mem)@.is_table(root@, 4)
                    &&& e == leaf_entry(phys@, create_options)
                    &&& final(mem)@.spare.len() == old(mem)@.spare.len() - old(mem)@.frames_needed(
                        root@,
                        virt,
                        create_options,
                    )
                },
                Err(MapError::BadRoot) => !old(mem)@.is_table(root@, 4) && final(mem)@ == old(mem)@,
                Err(MapError::MapFail) => {
                    &&& old(mem)@.is_table(root@, 4)
                    &&& old(mem)@.spare.len() < old(mem)@.frames_needed(root@, virt, create_options)
                    &&& final(mem)@ == old(mem)@
                },
            },
    {
        match mem.frames_needed(root, virt, create_options) {
            Some(needed) => {
                if mem.spare_frames() < needed {
                    return Err(MapError::MapFail);
                }
            },
            None => {
                return Err(MapError::BadRoot);
            },
        }
        let ghost m = mem@;
        let ghost opts = create_options;
        let create_huge = (create_options & BIT_HUGE) != 0;
        let mut leaf = PTEntry(0);
        leaf.set_phys_addr(phys);
        leaf.set_opts(create_options);
        proof {
            lemma_leaf_bits(phys.0, opts);
            assert(leaf == leaf_entry(phys.0, opts)) by {
                let a: u64 = phys.0;
                let o: u64 = opts as u64;
                assert((((a | (0u64 & 0x1ff)) >> 9) << 9) | o == ((a >> 9) << 9) | o)
                    by (bit_vector);
            }
            lemma_frame_bits(0, 0);
            virt.lemma_index_range(4);
            virt.lemma_index_range(3);
            virt.lemma_index_range(2);
            virt.lemma_index_range(1);
            lemma_descend(m, root.0, virt.index_spec(4), 4, opts);
        }
        let t3 = mem.descend(root.0, virt.index(4), 4, create_options);
        let ghost m3 = mem@;
        proof {
            assert(m3.entry(t3, virt.index_spec(3)) == m.entry(t3, virt.index_spec(3))
                || m3.tables[t3] == empty_table(3));
            lemma_descend(m3, t3, virt.index_spec(3), 3, opts);
        }
        let t2 = mem.descend(t3, virt.index(3), 3, create_options);
        let ghost m2 = mem@;
        if create_huge {
            mem.write(t2, virt.index(2), leaf);
            return Ok(leaf);
        }
        proof {
            assert(m2.entry(t2, virt.index_spec(2)) == m3.entry(t2, virt.index_spec(2))
                || m2.tables[t2] == empty_table(2));
            assert(m3.tables.contains_key(t2) ==> m3.entry(t2, virt.index_spec(2)) == m.entry(
                t2,
                virt.index_spec(2),
            ) || m3.tables[t2] == empty_table(2));
            lemma_descend(m2, t2, virt.index_spec(2), 2, opts);
        }
        let t1 = mem.descend(t2, virt.index(2), 2, create_options);
        mem.write(t1, virt.index(1), leaf);
        Ok(leaf)
    }
}

impl TableMemory {
    /// Turns the last spare frame into an empty root table, as for the table that
    /// the machine starts with. `None`, with nothing changed, if no frame is spare.
    pub fn add_root(&mut self) -> (root: Option<PhysAddr>)
        requires
            old(self).wf(),
        ensures
            final(self).wf(),
            match root {
                Some(r) => {
                    &&& old(self)@.spare.len() > 0
                    &&& r@ == old(self)@.spare.last()
                    &&& final(self)@ == old(self)@.take_spare(4)
                    &&& final(self)@.is_table(r@, 4)
                },
                None => old(self)@.spare.len() == 0 && final(self)@ == old(self)@,
            },
    {
        if self.spare.len() == 0 {
            return None;
        }
        let r = self.take_spare(4);
        Some(PhysAddr::new(r))
    }
}

impl PageTable {
    /// Builds a new address space that shares the kernel's half with the address
    /// space under `kernel_root`: a new root whose first entry is present, writable
    /// and user-accessible and leads to a new level-3 table, whose entries 3 to 6
    /// are those of the kernel's level-3 table. Returns the new root.
    ///
    /// Fails, with the store unchanged, if `kernel_root` is no root table or its
    /// first entry is not present, or if fewer than two spare frames are left.
    pub fn new(mem: &mut TableMemory, kernel_root: PhysAddr) -> (r: Result<PhysAddr, MapError>)
        requires
            old(mem).wf(),
        ensures
            final(mem).wf(),
            match r {
                Ok(root) => {
                    &&& old(mem)@.is_table(kernel_root@, 4)
                    &&& old(mem)@.entry(kernel_root@, 0).present()
                    &&& old(mem)@.spare.len() >= 2
                    &&& final(mem)@ == old(mem)@.new_space(kernel_root@).0
                    &&& root@ == old(mem)@.new_space(kernel_root@).1
                    &&& final(mem)@.is_table(root@, 4)
                },
                Err(MapError::BadRoot) => {
                    &&& !(old(mem)@.is_table(kernel_root@, 4) && old(mem)@.entry(
                        kernel_root@,
                        0,
                    ).present())
                    &&& final(mem)@ == old(mem)@
                },
                Err(MapError::MapFail) => {
                    &&& old(mem)@.is_table(kernel_root@, 4)
                    &&& old(mem)@.entry(kernel_root@, 0).present()
                    &&& old(mem)@.spare.len() < 2
                    &&& final(mem)@ == old(mem)@
                },
            },
    {
        match mem.level_of(kernel_root) {
            Some(l) => {
                if l != 4 {
                    return Err(MapError::BadRoot);
                }
            },
            None => {
                return Err(MapError::BadRoot);
            },
        }
        let k0 = mem.read_or_zero(kernel_root, 0);
        if !k0.get_bit(BIT_PRESENT) {
            return Err(MapError::BadRoot);
        }
        if mem.spare_frames() < 2 {
            return Err(MapError::MapFail);
        }
        let ghost m = mem@;
        let k3 = k0.phys_addr();
        assert(links(4, m.entry(kernel_root@, 0)));
        let c3 = mem.read_or_zero(k3, 3);
        let c4 = mem.read_or_zero(k3, 4);
        let c5 = mem.read_or_zero(k3, 5);
        let c6 = mem.read_or_zero(k3, 6);
        let l4 = mem.take_spare(4);
        let l3 = mem.take_spare(3);
        let mut first = PTEntry(0);
        first.set_phys_addr(PhysAddr::new(l3));
        first.set_bit(BIT_PRESENT, true);
        first.set_bit(BIT_WRITABLE, true);
        first.set_bit(BIT_USER, true);
        proof {
            lemma_first_entry(l3);
            assert(links(3, c3) ==> m.is_table(m.entry(k3@, 3).frame(), 2));
            assert(links(3, c4) ==> m.is_table(m.entry(k3@, 4).frame(), 2));
            assert(links(3, c5) ==> m.is_table(m.entry(k3@, 5).frame(), 2));
            assert(links(3, c6) ==> m.is_table(m.entry(k3@, 6).frame(), 2));
            assert(forall|f: u64| #[trigger]
                m.tables.contains_key(f) ==> mem@.is_table(f, m.tables[f].level));
        }
        mem.write(l4, 0, first);
        mem.write(l3, 3, c3);
        mem.write(l3, 4, c4);
        mem.write(l3, 5, c5);
        mem.write(l3, 6, c6);
        Ok(PhysAddr::new(l4))
    }
}

/// The first entry of a new root is present and leads to the level-3 table given.
pub proof fn lemma_first_entry(l3: u64)
    requires
        frame_ok(l3),
    ensures
        MemoryView::first_entry(l3).present(),
        MemoryView::first_entry(l3).bit(BIT_WRITABLE),
        MemoryView::first_entry(l3).bit(BIT_USER),
        !MemoryView::first_entry(l3).huge(),
        MemoryView::first_entry(l3).frame() == l3,
        MemoryView::first_entry(l3).0 == l3 | 7,
{
    let a0: u64 = l3 | (0u64 & 0x1ff);
    let a1: u64 = if a0 & 1 != 0 {
        a0
    } else {
        a0 ^ 1
    };
    let a2: u64 = if a1 & 2 != 0 {
        a1
    } else {
        a1 ^ 2
    };
    let a3: u64 = if a2 & 4 != 0 {
        a2
    } else {
        a2 ^ 4
    };
    assert(MemoryView::first_entry(l3).0 == a3);
    assert(l3 & 0x000f_ffff_ffff_f000 == l3 ==> a3 == l3 | 7 && a3 & 1 != 0 && a3 & 2 != 0 && a3 & 4
        != 0 && a3 & 0x80 == 0 && a3 & 0x000f_ffff_ffff_f000 == l3) by (bit_vector)
        requires
            a0 == l3 | (0u64 & 0x1ff),
            a1 == (if a0 & 1 != 0 {
                a0
            } else {
                a0 ^ 1
            }),
            a2 == (if a1 & 2 != 0 {
                a1
            } else {
                a1 ^ 2
            }),
            a3 == (if a2 & 4 != 0 {
                a2
            } else {
                a2 ^ 4
            }),
    ;
}

impl VirtAddr {
    /// Resolves this address through the tables under the root at `root`: the physical
    /// address it maps to, with the entry that ends the walk, or `None` if it is not
    /// mapped. The entry returned is always present, and the address is the entry's
    /// frame plus the offset of this address within the page.
    pub fn to_phys(&self, mem: &TableMemory, root: PhysAddr) -> (r: Option<(PhysAddr, PTEntry)>)
        requires
            mem.wf(),
        ensures
            r == mem@.resolve(root@, *self),
            match r {
                Some((p, e)) => e.present() && p@ >= e.frame(),
                None => true,
            },
    {
        let m = Ghost(mem@);
        match mem.level_of(root) {
            Some(l) => {
                if l != 4 {
                    return None;
                }
            },
            None => {
                return None;
            },
        }
        let e4 = match mem.read(root, self.index(4)) {
            Some(e) => e,
            None => {
                return None;
            },
        };
        if !e4.get_bit(BIT_PRESENT) {
            return None;
        }
        assert(links(4, m@.entry(root@, self.index_spec(4))));
        let e3 = match mem.read(e4.phys_addr(), self.index(3)) {
            Some(e) => e,
            None => {
                return None;
            },
        };
        proof {
            lemma_frame_bits(e3.0, self.0);
        }
        if !e3.get_bit(BIT_PRESENT) {
            return None;
        } else if e3.get_bit(BIT_HUGE) {
            let page_off: u64 = self.0 & 0x3fff_ffff;
            return Some((e3.phys_addr().offset(page_off), e3));
        }
        assert(links(3, m@.entry(e4.frame(), self.index_spec(3))));
        let e2 = match mem.read(e3.phys_addr(), self.index(2)) {
            Some(e) => e,
            None => {
                return None;
            },
        };
        proof {
            lemma_frame_bits(e2.0, self.0);
        }
        if !e2.get_bit(BIT_PRESENT) {
            return None;
        } else if e2.get_bit(BIT_HUGE) {
            let page_off: u64 = self.0 & 0x1f_ffff;
            return Some((e2.phys_addr().offset(page_off), e2));
        }
        assert(links(2, m@.entry(e3.frame(), self.index_spec(2))));
        let e1 = match mem.read(e2.phys_addr(), self.index(1)) {
            Some(e) => e,
            None => {
                return None;
            },
        };
        proof {
            lemma_frame_bits(e1.0, self.0);
        }
        if !e1.get_bit(BIT_PRESENT) {
            None
        } else {
            let page_off: u64 = self.0 & 0xfff;
            Some((e1.phys_addr().offset(page_off), e1))
        }
    }
}

/// One page to map: the virtual address, the physical address, and the flags.
#[derive(Copy, Clone, Debug, PartialEq, Eq, Structural)]
pub struct Mapping {
    pub virt: VirtAddr,
    pub phys: PhysAddr,
    pub opts: u16,
}

impl MemoryView {
    /// The store after the pages were mapped one after the other under the root at
    /// `root`, and whether all of them were: mapping stops at the first page for
    /// which the spare frames do not suffice.
    pub open spec fn map_many(self, root: u64, pages: Seq<Mapping>) -> (MemoryView, bool)
        decreases pages.len(),
    {
        if pages.len() == 0 {
            (self, true)
        } else if self.spare.len() >= self.frames_needed(root, pages[0].virt, pages[0].opts) {
            self.map(root, pages[0].virt, pages[0].phys@, pages[0].opts).map_many(
                root,
                pages.skip(1),
            )
        } else {
            (self, false)
        }
    }

    /// The store after an address space for a task was built and the pages were
    /// mapped in it, the new root, and whether all pages were mapped.
    pub open spec fn task_space(self, kernel_root: u64, pages: Seq<Mapping>) -> (
        MemoryView,
        u64,
        bool,
    ) {
        let (m, root) = self.new_space(kernel_root);
        let (n, done) = m.map_many(root, pages);
        (n, root, done)
    }
}

impl PageTable {
    /// Maps the pages one after the other under the root at `root`, and stops at
    /// the first that cannot be mapped for want of spare frames. Nothing is
    /// mapped if `root` is no root table.
    pub fn map_many(mem: &mut TableMemory, root: PhysAddr, pages: &Vec<Mapping>) -> (r: Result<
        (),
        MapError,
    >)
        requires
            old(mem).wf(),
        ensures
            final(mem).wf(),
            match r {
                Ok(_) => {
                    &&& old(mem)@.is_table(root@, 4)
                    &&& old(mem)@.map_many(root@, pages@).1
                    &&& final(mem)@ == old(mem)@.map_many(root@, pages@).0
                    &&& final(mem)@.is_table(root@, 4)
                },
                Err(MapError::MapFail) => {
                    &&& old(mem)@.is_table(root@, 4)
                    &&& !old(mem)@.map_many(root@, pages@).1
                    &&& final(mem)@ == old(mem)@.map_many(root@, pages@).0
                    &&& final(mem)@.is_table(root@, 4)
                },
                Err(MapError::BadRoot) => !old(mem)@.is_table(root@, 4) && final(mem)@ == old(mem)@,
            },
    {
        match mem.level_of(root) {
            Some(l) => {
                if l != 4 {
                    return Err(MapError::BadRoot);
                }
            },
            None => {
                return Err(MapError::BadRoot);
            },
        }
        let mut i: usize = 0;
        assert(pages@.skip(0) =~= pages@);
        while i < pages.len()
            invariant
                i <= pages@.len(),
                mem.wf(),
                mem@.is_table(root@, 4),
                old(mem)@.is_table(root@, 4),
                mem@.map_many(root@, pages@.skip(i as int)) == old(mem)@.map_many(root@, pages@),
            decreases pages@.len() - i,
        {
            let p = pages[i];
            proof {
                assert(pages@.skip(i as int)[0] == p);
                assert(pages@.skip(i as int).skip(1) =~= pages@.skip(i + 1));
            }
            match PageTable::map_virt_to_phys(mem, root, p.virt, p.phys, p.opts) {
                Ok(_) => {},
                Err(e) => {
                    assert(e == MapError::MapFail);
                    return Err(MapError::MapFail);
                },
            }
            i += 1;
        }
        proof {
            assert(pages@.skip(i as int).len() == 0);
        }
        Ok(())
    }

    /// Builds an address space that shares the kernel's half with the one under
    /// `kernel_root`, and maps the pages in it. Returns the new root.
    ///
    /// Fails with `BadRoot`, the store unchanged, if `kernel_root` is no root or
    /// its first entry is not present; with `MapFail` if the spare frames do not
    /// suffice: the store is then unchanged if fewer than two were left, and
    /// else holds the new address space with the pages mapped so far.
    pub fn new_task_space(mem: &mut TableMemory, kernel_root: PhysAddr, pages: &Vec<Mapping>) -> (r:
        Result<PhysAddr, MapError>)
        requires
            old(mem).wf(),
        ensures
            final(mem).wf(),
            match r {
                Ok(root) => {
                    &&& old(mem)@.is_table(kernel_root@, 4)
                    &&& old(mem)@.entry(kernel_root@, 0).present()
                    &&& old(mem)@.spare.len() >= 2
                    &&& final(mem)@ == old(mem)@.task_space(kernel_root@, pages@).0
                    &&& root@ == old(mem)@.task_space(kernel_root@, pages@).1
                    &&& old(mem)@.task_space(kernel_root@, pages@).2
                    &&& final(mem)@.is_table(root@, 4)
                },
                Err(MapError::BadRoot) => {
                    &&& !(old(mem)@.is_table(kernel_root@, 4) && old(mem)@.entry(
                        kernel_root@,
                        0,
                    ).present())
                    &&& final(mem)@ == old(mem)@
                },
                Err(MapError::MapFail) => {
                    &&& old(mem)@.is_table(kernel_root@, 4)
                    &&& old(mem)@.entry(kernel_root@, 0).present()
                    &&& if old(mem)@.spare.len() < 2 {
                        final(mem)@ == old(mem)@
                    } else {
                        &&& final(mem)@ == old(mem)@.task_space(kernel_root@, pages@).0
                        &&& !old(mem)@.task_space(kernel_root@, pages@).2
                    }
                },
            },
    {
        let root = match PageTable::new(mem, kernel_root) {
            Ok(root) => root,
            Err(e) => {
                return Err(e);
            },
        };
        match PageTable::map_many(mem, root, pages) {
            Ok(_) => Ok(root),
            Err(e) => Err(MapError::MapFail),
        }
    }
}

/// Size of a huge page of the second level.
pub const HUGE_PAGE_SIZE: u64 = 0x20_0000;

/// Number of huge pages in the low gigabyte, which the kernel runs in.
pub const LOW_PAGES: usize = 512;

/// Number of huge pages in the 4 GiB that the direct map shows.
pub const DIRECT_PAGES: usize = 2048;

/// The flags of the kernel's own pages: present, writable, huge.
pub const KERNEL_PAGE_OPTS: u16 = 0x83;

/// Page `i` of the kernel's address space: the first 512 map the low gigabyte at
/// its own addresses; the 2048 behind them map the low 4 GiB at the direct-map
/// offset. All are huge pages that the kernel may write.
pub open spec fn kernel_mapping(i: int) -> Mapping {
    if i < LOW_PAGES {
        Mapping {
            virt: VirtAddr((i * HUGE_PAGE_SIZE) as u64),
            phys: PhysAddr((i * HUGE_PAGE_SIZE) as u64),
            opts: KERNEL_PAGE_OPTS,
        }
    } else {
        Mapping {
            virt: VirtAddr((VIRT_OFFSET + (i - LOW_PAGES) * HUGE_PAGE_SIZE) as u64),
            phys: PhysAddr(((i - LOW_PAGES) * HUGE_PAGE_SIZE) as u64),
            opts: KERNEL_PAGE_OPTS,
        }
    }
}

/// The pages of the kernel's own address space, as the boot code leaves them: the
/// low gigabyte at its own addresses, and the low 4 GiB at the direct-map offset.
pub fn kernel_mappings() -> (pages: Vec<Mapping>)
    ensures
        pages@.len() == LOW_PAGES + DIRECT_PAGES,
        forall|i: int| 0 <= i < pages@.len() ==> #[trigger] pages@[i] == kernel_mapping(i),
{
    let mut pages: Vec<Mapping> = Vec::new();
    let mut i: usize = 0;
    while i < LOW_PAGES
        invariant
            i <= LOW_PAGES,
            pages@.len() == i,
            forall|j: int| 0 <= j < i ==> #[trigger] pages@[j] == kernel_mapping(j),
        decreases LOW_PAGES - i,
    {
        let addr: u64 = i as u64 * HUGE_PAGE_SIZE;
        pages.push(
            Mapping { virt: VirtAddr::new(addr), phys: PhysAddr::new(addr), opts: KERNEL_PAGE_OPTS },
        );
        i += 1;
    }
    let mut k: usize = 0;
    while k < DIRECT_PAGES
        invariant
            k <= DIRECT_PAGES,
            pages@.len() == LOW_PAGES + k,
            forall|j: int| 0 <= j < LOW_PAGES + k ==> #[trigger] pages@[j] == kernel_mapping(j),
        decreases DIRECT_PAGES - k,
    {
        let phys: u64 = k as u64 * HUGE_PAGE_SIZE;
        pages.push(
            Mapping {
                virt: VirtAddr::new(VIRT_OFFSET + phys),
                phys: PhysAddr::new(phys),
                opts: KERNEL_PAGE_OPTS,
            },
        );
        k += 1;
    }
    pages
}

} // verus!

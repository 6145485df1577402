//! What holds of the walk and the editor together.

use vstd::prelude::*;
use crate::mem::{PTEntry, PhysAddr, VirtAddr, BIT_HUGE, BIT_PRESENT, BIT_USER, BIT_WRITABLE, DIRECT_MAP_LIMIT, FLAGS_MASK};
use crate::paging::{
    empty_table, frame_ok, kernel_mapping, leaf_entry, lemma_descend, lemma_empty_entry,
    lemma_leaf_bits, lemma_linked_bits, lemma_write_wf, links, needs_table, Mapping, MemoryView,
    KERNEL_PAGE_OPTS,
};

verus! {

/// The offset of `virt` within its page: within 2 MiB for a huge mapping, within 4 KiB else.
pub open spec fn page_offset(virt: VirtAddr, opts: u16) -> u64 {
    if opts & BIT_HUGE != 0 {
        virt.0 & 0x1f_ffff
    } else {
        virt.0 & 0xfff
    }
}

/// A walk that ends in a mapping ends at a present entry, and the address it gives
/// lies in the page that this entry names: at most 1 GiB past its frame.
pub proof fn law_resolve_present(m: MemoryView, root: u64, virt: VirtAddr)
    requires
        m.wf(),
    ensures
        match m.resolve(root, virt) {
            Some((p, e)) => e.present() && e.frame() <= p@ < e.frame() + 0x4000_0000,
            None => true,
        },
{
    let e4 = m.entry(root, virt.index_spec(4));
    let e3 = m.entry(e4.frame(), virt.index_spec(3));
    let e2 = m.entry(e3.frame(), virt.index_spec(2));
    let e1 = m.entry(e2.frame(), virt.index_spec(1));
    let v: u64 = virt.0;
    let a3: u64 = e3.0;
    let a2: u64 = e2.0;
    let a1: u64 = e1.0;
    assert((a3 & 0x000f_ffff_ffff_f000) + (v & 0x3fff_ffff) < 0x0010_0000_0000_0000 + 0x4000_0000
        && (v & 0x3fff_ffff) < 0x4000_0000 && (a2 & 0x000f_ffff_ffff_f000) + (v & 0x1f_ffff)
        < 0x0010_0000_0000_0000 + 0x4000_0000 && (v & 0x1f_ffff) < 0x4000_0000 && (a1
        & 0x000f_ffff_ffff_f000) + (v & 0xfff) < 0x0010_0000_0000_0000 + 0x4000_0000 && (v & 0xfff)
        < 0x4000_0000) by (bit_vector);
}

/// Mapping a page and then resolving an address in it gives the physical page that
/// was mapped, at the same offset, and an entry whose flags are exactly the options:
/// present, and user-accessible and writable just where that was asked for.
///
/// This holds where the mapping can be made at all (a root, and spare frames for the
/// missing tables), for a frame address and options within the twelve low bits, and
/// where no entry in the editor's way at level 3 or 2 carries the huge bit.
pub proof fn law_map_then_resolve(m: MemoryView, root: u64, virt: VirtAddr, phys: u64, opts: u16)
    requires
        m.wf(),
        m.is_table(root, 4),
        m.spare.len() >= m.frames_needed(root, virt, opts),
        opts & BIT_PRESENT != 0,
        frame_ok(phys),
        opts & 0xf000 == 0,
        m.path_clear(root, virt, opts),
    ensures
        m.map(root, virt, phys, opts).wf(),
        m.map(root, virt, phys, opts).resolve(root, virt) == Some(
            (PhysAddr((phys + page_offset(virt, opts)) as u64), leaf_entry(phys, opts)),
        ),
        phys + page_offset(virt, opts) <= u64::MAX,
        leaf_entry(phys, opts).present(),
        leaf_entry(phys, opts).bit(BIT_USER) == (opts & BIT_USER != 0),
        leaf_entry(phys, opts).bit(BIT_WRITABLE) == (opts & BIT_WRITABLE != 0),
        leaf_entry(phys, opts).0 & FLAGS_MASK == (opts & 0x1ff) as u64,
{
    let i4 = virt.index_spec(4);
    let i3 = virt.index_spec(3);
    let i2 = virt.index_spec(2);
    let i1 = virt.index_spec(1);
    virt.lemma_index_range(4);
    virt.lemma_index_range(3);
    virt.lemma_index_range(2);
    virt.lemma_index_range(1);
    lemma_leaf_bits(phys, opts);
    let leaf = leaf_entry(phys, opts);
    lemma_empty_entry();
    let v: u64 = virt.0;
    assert(phys & 0x000f_ffff_ffff_f000 == phys ==> phys + (v & 0x1f_ffff) <= 0xffff_ffff_ffff_ffff
        && phys + (v & 0xfff) <= 0xffff_ffff_ffff_ffff) by (bit_vector);

    lemma_descend(m, root, i4, 4, opts);
    let (m3, t3) = m.descend(root, i4, 4, opts);
    assert(m3.entry(t3, i3) == m.entry(t3, i3) || m3.tables[t3] == empty_table(3));
    lemma_descend(m3, t3, i3, 3, opts);
    let (m2, t2) = m3.descend(t3, i3, 3, opts);
    assert(!m3.entry(t3, i3).huge());
    assert(m2.entry(root, i4) == m3.entry(root, i4));
    if opts & BIT_HUGE != 0 {
        let f = m2.write(t2, i2, leaf);
        crate::paging::lemma_write_wf(m2, t2, i2, leaf);
        assert(f.entry(root, i4) == m2.entry(root, i4));
        assert(f.entry(t3, i3) == m2.entry(t3, i3));
        assert(f.entry(t2, i2) == leaf);
    } else {
        assert(m2.entry(t2, i2) == m3.entry(t2, i2) || m2.tables[t2] == empty_table(2));
        assert(m3.tables.contains_key(t2) ==> m3.entry(t2, i2) == m.entry(t2, i2) || m3.tables[t2]
            == empty_table(2));
        lemma_descend(m2, t2, i2, 2, opts);
        let (m1, t1) = m2.descend(t2, i2, 2, opts);
        assert(!m2.entry(t2, i2).huge());
        let f = m1.write(t1, i1, leaf);
        crate::paging::lemma_write_wf(m1, t1, i1, leaf);
        assert(m1.entry(root, i4) == m2.entry(root, i4));
        assert(m1.entry(t3, i3) == m2.entry(t3, i3));
        assert(f.entry(root, i4) == m1.entry(root, i4));
        assert(f.entry(t3, i3) == m1.entry(t3, i3));
        assert(f.entry(t2, i2) == m1.entry(t2, i2));
        assert(f.entry(t1, i1) == leaf);
    }
}

/// Whether entry `e` lets through what the options ask for: it is present, and
/// writable and user-accessible where the options are.
pub open spec fn grants(e: PTEntry, opts: u16) -> bool {
    &&& e.present()
    &&& opts & BIT_WRITABLE != 0 ==> e.bit(BIT_WRITABLE)
    &&& opts & BIT_USER != 0 ==> e.bit(BIT_USER)
}

/// After a page was mapped, every entry of an upper table on the way to it lets
/// through what the options ask for: the entries at level 4 and 3 and, for a
/// small page, the entry at level 2.
pub proof fn law_map_grants_access_on_the_way(
    m: MemoryView,
    root: u64,
    virt: VirtAddr,
    phys: u64,
    opts: u16,
)
    requires
        m.wf(),
        m.is_table(root, 4),
        m.spare.len() >= m.frames_needed(root, virt, opts),
    ensures
        ({
            let f = m.map(root, virt, phys, opts);
            let e4 = f.entry(root, virt.index_spec(4));
            let e3 = f.entry(e4.frame(), virt.index_spec(3));
            let e2 = f.entry(e3.frame(), virt.index_spec(2));
            &&& grants(e4, opts)
            &&& grants(e3, opts)
            &&& opts & BIT_HUGE == 0 ==> grants(e2, opts)
        }),
{
    let i4 = virt.index_spec(4);
    let i3 = virt.index_spec(3);
    let i2 = virt.index_spec(2);
    let i1 = virt.index_spec(1);
    virt.lemma_index_range(4);
    virt.lemma_index_range(3);
    virt.lemma_index_range(2);
    virt.lemma_index_range(1);
    let leaf = leaf_entry(phys, opts);
    lemma_empty_entry();
    lemma_descend(m, root, i4, 4, opts);
    let (m3, t3) = m.descend(root, i4, 4, opts);
    lemma_linked_bits(m.entry(root, i4), 4, t3, opts);
    assert(m3.entry(t3, i3) == m.entry(t3, i3) || m3.tables[t3] == empty_table(3));
    lemma_descend(m3, t3, i3, 3, opts);
    let (m2, t2) = m3.descend(t3, i3, 3, opts);
    lemma_linked_bits(m3.entry(t3, i3), 3, t2, opts);
    assert(m2.entry(root, i4) == m3.entry(root, i4));
    if opts & BIT_HUGE != 0 {
        let f = m2.write(t2, i2, leaf);
        assert(f.entry(root, i4) == m2.entry(root, i4));
        assert(f.entry(t3, i3) == m2.entry(t3, i3));
    } else {
        assert(m2.entry(t2, i2) == m3.entry(t2, i2) || m2.tables[t2] == empty_table(2));
        assert(m3.tables.contains_key(t2) ==> m3.entry(t2, i2) == m.entry(t2, i2) || m3.tables[t2]
            == empty_table(2));
        lemma_descend(m2, t2, i2, 2, opts);
        let (m1, t1) = m2.descend(t2, i2, 2, opts);
        lemma_linked_bits(m2.entry(t2, i2), 2, t1, opts);
        let f = m1.write(t1, i1, leaf);
        assert(m1.entry(root, i4) == m2.entry(root, i4));
        assert(m1.entry(t3, i3) == m2.entry(t3, i3));
        assert(f.entry(root, i4) == m1.entry(root, i4));
        assert(f.entry(t3, i3) == m1.entry(t3, i3));
        assert(f.entry(t2, i2) == m1.entry(t2, i2));
    }
}

/// Whether the editor, on its way to `virt` under the root at `root`, passes through
/// or writes entry `idx` of the table at `table`.
pub open spec fn edits(m: MemoryView, root: u64, virt: VirtAddr, opts: u16, table: u64, idx: int) -> bool {
    let (m3, t3) = m.descend(root, virt.index_spec(4), 4, opts);
    let (m2, t2) = m3.descend(t3, virt.index_spec(3), 3, opts);
    let (m1, t1) = m2.descend(t2, virt.index_spec(2), 2, opts);
    ||| table == root && idx == virt.index_spec(4)
    ||| table == t3 && idx == virt.index_spec(3)
    ||| table == t2 && idx == virt.index_spec(2)
    ||| opts & BIT_HUGE == 0 && table == t1 && idx == virt.index_spec(1)
}

/// Whether the walk to `other` under the root at `other_root` reads none of the
/// entries that the editor passes through or writes on its way to `virt` under
/// the root at `root`.
pub open spec fn walk_avoids(
    m: MemoryView,
    other_root: u64,
    other: VirtAddr,
    root: u64,
    virt: VirtAddr,
    opts: u16,
) -> bool {
    let e4 = m.entry(other_root, other.index_spec(4));
    let e3 = m.entry(e4.frame(), other.index_spec(3));
    let e2 = m.entry(e3.frame(), other.index_spec(2));
    !m.is_table(other_root, 4) || (!edits(m, root, virt, opts, other_root, other.index_spec(4))
        && (!e4.present() || (!edits(m, root, virt, opts, e4.frame(), other.index_spec(3)) && (
    !e3.present() || e3.huge() || (!edits(m, root, virt, opts, e3.frame(), other.index_spec(2))
        && (!e2.present() || e2.huge() || !edits(
        m,
        root,
        virt,
        opts,
        e2.frame(),
        other.index_spec(1),
    )))))))
}

/// Mapping a page leaves every table in its place and at its level, makes no new
/// root, and changes no entry but those that the editor passes through or writes.
pub proof fn lemma_map_keeps_other_entries(
    m: MemoryView,
    root: u64,
    virt: VirtAddr,
    phys: u64,
    opts: u16,
    f: u64,
    j: int,
)
    requires
        m.wf(),
        m.is_table(root, 4),
        m.spare.len() >= m.frames_needed(root, virt, opts),
        0 <= j < 512,
    ensures
        m.map(root, virt, phys, opts).is_table(f, 4) == m.is_table(f, 4),
        m.tables.contains_key(f) ==> m.map(root, virt, phys, opts).is_table(f, m.tables[f].level),
        m.tables.contains_key(f) && !edits(m, root, virt, opts, f, j) ==> m.map(
            root,
            virt,
            phys,
            opts,
        ).entry(f, j) == m.entry(f, j),
{
    let i4 = virt.index_spec(4);
    let i3 = virt.index_spec(3);
    let i2 = virt.index_spec(2);
    let i1 = virt.index_spec(1);
    virt.lemma_index_range(4);
    virt.lemma_index_range(3);
    virt.lemma_index_range(2);
    virt.lemma_index_range(1);
    let leaf = leaf_entry(phys, opts);
    lemma_leaf_bits(phys, opts);
    lemma_empty_entry();
    lemma_descend(m, root, i4, 4, opts);
    let (m3, t3) = m.descend(root, i4, 4, opts);
    assert(m3.entry(t3, i3) == m.entry(t3, i3) || m3.tables[t3] == empty_table(3));
    lemma_descend(m3, t3, i3, 3, opts);
    let (m2, t2) = m3.descend(t3, i3, 3, opts);
    assert(m2.entry(t2, i2) == m3.entry(t2, i2) || m2.tables[t2] == empty_table(2));
    assert(m3.tables.contains_key(t2) ==> m3.entry(t2, i2) == m.entry(t2, i2) || m3.tables[t2]
        == empty_table(2));
    if opts & BIT_HUGE != 0 {
        let fin = m2.write(t2, i2, leaf);
        lemma_write_wf(m2, t2, i2, leaf);
        if m.tables.contains_key(f) {
            assert(m3.tables.contains_key(f));
            assert(m2.tables.contains_key(f));
            if !edits(m, root, virt, opts, f, j) {
                assert(m3.entry(f, j) == m.entry(f, j));
                assert(m2.entry(f, j) == m3.entry(f, j));
                assert(fin.entry(f, j) == m2.entry(f, j));
            }
        }
    } else {
        lemma_descend(m2, t2, i2, 2, opts);
        let (m1, t1) = m2.descend(t2, i2, 2, opts);
        let fin = m1.write(t1, i1, leaf);
        lemma_write_wf(m1, t1, i1, leaf);
        if m.tables.contains_key(f) {
            assert(m3.tables.contains_key(f));
            assert(m2.tables.contains_key(f));
            assert(m1.tables.contains_key(f));
            if !edits(m, root, virt, opts, f, j) {
                assert(m3.entry(f, j) == m.entry(f, j));
                assert(m2.entry(f, j) == m3.entry(f, j));
                assert(m1.entry(f, j) == m2.entry(f, j));
                assert(fin.entry(f, j) == m1.entry(f, j));
            }
        }
    }
}

/// Mapping a page changes nothing for an address whose walk reads none of the
/// entries that the editor touches: it resolves as before, under any root.
pub proof fn law_map_leaves_other_walks(
    m: MemoryView,
    root: u64,
    virt: VirtAddr,
    phys: u64,
    opts: u16,
    other_root: u64,
    other: VirtAddr,
)
    requires
        m.wf(),
        m.is_table(root, 4),
        m.spare.len() >= m.frames_needed(root, virt, opts),
        walk_avoids(m, other_root, other, root, virt, opts),
    ensures
        m.map(root, virt, phys, opts).resolve(other_root, other) == m.resolve(other_root, other),
{
    let f = m.map(root, virt, phys, opts);
    other.lemma_index_range(4);
    other.lemma_index_range(3);
    other.lemma_index_range(2);
    other.lemma_index_range(1);
    let j4 = other.index_spec(4);
    let j3 = other.index_spec(3);
    let j2 = other.index_spec(2);
    let j1 = other.index_spec(1);
    lemma_map_keeps_other_entries(m, root, virt, phys, opts, other_root, j4);
    if m.is_table(other_root, 4) {
        let e4 = m.entry(other_root, j4);
        if e4.present() {
            assert(links(4, m.entry(other_root, j4)));
            assert(m.is_table(e4.frame(), 3));
            lemma_map_keeps_other_entries(m, root, virt, phys, opts, e4.frame(), j3);
            let e3 = m.entry(e4.frame(), j3);
            if e3.present() && !e3.huge() {
                assert(links(3, m.entry(e4.frame(), j3)));
                assert(m.is_table(e3.frame(), 2));
                lemma_map_keeps_other_entries(m, root, virt, phys, opts, e3.frame(), j2);
                let e2 = m.entry(e3.frame(), j2);
                if e2.present() && !e2.huge() {
                    assert(links(2, m.entry(e3.frame(), j2)));
                    assert(m.is_table(e2.frame(), 1));
                    lemma_map_keeps_other_entries(m, root, virt, phys, opts, e2.frame(), j1);
                }
            }
        }
    }
}

/// What building a new address space leaves behind: every table that was there is
/// untouched; the new root's first entry is present and leads to the new level-3
/// table, whose entries 3 to 6 are the kernel's and whose other entries are empty.
pub proof fn lemma_new_space(m: MemoryView, kernel_root: u64)
    requires
        m.wf(),
        m.is_table(kernel_root, 4),
        m.entry(kernel_root, 0).present(),
        m.spare.len() >= 2,
    ensures
        ({
            let (n, root) = m.new_space(kernel_root);
            let l3 = n.entry(root, 0).frame();
            &&& n.wf()
            &&& n.is_table(root, 4)
            &&& n.is_table(l3, 3)
            &&& !m.tables.contains_key(root)
            &&& !m.tables.contains_key(l3)
            &&& n.entry(root, 0) == MemoryView::first_entry(l3)
            &&& n.entry(root, 0).present()
            &&& n.spare == m.spare.drop_last().drop_last()
            &&& forall|f: u64| #[trigger]
                m.tables.contains_key(f) ==> n.tables.contains_key(f) && n.tables[f] == m.tables[f]
            &&& forall|k: int|
                3 <= k < 7 ==> #[trigger] n.entry(l3, k) == m.entry(m.kernel_l3(kernel_root), k)
            &&& forall|k: int|
                0 <= k < 512 && !(3 <= k < 7) ==> #[trigger] n.entry(l3, k) == PTEntry(0)
            &&& forall|k: int| 1 <= k < 512 ==> #[trigger] n.entry(root, k) == PTEntry(0)
        }),
{
    let k3 = m.kernel_l3(kernel_root);
    assert(links(4, m.entry(kernel_root, 0)));
    assert(m.is_table(k3, 3));
    let l4 = m.spare.last();
    let m1 = m.take_spare(4);
    crate::paging::lemma_take_spare_wf(m, 4);
    let l3 = m1.spare.last();
    let m2 = m1.take_spare(3);
    crate::paging::lemma_take_spare_wf(m1, 3);
    assert(m1.spare[m1.spare.len() - 1] == m.spare[m.spare.len() - 2]);
    assert(l3 != l4);
    crate::paging::lemma_first_entry(l3);
    let w0 = m2.write(l4, 0, MemoryView::first_entry(l3));
    crate::paging::lemma_write_wf(m2, l4, 0, MemoryView::first_entry(l3));
    assert forall|k: int| 3 <= k < 7 && links(3, m.entry(k3, k)) implies m2.is_table(
        m.entry(k3, k).frame(),
        2,
    ) by {
        assert(m.is_table(m.entry(k3, k).frame(), 2));
    }
    let w3 = w0.write(l3, 3, m.entry(k3, 3));
    crate::paging::lemma_write_wf(w0, l3, 3, m.entry(k3, 3));
    let w4 = w3.write(l3, 4, m.entry(k3, 4));
    crate::paging::lemma_write_wf(w3, l3, 4, m.entry(k3, 4));
    let w5 = w4.write(l3, 5, m.entry(k3, 5));
    crate::paging::lemma_write_wf(w4, l3, 5, m.entry(k3, 5));
    let w6 = w5.write(l3, 6, m.entry(k3, 6));
    crate::paging::lemma_write_wf(w5, l3, 6, m.entry(k3, 6));
    assert(w6 == m.new_space(kernel_root).0);
    assert(w6.entry(l4, 0) == w5.entry(l4, 0));
    assert(w5.entry(l4, 0) == w4.entry(l4, 0));
    assert(w4.entry(l4, 0) == w3.entry(l4, 0));
    assert(w3.entry(l4, 0) == w0.entry(l4, 0));
    assert forall|k: int| 3 <= k < 7 implies #[trigger] w6.entry(l3, k) == m.entry(k3, k) by {
        assert(w6.entry(l3, 6) == m.entry(k3, 6));
        assert(w6.entry(l3, 5) == w5.entry(l3, 5));
        assert(w6.entry(l3, 4) == w5.entry(l3, 4));
        assert(w5.entry(l3, 4) == w4.entry(l3, 4));
        assert(w6.entry(l3, 3) == w5.entry(l3, 3));
        assert(w5.entry(l3, 3) == w4.entry(l3, 3));
        assert(w4.entry(l3, 3) == w3.entry(l3, 3));
    }
    assert forall|k: int| 0 <= k < 512 && !(3 <= k < 7) implies #[trigger] w6.entry(l3, k)
        == PTEntry(0) by {
        assert(w6.entry(l3, k) == w5.entry(l3, k));
        assert(w5.entry(l3, k) == w4.entry(l3, k));
        assert(w4.entry(l3, k) == w3.entry(l3, k));
        assert(w3.entry(l3, k) == w0.entry(l3, k));
        assert(w0.entry(l3, k) == m2.entry(l3, k));
    }
    assert forall|k: int| 1 <= k < 512 implies #[trigger] w6.entry(l4, k) == PTEntry(0) by {
        assert(w6.entry(l4, k) == w5.entry(l4, k));
        assert(w5.entry(l4, k) == w4.entry(l4, k));
        assert(w4.entry(l4, k) == w3.entry(l4, k));
        assert(w3.entry(l4, k) == w0.entry(l4, k));
        assert(w0.entry(l4, k) == m2.entry(l4, k));
        assert(m2.tables[l4] == m1.tables[l4]);
    }
    assert forall|f: u64| #[trigger] m.tables.contains_key(f) implies w6.tables.contains_key(f)
        && w6.tables[f] == m.tables[f] by {
        assert(m1.tables[f] == m.tables[f]);
        assert(m2.tables[f] == m1.tables[f]);
    }
    assert(w6.spare =~= m.spare.drop_last().drop_last());
}

/// A new address space resolves every address of the kernel's half, the one that
/// entries 3 to 6 under the first root entry cover, as the kernel's own address
/// space does; and the kernel's address space resolves it as before.
pub proof fn law_new_space_shares_kernel(m: MemoryView, kernel_root: u64, virt: VirtAddr)
    requires
        m.wf(),
        m.is_table(kernel_root, 4),
        m.entry(kernel_root, 0).present(),
        m.spare.len() >= 2,
        virt.index_spec(4) == 0,
        3 <= virt.index_spec(3) < 7,
    ensures
        ({
            let (n, root) = m.new_space(kernel_root);
            &&& n.resolve(root, virt) == m.resolve(kernel_root, virt)
            &&& n.resolve(kernel_root, virt) == m.resolve(kernel_root, virt)
        }),
{
    lemma_new_space(m, kernel_root);
    let (n, root) = m.new_space(kernel_root);
    let k3 = m.kernel_l3(kernel_root);
    let l3 = n.entry(root, 0).frame();
    virt.lemma_index_range(2);
    virt.lemma_index_range(1);
    assert(links(4, m.entry(kernel_root, 0)));
    assert(m.is_table(k3, 3));
    let e3 = m.entry(k3, virt.index_spec(3));
    assert(n.entry(l3, virt.index_spec(3)) == e3);
    assert(n.tables[kernel_root] == m.tables[kernel_root]);
    assert(n.tables[k3] == m.tables[k3]);
    if e3.present() && !e3.huge() {
        assert(links(3, e3));
        assert(m.is_table(e3.frame(), 2));
        assert(n.tables[e3.frame()] == m.tables[e3.frame()]);
        let e2 = m.entry(e3.frame(), virt.index_spec(2));
        if e2.present() && !e2.huge() {
            assert(links(2, e2));
            assert(m.is_table(e2.frame(), 1));
            assert(n.tables[e2.frame()] == m.tables[e2.frame()]);
        }
    }
}

/// Physical to virtual to physical is the identity below 4 GiB: where an address
/// space holds the direct map, the direct-map alias of a physical address resolves
/// to that address.
pub proof fn law_direct_map_round_trip(m: MemoryView, root: u64, p: PhysAddr)
    requires
        m.wf(),
        m.direct_mapped(root),
        p@ < DIRECT_MAP_LIMIT,
    ensures
        p.to_virt_spec() is Some,
        match m.resolve(root, p.to_virt_spec()->0) {
            Some((q, e)) => q == p,
            None => false,
        },
{
    let virt = p.to_virt_spec()->0;
    let a: u64 = p.0;
    let v: u64 = virt.0;
    let i3: u64 = (v >> 30) & 0x1ff;
    let i2: u64 = (v >> 21) & 0x1ff;
    assert(a < 0x1_0000_0000 ==> (v >> 39) & 0x1ff == 0 && 3 <= i3 < 7 && i2 < 512 && (i3 - 3)
        * 0x4000_0000 + (v & 0x3fff_ffff) == a && (i3 - 3) * 0x4000_0000 + i2 * 0x20_0000 + (v
        & 0x1f_ffff) == a) by (bit_vector)
        requires
            v == (a + 0xC000_0000) as u64,
            i3 == (v >> 30) & 0x1ff,
            i2 == (v >> 21) & 0x1ff,
    ;
    let k3 = m.kernel_l3(root);
    let e3 = m.entry(k3, i3 as int);
    assert(e3.present());
    if !e3.huge() {
        let e2 = m.entry(e3.frame(), i2 as int);
        assert(e2.present() && e2.huge());
    }
}

/// A new address space holds the direct map if the kernel's does, and the kernel's
/// keeps it.
pub proof fn law_new_space_direct_mapped(m: MemoryView, kernel_root: u64)
    requires
        m.wf(),
        m.direct_mapped(kernel_root),
        m.spare.len() >= 2,
    ensures
        m.new_space(kernel_root).0.direct_mapped(m.new_space(kernel_root).1),
        m.new_space(kernel_root).0.direct_mapped(kernel_root),
{
    lemma_new_space(m, kernel_root);
    let (n, root) = m.new_space(kernel_root);
    let k3 = m.kernel_l3(kernel_root);
    let l3 = n.entry(root, 0).frame();
    assert(links(4, m.entry(kernel_root, 0)));
    assert(m.is_table(k3, 3));
    assert(n.tables[kernel_root] == m.tables[kernel_root]);
    assert(n.tables[k3] == m.tables[k3]);
    assert forall|k: int| 3 <= k < 7 implies ({
        let e3 = #[trigger] n.entry(n.kernel_l3(root), k);
        &&& e3.present()
        &&& e3.huge() ==> e3.frame() == (k - 3) * 0x4000_0000
        &&& !e3.huge() ==> forall|j: int|
            0 <= j < 512 ==> {
                let e2 = #[trigger] n.entry(e3.frame(), j);
                e2.present() && e2.huge() && e2.frame() == (k - 3) * 0x4000_0000 + j * 0x20_0000
            }
    }) by {
        let e3 = m.entry(k3, k);
        assert(n.entry(l3, k) == e3);
        if !e3.huge() {
            assert(links(3, e3));
            assert(m.is_table(e3.frame(), 2));
            assert(n.tables[e3.frame()] == m.tables[e3.frame()]);
            assert forall|j: int| 0 <= j < 512 implies ({
                let e2 = #[trigger] n.entry(e3.frame(), j);
                e2.present() && e2.huge() && e2.frame() == (k - 3) * 0x4000_0000 + j * 0x20_0000
            }) by {
                assert(n.entry(e3.frame(), j) == m.entry(e3.frame(), j));
            }
        }
    }
    assert forall|k: int| 3 <= k < 7 implies ({
        let e3 = #[trigger] n.entry(n.kernel_l3(kernel_root), k);
        &&& e3.present()
        &&& e3.huge() ==> e3.frame() == (k - 3) * 0x4000_0000
        &&& !e3.huge() ==> forall|j: int|
            0 <= j < 512 ==> {
                let e2 = #[trigger] n.entry(e3.frame(), j);
                e2.present() && e2.huge() && e2.frame() == (k - 3) * 0x4000_0000 + j * 0x20_0000
            }
    }) by {
        let e3 = m.entry(k3, k);
        assert(n.entry(k3, k) == e3);
        if !e3.huge() {
            assert(links(3, e3));
            assert(m.is_table(e3.frame(), 2));
            assert(n.tables[e3.frame()] == m.tables[e3.frame()]);
            assert forall|j: int| 0 <= j < 512 implies ({
                let e2 = #[trigger] n.entry(e3.frame(), j);
                e2.present() && e2.huge() && e2.frame() == (k - 3) * 0x4000_0000 + j * 0x20_0000
            }) by {
                assert(n.entry(e3.frame(), j) == m.entry(e3.frame(), j));
            }
        }
    }
}

/// Whether `virt` lies in the kernel's half of an address space: under entries 3 to
/// 6 of the table under the first root entry.
pub open spec fn in_kernel_half(virt: VirtAddr) -> bool {
    virt.index_spec(4) == 0 && 3 <= virt.index_spec(3) < 7
}

/// Whether the address space under the root at `root`, whose first entry leads to
/// the table at `l3`, keeps to itself with respect to an earlier store `old`: the
/// tables of `old` are all there unchanged; `root` and `l3` are not among them;
/// and of the tables that are not among them, only `l3` leads into them, through
/// its entries 3 to 6, and only the first root entry leads to `l3`.
pub open spec fn keeps_to_itself(m: MemoryView, old: MemoryView, root: u64, l3: u64) -> bool {
    &&& m.is_table(root, 4) && !old.tables.contains_key(root)
    &&& m.is_table(l3, 3) && !old.tables.contains_key(l3)
    &&& m.entry(root, 0).present() && m.entry(root, 0).frame() == l3
    &&& forall|f: u64| #[trigger]
        old.tables.contains_key(f) ==> m.tables.contains_key(f) && m.tables[f] == old.tables[f]
    &&& forall|f: u64, j: int|
        m.tables.contains_key(f) && !old.tables.contains_key(f) && 0 <= j < 512
            && m.tables[f].level >= 2 && links(m.tables[f].level, #[trigger] m.entry(f, j)) ==> {
            &&& !(f == l3 && 3 <= j < 7) ==> !old.tables.contains_key(m.entry(f, j).frame())
            &&& m.entry(f, j).frame() == l3 ==> f == root && j == 0
        }
}

/// Mapping a page outside the kernel's half, in an address space that keeps to
/// itself, leaves it keeping to itself, with entries 3 to 6 of its level-3 table
/// as they were.
pub proof fn lemma_map_keeps_to_itself(
    m: MemoryView,
    old: MemoryView,
    root: u64,
    l3: u64,
    virt: VirtAddr,
    phys: u64,
    opts: u16,
)
    requires
        m.wf(),
        keeps_to_itself(m, old, root, l3),
        m.spare.len() >= m.frames_needed(root, virt, opts),
        !in_kernel_half(virt),
    ensures
        m.map(root, virt, phys, opts).wf(),
        keeps_to_itself(m.map(root, virt, phys, opts), old, root, l3),
        forall|k: int|
            3 <= k < 7 ==> #[trigger] m.map(root, virt, phys, opts).entry(l3, k) == m.entry(l3, k),
{
    let i4 = virt.index_spec(4);
    let i3 = virt.index_spec(3);
    let i2 = virt.index_spec(2);
    let i1 = virt.index_spec(1);
    virt.lemma_index_range(4);
    virt.lemma_index_range(3);
    virt.lemma_index_range(2);
    virt.lemma_index_range(1);
    let leaf = leaf_entry(phys, opts);
    lemma_leaf_bits(phys, opts);
    lemma_empty_entry();
    // the editor's way leads through tables of the address space's own
    lemma_descend(m, root, i4, 4, opts);
    let (m3, t3) = m.descend(root, i4, 4, opts);
    let e4 = m.entry(root, i4);
    assert(!old.tables.contains_key(t3) && (t3 == l3 ==> i4 == 0)) by {
        if !needs_table(4, e4) {
            assert(links(4, m.entry(root, i4)));
        }
    }
    assert(m3.entry(t3, i3) == m.entry(t3, i3) || m3.tables[t3] == empty_table(3));
    lemma_descend(m3, t3, i3, 3, opts);
    let (m2, t2) = m3.descend(t3, i3, 3, opts);
    let e3 = m3.entry(t3, i3);
    assert(!old.tables.contains_key(t2)) by {
        if !needs_table(3, e3) {
            assert(m.tables.contains_key(t3));
            assert(e3 == m.entry(t3, i3));
            assert(links(3, m.entry(t3, i3)));
        }
    }
    assert(m2.entry(t2, i2) == m3.entry(t2, i2) || m2.tables[t2] == empty_table(2));
    assert(m3.tables.contains_key(t2) ==> m3.entry(t2, i2) == m.entry(t2, i2) || m3.tables[t2]
        == empty_table(2));
    lemma_map_keeps_other_entries(m, root, virt, phys, opts, root, 0);
    let fin = m.map(root, virt, phys, opts);
    let t1 = if opts & BIT_HUGE != 0 {
        t2
    } else {
        m2.descend(t2, i2, 2, opts).1
    };
    if opts & BIT_HUGE != 0 {
        lemma_write_wf(m2, t2, i2, leaf);
    } else {
        lemma_descend(m2, t2, i2, 2, opts);
        let (m1, tt) = m2.descend(t2, i2, 2, opts);
        let e2 = m2.entry(t2, i2);
        assert(!old.tables.contains_key(tt)) by {
            if !needs_table(2, e2) {
                assert(m2.tables.contains_key(t2));
                if m.tables.contains_key(t2) {
                    assert(e2 == m.entry(t2, i2));
                    assert(links(2, m.entry(t2, i2)));
                }
            }
        }
        lemma_write_wf(m1, tt, i1, leaf);
    }
    // what is not on the editor's way is as before
    assert forall|f: u64, j: int|
        m.tables.contains_key(f) && 0 <= j < 512 && !edits(m, root, virt, opts, f, j) implies fin.entry(
        f,
        j,
    ) == m.entry(f, j) && fin.is_table(f, m.tables[f].level) by {
        lemma_map_keeps_other_entries(m, root, virt, phys, opts, f, j);
    }
    assert forall|f: u64| #[trigger] old.tables.contains_key(f) implies fin.tables.contains_key(f)
        && fin.tables[f] == old.tables[f] by {
        assert(m.tables.contains_key(f) && m.tables[f] == old.tables[f]);
        lemma_map_keeps_other_entries(m, root, virt, phys, opts, f, 0);
        assert forall|j: int| 0 <= j < 512 implies fin.tables[f].entries[j]
            == m.tables[f].entries[j] by {
            assert(!edits(m, root, virt, opts, f, j));
            assert(fin.entry(f, j) == m.entry(f, j));
        }
        assert(fin.tables[f].entries.len() == 512);
        assert(fin.tables[f].entries =~= m.tables[f].entries);
    }
    assert forall|k: int| 3 <= k < 7 implies #[trigger] fin.entry(l3, k) == m.entry(l3, k) by {
        assert(!edits(m, root, virt, opts, l3, k));
    }
    // the first root entry still leads to the level-3 table
    assert(fin.entry(root, 0).present() && fin.entry(root, 0).frame() == l3) by {
        if i4 == 0 {
            assert(t3 == l3);
            assert(m3.entry(root, 0).frame() == t3);
            if opts & BIT_HUGE != 0 {
                assert(m2.entry(root, 0) == m3.entry(root, 0));
                assert(fin.entry(root, 0) == m2.entry(root, 0));
            } else {
                let (m1, tt) = m2.descend(t2, i2, 2, opts);
                assert(m2.entry(root, 0) == m3.entry(root, 0));
                assert(m1.entry(root, 0) == m2.entry(root, 0));
                assert(fin.entry(root, 0) == m1.entry(root, 0));
            }
        } else {
            assert(!edits(m, root, virt, opts, root, 0));
        }
    }
    lemma_map_keeps_other_entries(m, root, virt, phys, opts, l3, 0);
    assert forall|f: u64, j: int|
        fin.tables.contains_key(f) && !old.tables.contains_key(f) && 0 <= j < 512
            && fin.tables[f].level >= 2 && links(
            fin.tables[f].level,
            #[trigger] fin.entry(f, j),
        ) implies {
        &&& !(f == l3 && 3 <= j < 7) ==> !old.tables.contains_key(fin.entry(f, j).frame())
        &&& fin.entry(f, j).frame() == l3 ==> f == root && j == 0
    } by {
        lemma_map_links(m, root, virt, phys, opts, f, j);
        if m.tables.contains_key(f) && !edits(m, root, virt, opts, f, j) {
            assert(fin.entry(f, j) == m.entry(f, j));
            assert(fin.tables[f].level == m.tables[f].level);
            assert(links(m.tables[f].level, m.entry(f, j)));
        }
    }
}

/// What an entry that links is after a page was mapped: an entry that the editor
/// did not touch, or an entry on the editor's way, which leads to the next table
/// on that way; the entries of new tables that are not on the way link nothing.
proof fn lemma_map_links(
    m: MemoryView,
    root: u64,
    virt: VirtAddr,
    phys: u64,
    opts: u16,
    f: u64,
    j: int,
)
    requires
        m.wf(),
        m.is_table(root, 4),
        m.spare.len() >= m.frames_needed(root, virt, opts),
        0 <= j < 512,
        m.map(root, virt, phys, opts).tables.contains_key(f),
        m.map(root, virt, phys, opts).tables[f].level >= 2,
        links(m.map(root, virt, phys, opts).tables[f].level, m.map(root, virt, phys, opts).entry(f, j)),
    ensures
        ({
            let fin = m.map(root, virt, phys, opts);
            let (m3, t3) = m.descend(root, virt.index_spec(4), 4, opts);
            let (m2, t2) = m3.descend(t3, virt.index_spec(3), 3, opts);
            let (m1, t1) = m2.descend(t2, virt.index_spec(2), 2, opts);
            ||| m.tables.contains_key(f) && !edits(m, root, virt, opts, f, j)
            ||| f == root && j == virt.index_spec(4) && fin.entry(f, j).frame() == t3
            ||| f == t3 && j == virt.index_spec(3) && fin.entry(f, j).frame() == t2
            ||| opts & BIT_HUGE == 0 && f == t2 && j == virt.index_spec(2) && fin.entry(f, j).frame()
                == t1
        }),
{
    let i4 = virt.index_spec(4);
    let i3 = virt.index_spec(3);
    let i2 = virt.index_spec(2);
    let i1 = virt.index_spec(1);
    virt.lemma_index_range(4);
    virt.lemma_index_range(3);
    virt.lemma_index_range(2);
    virt.lemma_index_range(1);
    let leaf = leaf_entry(phys, opts);
    lemma_leaf_bits(phys, opts);
    lemma_empty_entry();
    lemma_descend(m, root, i4, 4, opts);
    let (m3, t3) = m.descend(root, i4, 4, opts);
    assert(m3.entry(t3, i3) == m.entry(t3, i3) || m3.tables[t3] == empty_table(3));
    lemma_descend(m3, t3, i3, 3, opts);
    let (m2, t2) = m3.descend(t3, i3, 3, opts);
    assert(m2.entry(t2, i2) == m3.entry(t2, i2) || m2.tables[t2] == empty_table(2));
    assert(m3.tables.contains_key(t2) ==> m3.entry(t2, i2) == m.entry(t2, i2) || m3.tables[t2]
        == empty_table(2));
    let fin = m.map(root, virt, phys, opts);
    if opts & BIT_HUGE != 0 {
        lemma_write_wf(m2, t2, i2, leaf);
        if f == t2 && j == i2 {
            assert(fin.entry(f, j) == leaf);
        } else if f == t3 && j == i3 {
            assert(fin.entry(f, j) == m2.entry(f, j));
        } else if f == root && j == i4 {
            assert(m2.entry(f, j) == m3.entry(f, j));
            assert(fin.entry(f, j) == m2.entry(f, j));
        } else if m.tables.contains_key(f) {
        } else {
            // a new table: all of it but the entry on the way is empty
            assert(m2.tables.contains_key(f));
            if m3.tables.contains_key(f) {
                assert(f == t3);
                assert(m3.tables[t3] == empty_table(3));
                assert(m2.entry(f, j) == m3.entry(f, j));
                assert(fin.entry(f, j) == m2.entry(f, j));
            } else {
                assert(f == t2);
                assert(m2.tables[t2] == empty_table(2));
                assert(fin.entry(f, j) == m2.entry(f, j));
            }
        }
    } else {
        lemma_descend(m2, t2, i2, 2, opts);
        let (m1, t1) = m2.descend(t2, i2, 2, opts);
        lemma_write_wf(m1, t1, i1, leaf);
        if f == t1 {
            assert(fin.tables[f].level == 1);
        } else if f == t2 && j == i2 {
            assert(fin.entry(f, j) == m1.entry(f, j));
        } else if f == t3 && j == i3 {
            assert(m1.entry(f, j) == m2.entry(f, j));
            assert(fin.entry(f, j) == m1.entry(f, j));
        } else if f == root && j == i4 {
            assert(m2.entry(f, j) == m3.entry(f, j));
            assert(m1.entry(f, j) == m2.entry(f, j));
            assert(fin.entry(f, j) == m1.entry(f, j));
        } else if m.tables.contains_key(f) {
        } else {
            assert(m1.tables.contains_key(f));
            if m3.tables.contains_key(f) {
                assert(f == t3);
                assert(m3.tables[t3] == empty_table(3));
                assert(m2.entry(f, j) == m3.entry(f, j));
                assert(m1.entry(f, j) == m2.entry(f, j));
                assert(fin.entry(f, j) == m1.entry(f, j));
            } else if m2.tables.contains_key(f) {
                assert(f == t2);
                assert(m2.tables[t2] == empty_table(2));
                assert(m1.entry(f, j) == m2.entry(f, j));
                assert(fin.entry(f, j) == m1.entry(f, j));
            } else {
                assert(f == t1);
            }
        }
    }
}

/// Mapping pages outside the kernel's half one after the other, in an address space
/// that keeps to itself, leaves it keeping to itself, with entries 3 to 6 of its
/// level-3 table as they were.
proof fn lemma_map_many_keeps_to_itself(
    m: MemoryView,
    old: MemoryView,
    root: u64,
    l3: u64,
    pages: Seq<Mapping>,
)
    requires
        m.wf(),
        keeps_to_itself(m, old, root, l3),
        forall|i: int| 0 <= i < pages.len() ==> !in_kernel_half((#[trigger] pages[i]).virt),
    ensures
        m.map_many(root, pages).0.wf(),
        keeps_to_itself(m.map_many(root, pages).0, old, root, l3),
        forall|k: int|
            3 <= k < 7 ==> #[trigger] m.map_many(root, pages).0.entry(l3, k) == m.entry(l3, k),
    decreases pages.len(),
{
    if pages.len() > 0 && m.spare.len() >= m.frames_needed(root, pages[0].virt, pages[0].opts) {
        let next = m.map(root, pages[0].virt, pages[0].phys@, pages[0].opts);
        lemma_map_keeps_to_itself(m, old, root, l3, pages[0].virt, pages[0].phys@, pages[0].opts);
        let rest = pages.skip(1);
        assert forall|i: int| 0 <= i < rest.len() implies !in_kernel_half(
            (#[trigger] rest[i]).virt,
        ) by {
            assert(rest[i] == pages[i + 1]);
        }
        lemma_map_many_keeps_to_itself(next, old, root, l3, rest);
        assert forall|k: int| 3 <= k < 7 implies #[trigger] m.map_many(root, pages).0.entry(l3, k)
            == m.entry(l3, k) by {
            assert(next.entry(l3, k) == m.entry(l3, k));
        }
    }
}

/// The address space of a task whose pages all lie outside the kernel's half holds
/// the direct map, as the kernel's address space still does, and building it
/// changes no table that was there before.
pub proof fn law_task_space_keeps_direct_map(m: MemoryView, kernel_root: u64, pages: Seq<Mapping>)
    requires
        m.wf(),
        m.direct_mapped(kernel_root),
        m.spare.len() >= 2,
        forall|i: int| 0 <= i < pages.len() ==> !in_kernel_half((#[trigger] pages[i]).virt),
    ensures
        ({
            let (n, root, done) = m.task_space(kernel_root, pages);
            &&& n.wf()
            &&& n.direct_mapped(root)
            &&& n.direct_mapped(kernel_root)
            &&& forall|f: u64| #[trigger]
                m.tables.contains_key(f) ==> n.tables.contains_key(f) && n.tables[f] == m.tables[f]
        }),
{
    lemma_new_space(m, kernel_root);
    law_new_space_direct_mapped(m, kernel_root);
    let (s, root) = m.new_space(kernel_root);
    let l3 = s.entry(root, 0).frame();
    let k3 = m.kernel_l3(kernel_root);
    assert(links(4, m.entry(kernel_root, 0)));
    assert(m.is_table(k3, 3));
    lemma_empty_entry();
    crate::paging::lemma_first_entry(l3);
    assert forall|f: u64, j: int|
        s.tables.contains_key(f) && !m.tables.contains_key(f) && 0 <= j < 512 && s.tables[f].level
            >= 2 && links(s.tables[f].level, #[trigger] s.entry(f, j)) implies {
        &&& !(f == l3 && 3 <= j < 7) ==> !m.tables.contains_key(s.entry(f, j).frame())
        &&& s.entry(f, j).frame() == l3 ==> f == root && j == 0
    } by {
        assert(s.is_table(s.entry(f, j).frame(), s.tables[f].level - 1));
        if f == root {
            if j != 0 {
                assert(s.entry(root, j) == PTEntry(0));
            }
        } else if f == l3 {
            if !(3 <= j < 7) {
                assert(s.entry(l3, j) == PTEntry(0));
            }
        } else {
            assert(s.spare == m.spare.drop_last().drop_last());
            assert(s.tables.dom() =~= m.tables.dom().insert(root).insert(l3)) by {
                let l4f = m.spare.last();
                let m1 = m.take_spare(4);
                let l3f = m1.spare.last();
                let m2 = m1.take_spare(3);
                assert(root == l4f);
                assert(m2.tables.dom() =~= m.tables.dom().insert(l4f).insert(l3f));
                let w0 = m2.write(l4f, 0, MemoryView::first_entry(l3f));
                assert(w0.tables.dom() =~= m2.tables.dom());
                let w3 = w0.write(l3f, 3, m.entry(k3, 3));
                assert(w3.tables.dom() =~= w0.tables.dom());
                let w4 = w3.write(l3f, 4, m.entry(k3, 4));
                assert(w4.tables.dom() =~= w3.tables.dom());
                let w5 = w4.write(l3f, 5, m.entry(k3, 5));
                assert(w5.tables.dom() =~= w4.tables.dom());
                let w6 = w5.write(l3f, 6, m.entry(k3, 6));
                assert(w6.tables.dom() =~= w5.tables.dom());
                assert(w6.entry(l4f, 0) == w5.entry(l4f, 0));
                assert(w5.entry(l4f, 0) == w4.entry(l4f, 0));
                assert(w4.entry(l4f, 0) == w3.entry(l4f, 0));
                assert(w3.entry(l4f, 0) == w0.entry(l4f, 0));
                assert(l3 == l3f);
            }
            assert(false);
        }
    }
    assert(keeps_to_itself(s, m, root, l3));
    lemma_map_many_keeps_to_itself(s, m, root, l3, pages);
    let n = s.map_many(root, pages).0;
    assert(n == m.task_space(kernel_root, pages).0);
    // the direct map of the kernel's address space lies in tables that were there before
    assert(n.tables[kernel_root] == m.tables[kernel_root]);
    assert(n.tables[k3] == m.tables[k3]);
    assert forall|k: int| 3 <= k < 7 implies ({
        let e3 = #[trigger] n.entry(n.kernel_l3(kernel_root), k);
        &&& e3.present()
        &&& e3.huge() ==> e3.frame() == (k - 3) * 0x4000_0000
        &&& !e3.huge() ==> forall|j: int|
            0 <= j < 512 ==> {
                let e2 = #[trigger] n.entry(e3.frame(), j);
                e2.present() && e2.huge() && e2.frame() == (k - 3) * 0x4000_0000 + j * 0x20_0000
            }
    }) by {
        let e3 = m.entry(k3, k);
        assert(n.entry(k3, k) == e3);
        if !e3.huge() {
            assert(links(3, e3));
            assert(m.is_table(e3.frame(), 2));
            assert(n.tables[e3.frame()] == m.tables[e3.frame()]);
            assert forall|j: int| 0 <= j < 512 implies ({
                let e2 = #[trigger] n.entry(e3.frame(), j);
                e2.present() && e2.huge() && e2.frame() == (k - 3) * 0x4000_0000 + j * 0x20_0000
            }) by {
                assert(n.entry(e3.frame(), j) == m.entry(e3.frame(), j));
            }
        }
    }
    // and that of the task's address space lies in the same tables
    assert forall|k: int| 3 <= k < 7 implies ({
        let e3 = #[trigger] n.entry(n.kernel_l3(root), k);
        &&& e3.present()
        &&& e3.huge() ==> e3.frame() == (k - 3) * 0x4000_0000
        &&& !e3.huge() ==> forall|j: int|
            0 <= j < 512 ==> {
                let e2 = #[trigger] n.entry(e3.frame(), j);
                e2.present() && e2.huge() && e2.frame() == (k - 3) * 0x4000_0000 + j * 0x20_0000
            }
    }) by {
        let e3 = m.entry(k3, k);
        assert(n.entry(l3, k) == s.entry(l3, k));
        assert(s.entry(l3, k) == e3);
        if !e3.huge() {
            assert(links(3, e3));
            assert(m.is_table(e3.frame(), 2));
            assert(n.tables[e3.frame()] == m.tables[e3.frame()]);
            assert forall|j: int| 0 <= j < 512 implies ({
                let e2 = #[trigger] n.entry(e3.frame(), j);
                e2.present() && e2.huge() && e2.frame() == (k - 3) * 0x4000_0000 + j * 0x20_0000
            }) by {
                assert(n.entry(e3.frame(), j) == m.entry(e3.frame(), j));
            }
        }
    }
}

/// What mapping a huge page leaves on the editor's way: the root entry leads to the
/// level-3 table, whose entry leads to the level-2 table, whose entry maps the
/// page. An entry that led to a table before leads to the same table, and the
/// huge bit of the level-3 entry is as before.
pub proof fn lemma_huge_map_path(m: MemoryView, root: u64, virt: VirtAddr, phys: u64, opts: u16)
    requires
        m.wf(),
        m.is_table(root, 4),
        m.spare.len() >= m.frames_needed(root, virt, opts),
        opts & BIT_HUGE != 0,
    ensures
        ({
            let fin = m.map(root, virt, phys, opts);
            let e4 = m.entry(root, virt.index_spec(4));
            let (m3, t3) = m.descend(root, virt.index_spec(4), 4, opts);
            let e3 = m3.entry(t3, virt.index_spec(3));
            let (m2, t2) = m3.descend(t3, virt.index_spec(3), 3, opts);
            &&& fin.wf()
            &&& fin.is_table(root, 4)
            &&& fin.is_table(t3, 3)
            &&& fin.is_table(t2, 2)
            &&& fin.entry(root, virt.index_spec(4)).present()
            &&& fin.entry(root, virt.index_spec(4)).frame() == t3
            &&& fin.entry(t3, virt.index_spec(3)).present()
            &&& fin.entry(t3, virt.index_spec(3)).frame() == t2
            &&& fin.entry(t3, virt.index_spec(3)).huge() == e3.huge()
            &&& fin.entry(t2, virt.index_spec(2)) == leaf_entry(phys, opts)
            &&& fin.spare.len() == m.spare.len() - m.frames_needed(root, virt, opts)
            &&& if needs_table(4, e4) {
                !m.tables.contains_key(t3) && !m.tables.contains_key(t2) && e3 == PTEntry(0)
                    && m.frames_needed(root, virt, opts) == 2
            } else {
                &&& t3 == e4.frame()
                &&& e3 == m.entry(t3, virt.index_spec(3))
                &&& if needs_table(3, e3) {
                    !m.tables.contains_key(t2) && m.frames_needed(root, virt, opts) == 1
                } else {
                    t2 == e3.frame() && m.frames_needed(root, virt, opts) == 0
                }
            }
            &&& forall|f: u64, j: int|
                m.tables.contains_key(f) && 0 <= j < 512 && !(f == root && j == virt.index_spec(4))
                    && !(f == t3 && j == virt.index_spec(3)) && !(f == t2 && j == virt.index_spec(
                    2,
                )) ==> #[trigger] fin.entry(f, j) == m.entry(f, j)
            &&& forall|j: int|
                0 <= j < 512 && !m.tables.contains_key(t3) && j != virt.index_spec(3)
                    ==> #[trigger] fin.entry(t3, j) == PTEntry(0)
            &&& forall|j: int|
                0 <= j < 512 && !m.tables.contains_key(t2) && j != virt.index_spec(2)
                    ==> #[trigger] fin.entry(t2, j) == PTEntry(0)
        }),
{
    let i4 = virt.index_spec(4);
    let i3 = virt.index_spec(3);
    let i2 = virt.index_spec(2);
    virt.lemma_index_range(4);
    virt.lemma_index_range(3);
    virt.lemma_index_range(2);
    let leaf = leaf_entry(phys, opts);
    lemma_leaf_bits(phys, opts);
    lemma_empty_entry();
    lemma_descend(m, root, i4, 4, opts);
    let (m3, t3) = m.descend(root, i4, 4, opts);
    assert(m3.entry(t3, i3) == m.entry(t3, i3) || m3.tables[t3] == empty_table(3));
    lemma_descend(m3, t3, i3, 3, opts);
    let (m2, t2) = m3.descend(t3, i3, 3, opts);
    let fin = m2.write(t2, i2, leaf);
    lemma_write_wf(m2, t2, i2, leaf);
    assert(m2.entry(root, i4) == m3.entry(root, i4));
    assert(fin.entry(root, i4) == m2.entry(root, i4));
    assert(fin.entry(t3, i3) == m2.entry(t3, i3));
    assert forall|f: u64, j: int|
        m.tables.contains_key(f) && 0 <= j < 512 && !(f == root && j == i4) && !(f == t3 && j
            == i3) && !(f == t2 && j == i2) implies #[trigger] fin.entry(f, j) == m.entry(f, j) by {
        assert(m3.tables.contains_key(f));
        assert(m3.entry(f, j) == m.entry(f, j));
        assert(m2.entry(f, j) == m3.entry(f, j));
        assert(fin.entry(f, j) == m2.entry(f, j));
    }
    assert forall|j: int|
        0 <= j < 512 && !m.tables.contains_key(t3) && j != i3 implies #[trigger] fin.entry(t3, j)
        == PTEntry(0) by {
        assert(m3.tables[t3] == empty_table(3));
        assert(m2.entry(t3, j) == m3.entry(t3, j));
        assert(fin.entry(t3, j) == m2.entry(t3, j));
    }
    assert forall|j: int|
        0 <= j < 512 && !m.tables.contains_key(t2) && j != i2 implies #[trigger] fin.entry(t2, j)
        == PTEntry(0) by {
        if m3.tables.contains_key(t2) {
            // then it is the level-3 table made in the first step, which it is not
            assert(m3.is_table(t2, 2) || !m3.tables.contains_key(t2));
            assert(false);
        }
        assert(m2.tables[t2] == empty_table(2));
        assert(fin.entry(t2, j) == m2.entry(t2, j));
    }
}

/// The entry of the level-3 table that page `q` of the kernel's address space lies
/// under: the first for the low gigabyte, entries 3 to 6 for the direct map.
pub open spec fn kernel_slot(q: int) -> int {
    if q < 512 {
        0
    } else {
        3 + (q - 512) / 512
    }
}

/// The entry of its level-2 table that page `q` of the kernel's address space takes.
pub open spec fn kernel_place(q: int) -> int {
    if q < 512 {
        q
    } else {
        (q - 512) % 512
    }
}

/// Whether entry `j` of the level-3 table is in use when the first `n` pages of the
/// kernel's address space are mapped.
pub open spec fn slot_in_use(n: int, j: int) -> bool {
    (n >= 1 && j == 0) || (n > 512 && 3 <= j <= 3 + (n - 513) / 512)
}

/// How many tables the first `n` pages of the kernel's address space take.
pub open spec fn tables_made(n: int) -> int {
    if n == 0 {
        0
    } else if n <= 512 {
        2
    } else {
        3 + (n - 513) / 512
    }
}

/// Whether the first `n` pages of the kernel's address space are in place under the
/// root at `root`, and nothing else is.
pub open spec fn kernel_pages_in_place(m: MemoryView, root: u64, n: int) -> bool {
    let l3 = m.entry(root, 0).frame();
    &&& m.wf()
    &&& m.is_table(root, 4)
    &&& m.spare.len() + tables_made(n) >= 6
    &&& n == 0 ==> m.tables[root] == empty_table(4)
    &&& n >= 1 ==> {
        &&& m.entry(root, 0).present()
        &&& forall|j: int|
            0 <= j < 512 ==> !(#[trigger] m.entry(l3, j)).huge() && (slot_in_use(n, j) ==> m.entry(
                l3,
                j,
            ).present()) && (!slot_in_use(n, j) ==> m.entry(l3, j) == PTEntry(0))
        &&& forall|j: int, k: int|
            slot_in_use(n, j) && slot_in_use(n, k) && (#[trigger] m.entry(l3, j)).frame() == (
            #[trigger] m.entry(l3, k)).frame() ==> j == k
        &&& forall|q: int|
            0 <= q < n ==> m.entry(m.entry(l3, kernel_slot(q)).frame(), kernel_place(q))
                == #[trigger] kernel_leaf(q)
    }
}

/// The entry that maps page `q` of the kernel's address space.
pub open spec fn kernel_leaf(q: int) -> PTEntry {
    leaf_entry(kernel_mapping(q).phys@, KERNEL_PAGE_OPTS)
}

/// Where page `q` of the kernel's address space lies in the tables, and what its
/// entry is.
pub proof fn lemma_kernel_page(q: int)
    requires
        0 <= q < 2560,
    ensures
        kernel_mapping(q).virt.index_spec(4) == 0,
        kernel_mapping(q).virt.index_spec(3) == kernel_slot(q),
        kernel_mapping(q).virt.index_spec(2) == kernel_place(q),
        kernel_mapping(q).opts == KERNEL_PAGE_OPTS,
        KERNEL_PAGE_OPTS & BIT_HUGE != 0,
        kernel_leaf(q).present(),
        kernel_leaf(q).huge(),
        kernel_leaf(q).frame() == kernel_mapping(q).phys@,
        q >= 512 ==> kernel_mapping(q).phys@ == (kernel_slot(q) - 3) * 0x4000_0000 + kernel_place(q)
            * 0x20_0000,
        0 <= kernel_place(q) < 512,
        slot_in_use(q + 1, kernel_slot(q)),
{
    let n: u64 = q as u64;
    let low: u64 = (n * 0x20_0000) as u64;
    let k: u64 = if n >= 512 {
        (n - 512) as u64
    } else {
        0
    };
    let high_phys: u64 = (k * 0x20_0000) as u64;
    let high: u64 = (0xC000_0000 + high_phys) as u64;
    assert(n < 512 ==> (low >> 39) & 0x1ff == 0 && (low >> 30) & 0x1ff == 0 && (low >> 21) & 0x1ff
        == n && low & 0x000f_ffff_ffff_f000 == low) by (bit_vector)
        requires
            low == n * 0x20_0000,
    ;
    assert(k < 2048 ==> (high >> 39) & 0x1ff == 0 && (high >> 30) & 0x1ff == 3 + k / 512 && (high
        >> 21) & 0x1ff == k % 512 && high_phys & 0x000f_ffff_ffff_f000 == high_phys && high_phys
        == (k / 512) * 0x4000_0000 + (k % 512) * 0x20_0000) by (bit_vector)
        requires
            high_phys == k * 0x20_0000,
            high == 0xC000_0000 + high_phys,
    ;
    assert(0x83u16 & 0x80 != 0 && 0x83u16 & 1 != 0 && 0x83u16 & 0xf000 == 0) by (bit_vector);
    lemma_leaf_bits(kernel_mapping(q).phys@, KERNEL_PAGE_OPTS);
}

/// Two pages of the kernel's address space that lie under the same entry of the
/// level-3 table take different entries of their level-2 table.
proof fn lemma_kernel_places_differ(q: int, r: int)
    requires
        0 <= q < r < 2560,
        kernel_slot(q) == kernel_slot(r),
    ensures
        kernel_place(q) != kernel_place(r),
{
}

/// Mapping the next page of the kernel's address space, when the pages before it
/// are in place, puts it in place beside them.
proof fn lemma_kernel_step(m: MemoryView, root: u64, n: int)
    requires
        0 <= n < 2560,
        kernel_pages_in_place(m, root, n),
    ensures
        m.spare.len() >= m.frames_needed(
            root,
            kernel_mapping(n).virt,
            kernel_mapping(n).opts,
        ),
        kernel_pages_in_place(
            m.map(root, kernel_mapping(n).virt, kernel_mapping(n).phys@, kernel_mapping(n).opts),
            root,
            n + 1,
        ),
{
    let p = kernel_mapping(n);
    let opts = KERNEL_PAGE_OPTS;
    lemma_kernel_page(n);
    lemma_empty_entry();
    let i3 = kernel_slot(n);
    let i2 = kernel_place(n);
    let e4 = m.entry(root, 0);
    // how many tables the page takes
    if n == 0 {
        assert(e4 == PTEntry(0));
        assert(m.frames_needed(root, p.virt, opts) == 2);
    } else {
        let l3 = e4.frame();
        assert(links(4, m.entry(root, 0)));
        assert(m.is_table(l3, 3));
        let e3 = m.entry(l3, i3);
        if slot_in_use(n, i3) {
            assert(!needs_table(3, e3));
            assert(m.frames_needed(root, p.virt, opts) == 0);
            assert(tables_made(n + 1) == tables_made(n));
        } else {
            assert(e3 == PTEntry(0));
            assert(m.frames_needed(root, p.virt, opts) == 1);
            assert(tables_made(n + 1) == tables_made(n) + 1);
        }
    }
    lemma_huge_map_path(m, root, p.virt, p.phys@, opts);
    let fin = m.map(root, p.virt, p.phys@, opts);
    let (m3, t3) = m.descend(root, 0, 4, opts);
    let (m2, t2) = m3.descend(t3, i3, 3, opts);
    let l3 = fin.entry(root, 0).frame();
    assert(l3 == t3);
    assert(fin.entry(t2, i2) == kernel_leaf(n));
    assert forall|j: int| 0 <= j < 512 implies !(#[trigger] fin.entry(l3, j)).huge() && (
    slot_in_use(n + 1, j) ==> fin.entry(l3, j).present()) && (!slot_in_use(n + 1, j) ==> fin.entry(
        l3,
        j,
    ) == PTEntry(0)) by {
        if j != i3 {
            if n >= 1 {
                assert(fin.entry(l3, j) == m.entry(l3, j));
                assert(slot_in_use(n + 1, j) == slot_in_use(n, j));
            }
        }
    }
    assert forall|j: int, k: int|
        slot_in_use(n + 1, j) && slot_in_use(n + 1, k) && (#[trigger] fin.entry(l3, j)).frame() == (
        #[trigger] fin.entry(l3, k)).frame() implies j == k by {
        if j != k {
            if j != i3 && k != i3 {
                assert(fin.entry(l3, j) == m.entry(l3, j));
                assert(fin.entry(l3, k) == m.entry(l3, k));
                assert(slot_in_use(n, j) && slot_in_use(n, k));
            } else {
                let other = if j == i3 {
                    k
                } else {
                    j
                };
                assert(slot_in_use(n, other));
                assert(fin.entry(l3, other) == m.entry(l3, other));
                assert(links(3, m.entry(l3, other)));
                assert(m.tables.contains_key(m.entry(l3, other).frame()));
                if slot_in_use(n, i3) {
                    assert(t2 == m.entry(l3, i3).frame());
                } else {
                    assert(!m.tables.contains_key(t2));
                }
            }
        }
    }
    assert forall|q: int| 0 <= q < n + 1 implies fin.entry(
        fin.entry(l3, kernel_slot(q)).frame(),
        kernel_place(q),
    ) == #[trigger] kernel_leaf(q) by {
        lemma_kernel_page(q);
        if q < n {
            let s = kernel_slot(q);
            assert(slot_in_use(n, s)) by {
                lemma_kernel_page(q);
            }
            let tq = m.entry(m.entry(root, 0).frame(), s).frame();
            assert(links(3, m.entry(m.entry(root, 0).frame(), s)));
            assert(m.is_table(tq, 2));
            assert(fin.entry(l3, s).frame() == tq) by {
                if s != i3 {
                    assert(fin.entry(l3, s) == m.entry(l3, s));
                }
            }
            if s == i3 {
                lemma_kernel_places_differ(q, n);
                assert(tq == t2);
            } else {
                if slot_in_use(n, i3) {
                    assert(t2 == m.entry(l3, i3).frame());
                    assert(tq != t2);
                } else {
                    assert(!m.tables.contains_key(t2));
                }
            }
            assert(fin.entry(tq, kernel_place(q)) == m.entry(tq, kernel_place(q)));
            assert(m.entry(tq, kernel_place(q)) == kernel_leaf(q));
        }
    }
}

/// Mapping the rest of the pages of the kernel's address space, when the pages
/// before them are in place, maps them all and puts them all in place.
proof fn lemma_kernel_run(m: MemoryView, root: u64, n: int, pages: Seq<Mapping>)
    requires
        0 <= n <= 2560,
        kernel_pages_in_place(m, root, n),
        pages.len() == 2560 - n,
        forall|i: int| 0 <= i < pages.len() ==> #[trigger] pages[i] == kernel_mapping(n + i),
    ensures
        m.map_many(root, pages).1,
        kernel_pages_in_place(m.map_many(root, pages).0, root, 2560),
    decreases 2560 - n,
{
    if n < 2560 {
        lemma_kernel_step(m, root, n);
        assert(pages[0] == kernel_mapping(n));
        let next = m.map(root, pages[0].virt, pages[0].phys@, pages[0].opts);
        let rest = pages.skip(1);
        assert forall|i: int| 0 <= i < rest.len() implies #[trigger] rest[i] == kernel_mapping(
            n + 1 + i,
        ) by {
            assert(rest[i] == pages[i + 1]);
        }
        lemma_kernel_run(next, root, n + 1, rest);
    }
}

/// The pages of the kernel's address space, mapped under an empty root with six
/// spare frames at hand, are all mapped, and the address space then holds the
/// direct map: every physical address below 4 GiB resolves from its alias.
pub proof fn law_kernel_mappings_make_direct_map(m: MemoryView, root: u64, pages: Seq<Mapping>)
    requires
        m.wf(),
        m.is_table(root, 4),
        m.tables[root] == empty_table(4),
        m.spare.len() >= 6,
        pages.len() == 2560,
        forall|i: int| 0 <= i < 2560 ==> #[trigger] pages[i] == kernel_mapping(i),
    ensures
        m.map_many(root, pages).1,
        m.map_many(root, pages).0.wf(),
        m.map_many(root, pages).0.direct_mapped(root),
{
    lemma_kernel_run(m, root, 0, pages);
    let n = m.map_many(root, pages).0;
    let l3 = n.entry(root, 0).frame();
    assert forall|k: int| 3 <= k < 7 implies ({
        let e3 = #[trigger] n.entry(n.kernel_l3(root), k);
        &&& e3.present()
        &&& e3.huge() ==> e3.frame() == (k - 3) * 0x4000_0000
        &&& !e3.huge() ==> forall|j: int|
            0 <= j < 512 ==> {
                let e2 = #[trigger] n.entry(e3.frame(), j);
                e2.present() && e2.huge() && e2.frame() == (k - 3) * 0x4000_0000 + j * 0x20_0000
            }
    }) by {
        let e3 = n.entry(l3, k);
        assert(slot_in_use(2560, k));
        assert(!e3.huge() && e3.present());
        assert forall|j: int| 0 <= j < 512 implies ({
            let e2 = #[trigger] n.entry(e3.frame(), j);
            e2.present() && e2.huge() && e2.frame() == (k - 3) * 0x4000_0000 + j * 0x20_0000
        }) by {
            let q = 512 + (k - 3) * 512 + j;
            lemma_kernel_page(q);
            assert(kernel_slot(q) == k);
            assert(kernel_place(q) == j);
            assert(n.entry(n.entry(l3, kernel_slot(q)).frame(), kernel_place(q)) == kernel_leaf(q));
        }
    }
}

/// In the kernel's address space, made by mapping its pages under an empty root
/// with six spare frames at hand, every address of the low gigabyte resolves to
/// itself, through a huge page that may be written.
pub proof fn law_kernel_mappings_keep_low_memory(
    m: MemoryView,
    root: u64,
    pages: Seq<Mapping>,
    virt: VirtAddr,
)
    requires
        m.wf(),
        m.is_table(root, 4),
        m.tables[root] == empty_table(4),
        m.spare.len() >= 6,
        pages.len() == 2560,
        forall|i: int| 0 <= i < 2560 ==> #[trigger] pages[i] == kernel_mapping(i),
        virt@ < 0x4000_0000,
    ensures
        match m.map_many(root, pages).0.resolve(root, virt) {
            Some((p, e)) => p@ == virt@ && e.huge() && e.bit(BIT_WRITABLE),
            None => false,
        },
{
    lemma_kernel_run(m, root, 0, pages);
    let n = m.map_many(root, pages).0;
    let l3 = n.entry(root, 0).frame();
    let v: u64 = virt.0;
    let q: u64 = (v >> 21) & 0x1ff;
    assert(v < 0x4000_0000 ==> (v >> 39) & 0x1ff == 0 && (v >> 30) & 0x1ff == 0 && q < 512 && q
        * 0x20_0000 + (v & 0x1f_ffff) == v) by (bit_vector)
        requires
            q == (v >> 21) & 0x1ff,
    ;
    lemma_kernel_page(q as int);
    assert(slot_in_use(2560, 0));
    assert(n.entry(l3, 0).present() && !n.entry(l3, 0).huge());
    assert(n.entry(n.entry(l3, kernel_slot(q as int)).frame(), kernel_place(q as int))
        == kernel_leaf(q as int));
    lemma_leaf_bits(kernel_mapping(q as int).phys@, KERNEL_PAGE_OPTS);
    assert(0x83u16 & 2 != 0) by (bit_vector);
}

} // verus!

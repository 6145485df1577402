use rust_os::mem::{
    PTEntry, PageTable, PhysAddr, VirtAddr, BIT_HUGE, BIT_PRESENT, BIT_USER, BIT_WRITABLE,
};
use rust_os::paging::{kernel_mappings, MapError, TableMemory};

fn memory_with_frames(first: u64, count: u64) -> TableMemory {
    let mut mem = TableMemory::new();
    for i in 0..count {
        assert!(mem.add_frame(PhysAddr::new(first + (count - 1 - i) * 0x1000)));
    }
    mem
}

#[test]
fn address_space_build() {
    let mut mem = memory_with_frames(0x10_0000, 8);
    let root = mem.add_root().unwrap();
    let e = PageTable::map_virt_to_phys(
        &mut mem,
        root,
        VirtAddr::new(0x0040_0000),
        PhysAddr::new(0x0020_0000),
        BIT_USER | BIT_PRESENT,
    )
    .unwrap();
    assert_eq!(e.0, 0x0020_0005);
    let (phys, entry) = VirtAddr::new(0x0040_0000).to_phys(&mem, root).unwrap();
    assert_eq!(phys.addr(), 0x0020_0000);
    assert!(entry.get_bit(BIT_USER));
    assert!(!entry.get_bit(BIT_WRITABLE));
    assert!(entry.get_bit(BIT_PRESENT));
    let (phys, _) = VirtAddr::new(0x0040_0123).to_phys(&mem, root).unwrap();
    assert_eq!(phys.addr(), 0x0020_0123);
    assert!(VirtAddr::new(0x0040_1000).to_phys(&mem, root).is_none());
}

#[test]
fn map_uses_three_frames_then_none() {
    let mut mem = memory_with_frames(0x10_0000, 4);
    let root = mem.add_root().unwrap();
    assert_eq!(root.addr(), 0x10_0000);
    assert_eq!(mem.spare_frames(), 3);
    assert_eq!(mem.frames_needed(root, VirtAddr::new(0x40_0000), BIT_PRESENT), Some(3));
    assert_eq!(mem.frames_needed(root, VirtAddr::new(0x40_0000), BIT_PRESENT | BIT_HUGE), Some(2));
    assert_eq!(mem.frames_needed(PhysAddr::new(0x9000), VirtAddr::new(0x40_0000), BIT_PRESENT), None);
    PageTable::map_virt_to_phys(
        &mut mem,
        root,
        VirtAddr::new(0x40_0000),
        PhysAddr::new(0x20_0000),
        BIT_PRESENT,
    )
    .unwrap();
    assert_eq!(mem.spare_frames(), 0);
    assert_eq!(mem.frames_needed(root, VirtAddr::new(0x40_1000), BIT_PRESENT), Some(0));
    PageTable::map_virt_to_phys(
        &mut mem,
        root,
        VirtAddr::new(0x40_1000),
        PhysAddr::new(0x20_1000),
        BIT_PRESENT,
    )
    .unwrap();
    let far = VirtAddr::new(0x80_0000_0000);
    assert_eq!(mem.frames_needed(root, far, BIT_PRESENT), Some(3));
    let r = PageTable::map_virt_to_phys(&mut mem, root, far, PhysAddr::new(0x30_0000), BIT_PRESENT);
    assert_eq!(r, Err(MapError::MapFail));
    assert!(far.to_phys(&mem, root).is_none());
}

#[test]
fn map_under_no_root_is_refused() {
    let mut mem = memory_with_frames(0x10_0000, 4);
    let r = PageTable::map_virt_to_phys(
        &mut mem,
        PhysAddr::new(0x5000),
        VirtAddr::new(0x40_0000),
        PhysAddr::new(0x20_0000),
        BIT_PRESENT,
    );
    assert_eq!(r, Err(MapError::BadRoot));
    assert_eq!(mem.spare_frames(), 4);
    assert!(VirtAddr::new(0x40_0000).to_phys(&mem, PhysAddr::new(0x5000)).is_none());
}

#[test]
fn huge_mapping_ends_at_level_two() {
    let mut mem = memory_with_frames(0x10_0000, 4);
    let root = mem.add_root().unwrap();
    let e = PageTable::map_virt_to_phys(
        &mut mem,
        root,
        VirtAddr::new(0x4000_0000),
        PhysAddr::new(0x20_0000),
        BIT_PRESENT | BIT_WRITABLE | BIT_HUGE,
    )
    .unwrap();
    assert_eq!(e.0, 0x20_0083);
    assert_eq!(mem.spare_frames(), 1);
    let (phys, entry) = VirtAddr::new(0x4001_2345).to_phys(&mem, root).unwrap();
    assert_eq!(phys.addr(), 0x21_2345);
    assert!(entry.get_bit(BIT_HUGE));
}

#[test]
fn upper_entries_get_access_bits() {
    let mut mem = memory_with_frames(0x10_0000, 4);
    let root = mem.add_root().unwrap();
    PageTable::map_virt_to_phys(
        &mut mem,
        root,
        VirtAddr::new(0x40_0000),
        PhysAddr::new(0x20_0000),
        BIT_PRESENT | BIT_USER | BIT_WRITABLE,
    )
    .unwrap();
    let e4 = mem.read(root, 0).unwrap();
    assert_eq!(e4.0 & 7, 7);
    let e3 = mem.read(e4.phys_addr(), 0).unwrap();
    assert_eq!(e3.0 & 7, 7);
    let e2 = mem.read(e3.phys_addr(), 2).unwrap();
    assert_eq!(e2.0 & 7, 7);
    assert_eq!(mem.level_of(e4.phys_addr()), Some(3));
    assert_eq!(mem.level_of(e2.phys_addr()), Some(1));
}

fn kernel_with_direct_map() -> (TableMemory, PhysAddr) {
    let mut mem = memory_with_frames(0x800_0000, 16);
    let root = mem.add_root().unwrap();
    PageTable::map_many(&mut mem, root, &kernel_mappings()).unwrap();
    // the root, a level-3 table, and five level-2 tables
    assert_eq!(mem.spare_frames(), 9);
    (mem, root)
}

#[test]
fn physical_to_virtual_and_back() {
    let (mem, root) = kernel_with_direct_map();
    for p in [0u64, 0x1000, 0x100_0000, 0xb8000, 0x1234_5678, 0xffff_ffff] {
        let v = PhysAddr::new(p).to_virt().unwrap();
        assert_eq!(v.addr(), p + 0xC000_0000);
        let (back, entry) = v.to_phys(&mem, root).unwrap();
        assert_eq!(back.addr(), p);
        assert!(entry.get_bit(BIT_PRESENT));
        assert!(entry.get_bit(BIT_WRITABLE));
        assert!(entry.get_bit(BIT_HUGE));
    }
    assert!(PhysAddr::new(0x1_0000_0000).to_virt().is_none());
}

#[test]
fn direct_map_alias_and_back() {
    for p in [0u64, 0x1000, 0xb8000, 0xffff_ffff] {
        let v = PhysAddr::new(p).to_virt().unwrap();
        assert_eq!(v.from_direct_map().unwrap().addr(), p);
    }
    assert!(VirtAddr::new(0xBFFF_FFFF).from_direct_map().is_none());
    assert_eq!(VirtAddr::new(0xC000_0000).from_direct_map().unwrap().addr(), 0);
    assert_eq!(VirtAddr::new(0x1_BFFF_FFFF).from_direct_map().unwrap().addr(), 0xffff_ffff);
    assert!(VirtAddr::new(0x1_C000_0000).from_direct_map().is_none());
    assert!(VirtAddr::new(u64::MAX).from_direct_map().is_none());
}

#[test]
fn new_address_space_shares_the_kernel_half() {
    let (mut mem, kernel) = kernel_with_direct_map();
    let before = mem.spare_frames();
    let root = PageTable::new(&mut mem, kernel).unwrap();
    assert_eq!(mem.spare_frames(), before - 2);
    let first = mem.read(root, 0).unwrap();
    assert_eq!(first.0 & 0x1ff, 7);
    let v = PhysAddr::new(0x1234_5678).to_virt().unwrap();
    assert_eq!(v.to_phys(&mem, root).unwrap().0.addr(), 0x1234_5678);
    assert_eq!(v.to_phys(&mem, kernel).unwrap().0.addr(), 0x1234_5678);
    assert!(VirtAddr::new(0x40_0000).to_phys(&mem, root).is_none());
    PageTable::map_virt_to_phys(
        &mut mem,
        root,
        VirtAddr::new(0x40_0000),
        PhysAddr::new(0x20_0000),
        BIT_PRESENT | BIT_USER,
    )
    .unwrap();
    // the kernel keeps its own view of the low gigabyte
    assert_eq!(VirtAddr::new(0x40_0000).to_phys(&mem, kernel).unwrap().0.addr(), 0x40_0000);
    assert_eq!(VirtAddr::new(0x40_0000).to_phys(&mem, root).unwrap().0.addr(), 0x20_0000);
}

#[test]
fn new_address_space_needs_a_kernel_root_and_two_frames() {
    let mut mem = memory_with_frames(0x10_0000, 2);
    assert_eq!(PageTable::new(&mut mem, PhysAddr::new(0x7000)), Err(MapError::BadRoot));
    let empty_root = mem.add_root().unwrap();
    assert_eq!(PageTable::new(&mut mem, empty_root), Err(MapError::BadRoot));
    let (mut mem, kernel) = kernel_with_direct_map();
    while mem.spare_frames() > 1 {
        mem.add_root().unwrap();
    }
    assert_eq!(PageTable::new(&mut mem, kernel), Err(MapError::MapFail));
}

#[test]
fn frames_are_taken_once() {
    let mut mem = TableMemory::new();
    assert!(mem.add_frame(PhysAddr::new(0x1000)));
    assert!(!mem.add_frame(PhysAddr::new(0x1000)));
    assert!(!mem.add_frame(PhysAddr::new(0x1001)));
    assert!(!mem.add_frame(PhysAddr::new(0x10_0000_0000_0000)));
    let root = mem.add_root().unwrap();
    assert!(!mem.add_frame(root));
    assert!(mem.add_root().is_none());
}

#[test]
fn entry_bits() {
    let mut e = PTEntry(0);
    e.set_phys_addr(PhysAddr::new(0x1234_5000));
    e.set_bit(BIT_PRESENT, true);
    e.set_bit(BIT_USER, true);
    assert_eq!(e.0, 0x1234_5005);
    e.set_bit(BIT_USER, true);
    assert_eq!(e.0, 0x1234_5005);
    e.set_bit(BIT_PRESENT, false);
    assert_eq!(e.0, 0x1234_5004);
    assert!(e.get_bit(BIT_USER));
    assert!(!e.get_bit(BIT_WRITABLE));
    e.set_opts(BIT_PRESENT | BIT_WRITABLE);
    assert_eq!(e.0, 0x1234_5003);
    assert_eq!(e.phys_addr().addr(), 0x1234_5000);
    e.set_phys_addr(PhysAddr::new(0x8000));
    assert_eq!(e.0, 0x8003);
    let mut t = PageTable::empty();
    *t.get_entry(511) = e;
    assert_eq!(t.entry(511).0, 0x8003);
    assert_eq!(t.entry(0).0, 0);
}

#[test]
fn table_indices() {
    let v = VirtAddr::new(0x0000_7fbf_dfef_f123);
    assert_eq!(v.index(4), 0xff);
    assert_eq!(v.index(3), 0xff);
    assert_eq!(v.index(2), 0xff);
    assert_eq!(v.index(1), 0xff);
    assert_eq!(VirtAddr::new(0xC000_0000).index(3), 3);
    assert_eq!(VirtAddr::new(0x40_0000).index(2), 2);
    assert_eq!(VirtAddr::new(0x40_0000).offset(0x1000).index(1), 1);
}

#[test]
fn test_paging_table() {
    let (mem, root) = kernel_with_direct_map();
    let phys = PhysAddr::new(0x1000000);
    let virt = phys.to_virt().unwrap();
    assert_eq!(virt.addr(), 0xC1000000);
    let (phys, pte) = virt.to_phys(&mem, root).unwrap();
    assert_eq!(phys.addr(), 0x1000000);
    assert!(pte.get_bit(BIT_PRESENT));
    assert!(pte.get_bit(BIT_WRITABLE));
    assert!(pte.get_bit(BIT_HUGE));
}

#[test]
fn test_frame_allocation() {
    let (mut mem, root) = kernel_with_direct_map();
    let virt = VirtAddr::new(0xB0000000);
    let phys = PhysAddr::new(0xb8000);
    let pte = PageTable::map_virt_to_phys(&mut mem, root, virt, phys, BIT_WRITABLE | BIT_PRESENT)
        .unwrap();
    assert_eq!(pte.0, 0xb8003);
    let (back, entry) = virt.to_phys(&mem, root).unwrap();
    assert_eq!(back.addr(), 0xb8000);
    assert_eq!(entry, pte);
    assert_eq!(virt.offset(1).to_phys(&mem, root).unwrap().0.addr(), 0xb8001);
    // the page is the video memory that the direct map shows as well
    let direct = phys.to_virt().unwrap().to_phys(&mem, root).unwrap().0;
    assert_eq!(direct.addr(), back.addr());
}

#[test]
fn kernel_address_space() {
    let pages = kernel_mappings();
    assert_eq!(pages.len(), 2560);
    assert_eq!(pages[0].virt.addr(), 0);
    assert_eq!(pages[511].virt.addr(), 0x3fe0_0000);
    assert_eq!(pages[511].phys.addr(), 0x3fe0_0000);
    assert_eq!(pages[512].virt.addr(), 0xC000_0000);
    assert_eq!(pages[512].phys.addr(), 0);
    assert_eq!(pages[2559].virt.addr(), 0x1_BFE0_0000);
    assert_eq!(pages[2559].phys.addr(), 0xFFE0_0000);
    assert!(pages.iter().all(|p| p.opts == 0x83));
    let (mem, root) = kernel_with_direct_map();
    for v in [0u64, 0x1000, 0x10_0000, 0xb8000, 0x3fff_ffff] {
        assert_eq!(VirtAddr::new(v).to_phys(&mem, root).unwrap().0.addr(), v);
    }
    assert!(VirtAddr::new(0x4000_0000).to_phys(&mem, root).is_none());
    assert!(VirtAddr::new(0x1_C000_0000).to_phys(&mem, root).is_none());
    // six frames are what it takes
    let mut small = memory_with_frames(0x800_0000, 6);
    let root = small.add_root().unwrap();
    assert_eq!(PageTable::map_many(&mut small, root, &pages), Err(MapError::MapFail));
    let mut enough = memory_with_frames(0x800_0000, 7);
    let root = enough.add_root().unwrap();
    assert_eq!(PageTable::map_many(&mut enough, root, &pages), Ok(()));
    assert_eq!(enough.spare_frames(), 0);
    assert_eq!(
        PageTable::map_many(&mut enough, PhysAddr::new(0x7000), &pages),
        Err(MapError::BadRoot)
    );
}

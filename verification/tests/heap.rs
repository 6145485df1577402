use rust_os::buddy_manager::{BuddyAllocatorManager, MemAreaRequest};
use rust_os::frame_alloc::{FrameSingleAllocator, MemoryRegion, SimpleAllocator};
use rust_os::global_alloc::{init_allocator_info, init_global_alloc, Allocator};
use rust_os::mem::{PageTable, PhysAddr, VirtAddr};
use rust_os::paging::{kernel_mappings, TableMemory};

/// Hands out the frames from number `first` up to number `end`.
fn frame_range(first: u64, end: u64) -> SimpleAllocator {
    SimpleAllocator::from_areas(
        0,
        vec![MemoryRegion { base: first * 0x1000, length: (end - first) * 0x1000 }],
    )
}

fn areas(list: &[(u64, u64)]) -> Vec<MemoryRegion> {
    list.iter().map(|&(base, length)| MemoryRegion { base, length }).collect()
}

fn direct_map() -> (TableMemory, PhysAddr) {
    let mut mem = TableMemory::new();
    for i in 0..8u64 {
        assert!(mem.add_frame(PhysAddr::new(0xf000_0000 + i * 0x1000)));
    }
    let root = mem.add_root().unwrap();
    PageTable::map_many(&mut mem, root, &kernel_mappings()).unwrap();
    (mem, root)
}

#[test]
fn frames_start_behind_the_kernel_and_stay_in_the_area() {
    let mut a = SimpleAllocator::from_areas(0x10_2345, areas(&[(0x10_0000, 0x6000)]));
    assert_eq!(a.allocate().unwrap().addr(), 0x10_3000);
    assert_eq!(a.allocate().unwrap().addr(), 0x10_4000);
    assert_eq!(a.allocate().unwrap().addr(), 0x10_5000);
    assert!(a.allocate().is_none());
    assert!(a.allocate().is_none());
}

#[test]
fn frame_bounds_are_rounded_inwards() {
    let mut a = SimpleAllocator::from_areas(0, areas(&[(0x1001, 0x2ffe)]));
    assert_eq!(a.allocate().unwrap().addr(), 0x2000);
    assert!(a.allocate().is_none());
}

#[test]
fn frames_go_on_in_the_next_area() {
    let mut a = SimpleAllocator::from_areas(
        0x5000,
        areas(&[(0, 0x4000), (0x8000, 0x2000), (0x20_0000, 0x800), (0x30_0000, 0x1000)]),
    );
    assert_eq!(a.allocate().unwrap().addr(), 0x8000);
    assert_eq!(a.allocate().unwrap().addr(), 0x9000);
    assert_eq!(a.allocate().unwrap().addr(), 0x30_0000);
    assert!(a.allocate().is_none());
}

#[test]
fn frames_of_the_boot_loader_memory_map() {
    let available = multiboot2::MemoryAreaType::Available;
    let reserved = multiboot2::MemoryAreaType::Reserved;
    let map = multiboot2::MemoryMapTag::new(&[
        multiboot2::MemoryArea::new(0, 0x9_f000, available),
        multiboot2::MemoryArea::new(0x9_f000, 0x6_1000, reserved),
        multiboot2::MemoryArea::new(0x10_0000, 0x4000, available),
        multiboot2::MemoryArea::new(0x20_0000, 0x2000, multiboot2::MemoryAreaType::AcpiAvailable),
        multiboot2::MemoryArea::new(u64::MAX - 0x800, 0x1000, available),
        multiboot2::MemoryArea::new(0x30_0000, 0x1800, available),
    ]);
    let mut a = SimpleAllocator::init(&map, 0x10_1001).unwrap();
    assert_eq!(a.allocate().unwrap().addr(), 0x10_2000);
    assert_eq!(a.allocate().unwrap().addr(), 0x10_3000);
    assert_eq!(a.allocate().unwrap().addr(), 0x30_0000);
    assert!(a.allocate().is_none());
    let mut low = SimpleAllocator::init(&map, 0x9_d000).unwrap();
    assert_eq!(low.allocate().unwrap().addr(), 0x9_d000);
    assert_eq!(low.allocate().unwrap().addr(), 0x9_e000);
    assert_eq!(low.allocate().unwrap().addr(), 0x10_0000);
    let empty = multiboot2::MemoryMapTag::new(&[]);
    assert!(SimpleAllocator::init(&empty, 0).unwrap().allocate().is_none());
}

#[test]
fn no_areas_no_frames() {
    let mut a = SimpleAllocator::from_areas(0, Vec::new());
    assert!(a.allocate().is_none());
}

#[test]
fn largest_piece_is_a_power_of_two_of_frames() {
    let f = BuddyAllocatorManager::get_largest_page_multiple;
    assert!(f(0x1000, 0x1000).is_none());
    assert!(f(0x1000, 0x1fff).is_none());
    let (a, b) = f(0x1000, 0x2000).unwrap();
    assert_eq!((a.addr(), b.addr()), (0x1000, 0x2000));
    let (a, b) = f(0x1000, 0x4000).unwrap();
    assert_eq!((a.addr(), b.addr()), (0x1000, 0x3000));
    let (a, b) = f(0, 7 * 0x1000).unwrap();
    assert_eq!((a.addr(), b.addr()), (0, 0x4000));
    let (a, b) = f(0, 8 * 0x1000).unwrap();
    assert_eq!((a.addr(), b.addr()), (0, 0x8000));
}

#[test]
fn exact_run() {
    let mut a = frame_range(0x100, 0x200);
    match BuddyAllocatorManager::get_mem_area_with_size(&mut a, 8 * 0x1000) {
        MemAreaRequest::Success((s, e)) => {
            assert_eq!(s.addr(), 0x10_0000);
            assert_eq!(e.addr(), 0x10_8000);
        }
        other => panic!("{:?}", other),
    }
    assert_eq!(a.allocate().unwrap().addr(), 0x10_8000);
}

#[test]
fn run_of_one_frame_pulls_one_frame() {
    let mut a = frame_range(0x100, 0x200);
    match BuddyAllocatorManager::get_mem_area_with_size(&mut a, 0x1000) {
        MemAreaRequest::Success((s, e)) => {
            assert_eq!(s.addr(), 0x10_0000);
            assert_eq!(e.addr(), 0x10_1000);
        }
        other => panic!("{:?}", other),
    }
    assert_eq!(a.allocate().unwrap().addr(), 0x10_1000);
}

#[test]
fn run_cut_short_by_the_end_of_memory() {
    let mut a = frame_range(0x100, 0x107);
    match BuddyAllocatorManager::get_mem_area_with_size(&mut a, 8 * 0x1000) {
        MemAreaRequest::SmallerThanReq((s, e), Some((s2, e2))) => {
            assert_eq!((s.addr(), e.addr()), (0x10_0000, 0x10_4000));
            assert_eq!((s2.addr(), e2.addr()), (0x10_4000, 0x10_6000));
        }
        other => panic!("{:?}", other),
    }
    assert!(a.allocate().is_none());
}

#[test]
fn run_cut_short_by_a_gap_loses_the_frame_behind_it() {
    let mut a = SimpleAllocator::from_areas(0, areas(&[(0x10_0000, 0x2000), (0x20_0000, 0x3000)]));
    match BuddyAllocatorManager::get_mem_area_with_size(&mut a, 4 * 0x1000) {
        MemAreaRequest::SmallerThanReq((s, e), None) => {
            assert_eq!((s.addr(), e.addr()), (0x10_0000, 0x10_2000));
        }
        other => panic!("{:?}", other),
    }
    assert_eq!(a.allocate().unwrap().addr(), 0x20_1000);
}

#[test]
fn no_frame_no_region() {
    let mut a = frame_range(5, 5);
    assert!(matches!(
        BuddyAllocatorManager::get_mem_area_with_size(&mut a, 0x1000),
        MemAreaRequest::Fail
    ));
    let mut m = BuddyAllocatorManager::new();
    assert!(!m.add_mem_area_with_size(&mut a, 0x8000, 16));
    assert_eq!(m.len(), 0);
}

#[test]
fn smaller_regions_are_added_until_one_fits() {
    let mut a = SimpleAllocator::from_areas(
        0,
        areas(&[(0x10_0000, 0x3000), (0x20_0000, 0x9000), (0x40_0000, 0x1000)]),
    );
    let mut m = BuddyAllocatorManager::new();
    assert!(m.add_mem_area_with_size(&mut a, 0x8000, 16));
    // two pieces of the first area, then the region asked for; the first frame of
    // the second area ended the first run and is lost
    assert_eq!(m.len(), 3);
    assert_eq!(m.allocate(0x2000, 1).unwrap().addr(), 0xC010_0000);
    assert_eq!(m.allocate(0x1000, 1).unwrap().addr(), 0xC010_2000);
    assert_eq!(m.allocate(0x8000, 1).unwrap().addr(), 0xC020_1000);
    assert!(m.allocate(16, 1).is_none());
    assert!(!m.add_mem_area_with_size(&mut a, 0x8000, 16));
    // the last frame became a region of its own on the way
    assert_eq!(m.len(), 4);
    assert_eq!(m.allocate(0x1000, 1).unwrap().addr(), 0xC040_0000);
    assert!(a.allocate().is_none());
}

#[test]
fn manager_serves_from_the_first_region_that_can() {
    let (mem, root) = direct_map();
    let mut m = BuddyAllocatorManager::new();
    m.add_memory_area(PhysAddr::new(0x10_0000), PhysAddr::new(0x10_1000), 16);
    m.add_memory_area(PhysAddr::new(0x20_0000), PhysAddr::new(0x20_8000), 16);
    let small = m.allocate(16, 4).unwrap();
    assert_eq!(small.addr(), 0xC010_0000);
    let big = m.allocate(0x2000, 4).unwrap();
    assert_eq!(big.addr(), 0xC020_0000);
    let page = m.allocate(0x1000, 0x1000).unwrap();
    assert_eq!(page.addr(), 0xC020_2000);
    assert!(m.allocate(0x1_0000, 1).is_none());
    m.dealloc(&mem, root, big, 0x2000, 4);
    m.dealloc(&mem, root, page, 0x1000, 0x1000);
    assert_eq!(m.allocate(0x8000, 1).unwrap().addr(), 0xC020_0000);
    m.dealloc(&mem, root, small, 16, 4);
    assert_eq!(m.allocate(0x1000, 1).unwrap().addr(), 0xC010_0000);
}

#[test]
fn test_global_allocator() {
    let (mem, root) = direct_map();
    let mut frames = frame_range(0x100, 0x200);
    let first_page = frames.allocate().unwrap();
    let mut m = BuddyAllocatorManager::new();
    m.add_memory_area(first_page, first_page.offset(0x1000), 16);
    let blk_16 = m.allocate(16, 4).unwrap();
    let blk_32 = m.allocate(32, 4).unwrap();
    let blk_64 = m.allocate(64, 4).unwrap();
    let blk_8 = m.allocate(8, 4).unwrap();
    assert_eq!(blk_32.addr() - blk_16.addr(), 32);
    assert_eq!(blk_64.addr() - blk_32.addr(), 32);
    assert_eq!(blk_8.addr() - blk_16.addr(), 16);
    m.dealloc(&mem, root, blk_16, 16, 4);
    let blk_8_2 = m.allocate(8, 8).unwrap();
    assert_eq!(blk_16, blk_8_2);
    m.dealloc(&mem, root, blk_8_2, 8, 8);
    m.dealloc(&mem, root, blk_32, 32, 4);
    m.dealloc(&mem, root, blk_64, 64, 4);
    m.dealloc(&mem, root, blk_8, 8, 4);
    let blk_128 = m.allocate(128, 4).unwrap();
    assert_eq!(blk_128, blk_8_2);
}

#[test]
fn boot_path() {
    let frames = SimpleAllocator::from_areas(0x10_0000, areas(&[(0x10_0000, 64 * 1024 * 1024)]));
    let mut heap: Allocator<SimpleAllocator> = Allocator::new();
    assert!(heap.allocate(1, 1).is_none());
    init_global_alloc(&mut heap, frames);
    let p = heap.allocate(1, 1).unwrap().addr();
    assert!(p >= 0xC010_0000 && p < 0xC410_0000);
    assert_eq!(p, 0xC010_0000);
    let q = heap.allocate(0x1000, 0x1000).unwrap().addr();
    assert_eq!(q % 0x1000, 0);
    assert!(q >= 0xC010_1000 && q < 0xC410_0000);
    // one frame, 8 frames and 64 frames lie before the region of 16 MiB
    let big = heap.allocate(1 << 24, 1).unwrap().addr();
    assert_eq!(big, 0xC010_0000 + 73 * 0x1000);
    assert!(heap.allocate(1 << 30, 1).is_none());
}

#[test]
fn early_heap_hands_out_whole_frames() {
    let (mem, root) = direct_map();
    let mut heap: Allocator<SimpleAllocator> = Allocator::new();
    init_allocator_info(&mut heap, frame_range(0x100, 0x102));
    let a = heap.allocate(24, 8).unwrap();
    assert_eq!(a.addr(), 0xC010_0000);
    let b = heap.allocate(0x800, 8).unwrap();
    assert_eq!(b.addr(), 0xC010_1000);
    assert!(heap.allocate(1, 1).is_none());
    heap.dealloc(&mem, root, a, 24, 8);
    assert_eq!(heap.allocate(1, 1).unwrap().addr(), 0xC010_0000);
    assert!(heap.allocate(1, 1).is_none());
    // an address that is not mapped is not cached
    heap.dealloc(&mem, root, VirtAddr::new(0x5000_0000), 1, 1);
    assert!(heap.allocate(1, 1).is_none());
}

#[test]
fn early_heap_skips_frames_above_the_direct_map() {
    let mut heap: Allocator<SimpleAllocator> = Allocator::new();
    init_allocator_info(&mut heap, frame_range(0x10_0000, 0x10_0002));
    assert!(heap.allocate(1, 1).is_none());
    assert!(heap.allocate(1, 1).is_none());
}

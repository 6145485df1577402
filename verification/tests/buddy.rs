use rust_os::buddy_alloc::BuddyAllocator;
use rust_os::mem::PhysAddr;

fn one_page() -> BuddyAllocator {
    BuddyAllocator::new(PhysAddr::new(0x10_0000), PhysAddr::new(0x10_1000), 16)
}

#[test]
fn split_and_merge() {
    let mut b = one_page();
    let a16 = b.allocate(16, 4).unwrap().addr();
    let a32 = b.allocate(32, 4).unwrap().addr();
    let a64 = b.allocate(64, 4).unwrap().addr();
    let a8 = b.allocate(8, 4).unwrap().addr();
    assert_eq!(a16, 0x10_0000);
    assert_eq!(a32 - a16, 32);
    assert_eq!(a64 - a32, 32);
    assert_eq!(a8 - a16, 16);
    b.dealloc(PhysAddr::new(a16), 16, 4);
    let again = b.allocate(8, 8).unwrap().addr();
    assert_eq!(again, a16);
    b.dealloc(PhysAddr::new(again), 8, 8);
    b.dealloc(PhysAddr::new(a32), 32, 4);
    b.dealloc(PhysAddr::new(a64), 64, 4);
    b.dealloc(PhysAddr::new(a8), 8, 4);
    let a128 = b.allocate(128, 4).unwrap().addr();
    assert_eq!(a128, a16);
}

#[test]
fn whole_region_then_nothing() {
    let mut b = one_page();
    assert_eq!(b.max_size(), 4096);
    let all = b.allocate(4096, 1).unwrap().addr();
    assert_eq!(all, 0x10_0000);
    assert!(b.allocate(16, 1).is_none());
    b.dealloc(PhysAddr::new(all), 4096, 1);
    assert_eq!(b.allocate(1, 1).unwrap().addr(), 0x10_0000);
}

#[test]
fn request_larger_than_region_fails() {
    let mut b = one_page();
    assert!(b.allocate(4097, 1).is_none());
    assert!(b.allocate(1, 8192).is_none());
    assert_eq!(b.req_size_to_level(4097), None);
}

#[test]
fn levels_for_sizes() {
    let b = one_page();
    assert_eq!(b.req_size_to_level(4096), Some(0));
    assert_eq!(b.req_size_to_level(2049), Some(0));
    assert_eq!(b.req_size_to_level(2048), Some(1));
    assert_eq!(b.req_size_to_level(17), Some(7));
    assert_eq!(b.req_size_to_level(16), Some(8));
    assert_eq!(b.req_size_to_level(1), Some(8));
    assert_eq!(b.req_size_to_level(0), Some(8));
    assert_eq!(b.level_size(8), 16);
    assert_eq!(b.level_size(0), 4096);
}

#[test]
fn contains_is_half_open() {
    let b = one_page();
    assert!(b.contains(PhysAddr::new(0x10_0000)));
    assert!(b.contains(PhysAddr::new(0x10_0fff)));
    assert!(!b.contains(PhysAddr::new(0x10_1000)));
    assert!(!b.contains(PhysAddr::new(0xf_ffff)));
}

#[test]
fn alignment_is_a_size_floor() {
    let mut b = one_page();
    let a = b.allocate(1, 256).unwrap().addr();
    assert_eq!(a % 256, 0);
    let c = b.allocate(1, 256).unwrap().addr();
    assert_eq!(c - a, 256);
}

#[test]
fn same_blocks_out_same_blocks_free() {
    let mut b = one_page();
    let keep = b.allocate(16, 1).unwrap().addr();
    let x = b.allocate(16, 1).unwrap().addr();
    let y = b.allocate(32, 1).unwrap().addr();
    b.dealloc(PhysAddr::new(x), 16, 1);
    b.dealloc(PhysAddr::new(y), 32, 1);
    let x2 = b.allocate(16, 1).unwrap().addr();
    let y2 = b.allocate(32, 1).unwrap().addr();
    assert_eq!(x2, x);
    assert_eq!(y2, y);
    assert_eq!(keep, 0x10_0000);
}

#[test]
fn blocks_handed_out_never_overlap() {
    let mut b = one_page();
    let sizes = [16usize, 100, 32, 512, 16, 64, 1000, 16, 48, 256, 16, 128];
    let mut out: Vec<(u64, u64)> = Vec::new();
    for (round, &size) in sizes.iter().cycle().take(60).enumerate() {
        if round % 5 == 4 {
            let (addr, len) = out.remove(round % out.len());
            b.dealloc(PhysAddr::new(addr), len as usize, 1);
            continue;
        }
        if let Some(p) = b.allocate(size, 1) {
            let level = b.req_size_to_level(size).unwrap();
            let len = b.level_size(level);
            assert!(len >= size as u64);
            assert!(p.addr() >= 0x10_0000 && p.addr() + len <= 0x10_1000);
            assert_eq!((p.addr() - 0x10_0000) % len, 0);
            for &(other, other_len) in &out {
                assert!(p.addr() + len <= other || other + other_len <= p.addr());
            }
            out.push((p.addr(), size as u64));
            let last = out.len() - 1;
            out[last].1 = len;
        }
    }
    for (addr, len) in out {
        b.dealloc(PhysAddr::new(addr), len as usize, 1);
    }
    assert_eq!(b.allocate(4096, 1).unwrap().addr(), 0x10_0000);
}

#[test]
fn giving_back_at_once_changes_nothing() {
    let mut b = one_page();
    let kept = b.allocate(64, 1).unwrap().addr();
    let first: Vec<u64> = [16usize, 16, 32, 256]
        .iter()
        .map(|&s| {
            let p = b.allocate(s, 1).unwrap().addr();
            b.dealloc(PhysAddr::new(p), s, 1);
            p
        })
        .collect();
    let second: Vec<u64> = [16usize, 16, 32, 256]
        .iter()
        .map(|&s| {
            let p = b.allocate(s, 1).unwrap().addr();
            b.dealloc(PhysAddr::new(p), s, 1);
            p
        })
        .collect();
    assert_eq!(first, second);
    assert_eq!(first, vec![kept + 64, kept + 64, kept + 64, kept + 256]);
}

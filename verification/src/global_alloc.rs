//! The kernel heap: before the buddy regions exist it hands out whole frames, from
//! a cache of frames given back or else from the frame allocator; afterwards every
//! request goes to the buddy regions.

use vstd::prelude::*;
use vstd::arithmetic::power2::{pow2, lemma2_to64};
use crate::buddy_alloc::{fresh_region, BuddyView};
use crate::buddy_manager::{first_holder, first_server, grow, growth_ok, request_size, BuddyAllocatorManager};
use crate::frame_alloc::FrameSingleAllocator;
use crate::mem::{PhysAddr, VirtAddr, FRAME_SIZE};
use crate::paging::TableMemory;

verus! {

/// Leaf size of the heap's buddy regions.
pub const HEAP_BLOCK_SIZE: u16 = 16;

/// What the contracts see of the heap.
pub struct HeapView {
    /// The buddy regions, once they are in use.
    pub strategy: Option<Seq<BuddyView>>,
    /// The frames that the frame allocator still holds, while the heap has one.
    pub frames: Option<Seq<u64>>,
    /// The frames given back before the buddy regions were in use; the last is
    /// used first.
    pub free_frames: Option<Seq<PhysAddr>>,
}

/// The kernel heap.
pub struct Allocator<A: FrameSingleAllocator> {
    strategy: Option<BuddyAllocatorManager>,
    frame_allocator: Option<A>,
    free_frames: Option<Vec<PhysAddr>>,
}

impl<A: FrameSingleAllocator> View for Allocator<A> {
    type V = HeapView;

    closed spec fn view(&self) -> HeapView {
        HeapView {
            strategy: match self.strategy {
                Some(m) => Some(m@),
                None => None,
            },
            frames: match self.frame_allocator {
                Some(a) => Some(a.frames()),
                None => None,
            },
            free_frames: match self.free_frames {
                Some(v) => Some(v@),
                None => None,
            },
        }
    }
}

/// The regions after regions of `mem_size` bytes were added for as long as the
/// frames lasted.
pub open spec fn grow_all(regions: Seq<BuddyView>, f: Seq<u64>, mem_size: u64, block_size: u16) -> (
    Seq<BuddyView>,
    Seq<u64>,
)
    decreases f.len(),
{
    let g = grow(regions, f, mem_size, block_size);
    if g.2 && g.1.len() < f.len() {
        grow_all(g.0, g.1, mem_size, block_size)
    } else {
        (g.0, g.1)
    }
}

/// The buddy regions that the heap starts with, made from the frames `f`: one of a
/// single frame, then regions for 8 frames, for 64 frames and for 16 MiB, and then
/// regions for 1 GiB until the frames run out.
pub open spec fn bootstrap(f: Seq<u64>) -> Seq<BuddyView> {
    let r0 = seq![fresh_region(f[0], FRAME_SIZE as int, HEAP_BLOCK_SIZE as int)];
    let g1 = grow(r0, f.skip(1), 0x8000, HEAP_BLOCK_SIZE);
    let g2 = grow(g1.0, g1.1, 0x4_0000, HEAP_BLOCK_SIZE);
    let g3 = grow(g2.0, g2.1, 0x100_0000, HEAP_BLOCK_SIZE);
    grow_all(g3.0, g3.1, 0x4000_0000, HEAP_BLOCK_SIZE).0
}

impl HeapView {
    /// What a request gets while the buddy regions are not in use: the last cached
    /// frame, if it lies below 4 GiB; else the next frame of the frame allocator,
    /// if that lies below 4 GiB.
    pub open spec fn early_alloc(self) -> Option<VirtAddr> {
        let cached = match self.free_frames {
            Some(v) => if v.len() > 0 {
                v.last().to_virt_spec()
            } else {
                None
            },
            None => None,
        };
        if cached is Some {
            cached
        } else {
            match self.frames {
                Some(f) => if f.len() > 0 {
                    PhysAddr(f[0]).to_virt_spec()
                } else {
                    None
                },
                None => None,
            }
        }
    }

    /// The heap after such a request: a cached frame was used up if there was one,
    /// and a frame of the frame allocator if the cache gave no address.
    pub open spec fn after_early_alloc(self) -> HeapView {
        let cached = match self.free_frames {
            Some(v) => if v.len() > 0 {
                v.last().to_virt_spec()
            } else {
                None
            },
            None => None,
        };
        HeapView {
            strategy: self.strategy,
            free_frames: match self.free_frames {
                Some(v) => if v.len() > 0 {
                    Some(v.drop_last())
                } else {
                    Some(v)
                },
                None => None,
            },
            frames: if cached is Some {
                self.frames
            } else {
                match self.frames {
                    Some(f) => if f.len() > 0 {
                        Some(f.skip(1))
                    } else {
                        Some(f)
                    },
                    None => None,
                }
            },
        }
    }
}

impl<A: FrameSingleAllocator> Allocator<A> {
    /// The invariant of the heap: that of its parts.
    pub closed spec fn wf(&self) -> bool {
        &&& match self.strategy {
            Some(m) => m.wf(),
            None => true,
        }
        &&& match self.frame_allocator {
            Some(a) => a.wf(),
            None => true,
        }
    }

    /// A heap with nothing behind it: every request fails.
    pub fn new() -> (h: Allocator<A>)
        ensures
            h.wf(),
            h@.strategy is None,
            h@.frames is None,
            h@.free_frames is None,
    {
        Allocator { strategy: None, frame_allocator: None, free_frames: None }
    }

    /// Serves a request of `size` bytes aligned to `alignment`; `None` is the null
    /// pointer. With the buddy regions in use the request goes to them, and only
    /// to them. Before that, it gets a whole frame, whatever its size: the last
    /// frame of the cache, or the next frame of the frame allocator.
    pub fn allocate(&mut self, size: usize, alignment: usize) -> (r: Option<VirtAddr>)
        requires
            old(self).wf(),
        ensures
            final(self).wf(),
            match old(self)@.strategy {
                Some(regions) => {
                    let req = request_size(size, alignment);
                    let j = first_server(regions, req, 0);
                    &&& final(self)@.frames == old(self)@.frames
                    &&& final(self)@.free_frames == old(self)@.free_frames
                    &&& if j < 0 {
                        r is None && final(self)@.strategy == Some(regions)
                    } else {
                        let v = regions[j];
                        let k = v.level_for(req);
                        &&& final(self)@.strategy == Some(regions.update(j, v.after_take(k)))
                        &&& r == PhysAddr(v.block_addr(k, v.taken(k)) as u64).to_virt_spec()
                    }
                },
                None => r == old(self)@.early_alloc() && final(self)@ == old(self)@.after_early_alloc(),
            },
    {
        match &mut self.strategy {
            Some(strategy) => {
                return strategy.allocate(size, alignment);
            },
            None => {},
        }
        match &mut self.free_frames {
            Some(free) => {
                match free.pop() {
                    Some(page) => {
                        match page.to_virt() {
                            Some(virt) => {
                                return Some(virt);
                            },
                            None => {},
                        }
                    },
                    None => {},
                }
            },
            None => {},
        }
        match &mut self.frame_allocator {
            Some(allocator) => {
                match allocator.allocate() {
                    Some(page) => {
                        match page.to_virt() {
                            Some(virt) => {
                                return Some(virt);
                            },
                            None => {},
                        }
                    },
                    None => {
                        assert(allocator.frames() =~= old(self)@.frames->0);
                    },
                }
            },
            None => {},
        }
        None
    }

    /// Takes back what served a request. With the buddy regions in use the block
    /// goes back to them. Before that, the physical address that `ptr` resolves to
    /// through the page tables under `root` joins the cache of frames; nothing is
    /// done if `ptr` is not mapped or there is no cache.
    pub fn dealloc(
        &mut self,
        mem: &TableMemory,
        root: PhysAddr,
        ptr: VirtAddr,
        size: usize,
        alignment: usize,
    )
        requires
            old(self).wf(),
            mem.wf(),
            match old(self)@.strategy {
                Some(regions) => {
                    let req = request_size(size, alignment);
                    match mem@.resolve(root@, ptr) {
                        Some((phys, e)) => {
                            let j = first_holder(regions, phys@, 0);
                            j >= 0 && req <= regions[j].max_size() ==> regions[j].handed_out(
                                phys@,
                                req,
                            )
                        },
                        None => true,
                    }
                },
                None => true,
            },
        ensures
            final(self).wf(),
            final(self)@.frames == old(self)@.frames,
            match old(self)@.strategy {
                Some(regions) => {
                    let req = request_size(size, alignment);
                    &&& final(self)@.free_frames == old(self)@.free_frames
                    &&& match mem@.resolve(root@, ptr) {
                        Some((phys, e)) => {
                            let j = first_holder(regions, phys@, 0);
                            if j >= 0 && req <= regions[j].max_size() {
                                let v = regions[j];
                                let k = v.level_for(req);
                                final(self)@.strategy == Some(
                                    regions.update(j, v.after_free(k, v.block_at(phys@, k))),
                                )
                            } else {
                                final(self)@.strategy == Some(regions)
                            }
                        },
                        None => final(self)@.strategy == Some(regions),
                    }
                },
                None => {
                    &&& final(self)@.strategy is None
                    &&& match (mem@.resolve(root@, ptr), old(self)@.free_frames) {
                        (Some((phys, e)), Some(v)) => final(self)@.free_frames == Some(v.push(phys)),
                        _ => final(self)@.free_frames == old(self)@.free_frames,
                    }
                },
            },
    {
        match &mut self.strategy {
            Some(strategy) => {
                strategy.dealloc(mem, root, ptr, size, alignment);
                return ;
            },
            None => {},
        }
        match ptr.to_phys(mem, root) {
            Some((phys_addr, _)) => {
                match &mut self.free_frames {
                    Some(free) => {
                        free.push(phys_addr);
                    },
                    None => {},
                }
            },
            None => {},
        }
    }
}

/// Gives the heap its frame allocator and an empty cache of frames; a cache it
/// had is dropped. The buddy regions, if any, stay.
pub fn init_allocator_info<A: FrameSingleAllocator>(heap: &mut Allocator<A>, frame_alloc: A)
    requires
        old(heap).wf(),
        frame_alloc.wf(),
    ensures
        final(heap).wf(),
        final(heap)@.strategy == old(heap)@.strategy,
        final(heap)@.frames == Some(frame_alloc.frames()),
        final(heap)@.free_frames == Some(Seq::<PhysAddr>::empty()),
{
    heap.frame_allocator = Some(frame_alloc);
    heap.free_frames = Some(Vec::with_capacity(200));
}

/// Facts about the sizes that the heap grows by.
proof fn lemma_heap_sizes()
    ensures
        growth_ok(0x8000, HEAP_BLOCK_SIZE),
        growth_ok(0x4_0000, HEAP_BLOCK_SIZE),
        growth_ok(0x100_0000, HEAP_BLOCK_SIZE),
        growth_ok(0x4000_0000, HEAP_BLOCK_SIZE),
        FRAME_SIZE == HEAP_BLOCK_SIZE * pow2(8),
{
    lemma2_to64();
    assert(HEAP_BLOCK_SIZE == pow2(4));
    assert(0x8000 == HEAP_BLOCK_SIZE * pow2(11));
    assert(0x4_0000 == HEAP_BLOCK_SIZE * pow2(14));
    assert(0x100_0000 == HEAP_BLOCK_SIZE * pow2(20));
    assert(0x4000_0000 == HEAP_BLOCK_SIZE * pow2(26));
}

/// Sets the heap up on the frames of `frame_alloc`: the first frame becomes a buddy
/// region of its own; then regions for 8 frames, for 64 frames and for 16 MiB are
/// added, and regions for 1 GiB until the frames run out. From then on the heap
/// serves requests from these regions, and it holds no frame allocator any more.
///
/// Returns whether this was done: without a single frame nothing can be set up,
/// and the heap stays as it is.
pub fn init_global_alloc<A: FrameSingleAllocator>(heap: &mut Allocator<A>, frame_alloc: A) -> (done:
    bool)
    requires
        old(heap).wf(),
        frame_alloc.wf(),
    ensures
        final(heap).wf(),
        done == (frame_alloc.frames().len() > 0),
        done ==> {
            &&& final(heap)@.strategy == Some(bootstrap(frame_alloc.frames()))
            &&& final(heap)@.frames is None
            &&& final(heap)@.free_frames == Some(Seq::<PhysAddr>::empty())
        },
        !done ==> final(heap)@ == old(heap)@,
{
    let ghost f = frame_alloc.frames();
    let mut frame_alloc = frame_alloc;
    let first_page = match frame_alloc.allocate() {
        Some(p) => p,
        None => {
            return false;
        },
    };
    heap.free_frames = Some(Vec::with_capacity(200));
    let mut manager = BuddyAllocatorManager::new();
    proof {
        lemma_heap_sizes();
    }
    manager.add_memory_area(first_page, first_page.offset(FRAME_SIZE), HEAP_BLOCK_SIZE);
    assert(manager@ =~= seq![fresh_region(f[0], FRAME_SIZE as int, HEAP_BLOCK_SIZE as int)]);
    manager.add_mem_area_with_size(&mut frame_alloc, FRAME_SIZE * 8, HEAP_BLOCK_SIZE);
    manager.add_mem_area_with_size(&mut frame_alloc, FRAME_SIZE * 64, HEAP_BLOCK_SIZE);
    manager.add_mem_area_with_size(&mut frame_alloc, 0x100_0000, HEAP_BLOCK_SIZE);
    let ghost g3 = (manager@, frame_alloc.frames());
    loop
        invariant_except_break
            grow_all(manager@, frame_alloc.frames(), 0x4000_0000, HEAP_BLOCK_SIZE).0 == grow_all(
                g3.0,
                g3.1,
                0x4000_0000,
                HEAP_BLOCK_SIZE,
            ).0,
        invariant
            manager.wf(),
            frame_alloc.wf(),
            growth_ok(0x4000_0000, HEAP_BLOCK_SIZE),
        ensures
            manager.wf(),
            manager@ == grow_all(g3.0, g3.1, 0x4000_0000, HEAP_BLOCK_SIZE).0,
        decreases frame_alloc.frames().len(),
    {
        if !manager.add_mem_area_with_size(&mut frame_alloc, 0x4000_0000, HEAP_BLOCK_SIZE) {
            break ;
        }
    }
    heap.strategy = Some(manager);
    heap.frame_allocator = None;
    true
}

} // verus!

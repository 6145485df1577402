//! The bump allocator of physical frames: it walks the usable memory areas that the
//! boot loader reported and hands out their frames one by one, never taking one back.

use vstd::prelude::*;
use crate::mem::{PhysAddr, FRAME_SIZE};

verus! {

/// A source of physical frames, one at a time.
pub trait FrameSingleAllocator: Sized {
    /// The frames that are still to come, in the order in which they come.
    spec fn frames(&self) -> Seq<u64>;

    /// The invariant of the source.
    spec fn wf(&self) -> bool;

    /// The next frame, or `None` once the source is exhausted. A frame never
    /// reaches past the end of the address space.
    fn allocate(&mut self) -> (r: Option<PhysAddr>)
        requires
            old(self).wf(),
        ensures
            final(self).wf(),
            match r {
                Some(p) => {
                    &&& old(self).frames().len() > 0
                    &&& p@ == old(self).frames()[0]
                    &&& p@ + FRAME_SIZE <= u64::MAX
                    &&& final(self).frames() == old(self).frames().skip(1)
                },
                None => old(self).frames().len() == 0 && final(self).frames().len() == 0,
            },
    ;
}

/// A usable area of physical memory, as the boot loader reports it.
#[derive(Copy, Clone, Debug, PartialEq, Eq, Structural)]
pub struct MemoryRegion {
    pub base: u64,
    pub length: u64,
}

/// The address rounded up to a frame boundary.
pub open spec fn align_up(a: int) -> int {
    ((a + FRAME_SIZE - 1) / (FRAME_SIZE as int)) * FRAME_SIZE
}

/// The address rounded down to a frame boundary.
pub open spec fn align_down(a: int) -> int {
    (a / (FRAME_SIZE as int)) * FRAME_SIZE
}

/// The first frame of an area that lies behind the kernel: the larger of the
/// area's base and the kernel's end, rounded up.
pub open spec fn area_start(kernel_end: u64, area: MemoryRegion) -> int {
    align_up(if area.base >= kernel_end {
        area.base as int
    } else {
        kernel_end as int
    })
}

/// The end of the last whole frame of an area.
pub open spec fn area_end(area: MemoryRegion) -> int {
    align_down(area.base + area.length)
}

/// The frames from `p` on that end at or before `end`.
pub open spec fn run_frames(p: int, end: int) -> Seq<u64>
    decreases end - p,
{
    if p + FRAME_SIZE <= end {
        seq![p as u64].add(run_frames(p + FRAME_SIZE, end))
    } else {
        Seq::empty()
    }
}

/// The frames of the areas from index `idx` on.
pub open spec fn later_frames(kernel_end: u64, areas: Seq<MemoryRegion>, idx: int) -> Seq<u64>
    decreases areas.len() - idx,
{
    if 0 <= idx < areas.len() {
        run_frames(area_start(kernel_end, areas[idx]), area_end(areas[idx])).add(
            later_frames(kernel_end, areas, idx + 1),
        )
    } else {
        Seq::empty()
    }
}

/// Whether the bounds of an area can be computed in 64 bits.
pub open spec fn area_fits(kernel_end: u64, area: MemoryRegion) -> bool {
    area.base + area.length <= u64::MAX && area.base + FRAME_SIZE <= u64::MAX && kernel_end
        + FRAME_SIZE <= u64::MAX
}

/// `multiboot2::MemoryMapTag`: the memory map that the boot loader hands over, a list
/// of areas of physical memory with their types.
#[verifier::external_type_specification]
#[verifier::external_body]
pub struct ExMemoryMapTag(multiboot2::MemoryMapTag);

/// `multiboot2::MemoryArea`: one area of the memory map. It is read only where
/// the areas are handed out as plain values.
#[verifier::external_type_specification]
#[verifier::external_body]
pub struct ExMemoryArea(multiboot2::MemoryArea);

/// An area of the boot loader's memory map, as plain values.
#[derive(Copy, Clone, Debug, PartialEq, Eq, Structural)]
pub struct BootArea {
    pub base: u64,
    pub length: u64,
    /// The type of the area: 1 for memory that may be used.
    pub kind: u32,
}

/// Type of an area that may be used.
pub const AREA_AVAILABLE: u32 = 1;

/// Size of an entry of the memory map that can be read here.
pub const MAP_ENTRY_SIZE: u32 = 24;

/// The size that the memory map gives for its entries.
pub uninterp spec fn map_entry_size(tag: &multiboot2::MemoryMapTag) -> u32;

/// The areas that the memory map holds, in their order.
pub uninterp spec fn map_areas(tag: &multiboot2::MemoryMapTag) -> Seq<BootArea>;

/// `MemoryMapTag::entry_size`: the entry size that the map was made with.
#[verifier::external_body]
fn entry_size(tag: &multiboot2::MemoryMapTag) -> (r: u32)
    ensures
        r == map_entry_size(tag),
{
    tag.entry_size()
}

/// `MemoryMapTag::memory_areas`, with `MemoryArea::start_address`, `size` and `typ`
/// for each area handed out: the areas of the map, in their order. The outside
/// function stops the program where the entry size is not that of its own
/// entries, 24 bytes.
#[verifier::external_body]
fn memory_areas(tag: &multiboot2::MemoryMapTag) -> (r: Vec<BootArea>)
    requires
        map_entry_size(tag) == MAP_ENTRY_SIZE,
    ensures
        r@ == map_areas(tag),
{
    tag.memory_areas()
        .iter()
        .map(|a| BootArea { base: a.start_address(), length: a.size(), kind: a.typ().val() })
        .collect()
}

/// The areas among the first `n` of `areas` that may be used and whose bounds can
/// be computed in 64 bits.
pub open spec fn usable_areas(areas: Seq<BootArea>, kernel_end: u64, n: nat) -> Seq<MemoryRegion>
    decreases n,
{
    if n == 0 {
        Seq::empty()
    } else {
        let a = areas[n - 1];
        let area = MemoryRegion { base: a.base, length: a.length };
        let before = usable_areas(areas, kernel_end, (n - 1) as nat);
        if a.kind == AREA_AVAILABLE && area_fits(kernel_end, area) {
            before.push(area)
        } else {
            before
        }
    }
}

/// The bump allocator over the boot loader's memory areas.
pub struct SimpleAllocator {
    kernel_end_phys: u64,
    mem_areas: Vec<MemoryRegion>,
    next_idx: usize,
    cur_area: Option<(u64, u64)>,
    next_page: Option<u64>,
}

impl SimpleAllocator {
    /// End of the kernel's sections: no frame before it is handed out.
    pub closed spec fn kernel_end(&self) -> u64 {
        self.kernel_end_phys
    }

    /// The memory areas that the allocator was made with.
    pub closed spec fn areas(&self) -> Seq<MemoryRegion> {
        self.mem_areas@
    }

    /// The frames left in the area in use.
    pub closed spec fn current_frames(&self) -> Seq<u64> {
        match (self.next_page, self.cur_area) {
            (Some(p), Some((_, end))) => run_frames(p as int, end as int),
            _ => Seq::empty(),
        }
    }

    /// Index of the first area not yet begun.
    pub closed spec fn next_area_index(&self) -> int {
        self.next_idx as int
    }

    /// The allocator over the usable areas of the boot loader's memory map, which
    /// hands out no frame that begins before `kernel_end_phys`. `None` if the
    /// entries of the map are not of the size that can be read.
    pub fn init(mem_tag: &multiboot2::MemoryMapTag, kernel_end_phys: u64) -> (r: Option<
        SimpleAllocator,
    >)
        ensures
            match r {
                Some(a) => {
                    let areas = usable_areas(
                        map_areas(mem_tag),
                        kernel_end_phys,
                        map_areas(mem_tag).len(),
                    );
                    &&& map_entry_size(mem_tag) == MAP_ENTRY_SIZE
                    &&& a.wf()
                    &&& a.kernel_end() == kernel_end_phys
                    &&& a.areas() == areas
                    &&& a.frames() == later_frames(kernel_end_phys, areas, 0)
                },
                None => map_entry_size(mem_tag) != MAP_ENTRY_SIZE,
            },
    {
        if entry_size(mem_tag) != MAP_ENTRY_SIZE {
            return None;
        }
        let all = memory_areas(mem_tag);
        let mut areas: Vec<MemoryRegion> = Vec::new();
        let mut n: usize = 0;
        while n < all.len()
            invariant
                n <= all@.len(),
                areas@ == usable_areas(all@, kernel_end_phys, n as nat),
                forall|i: int| 0 <= i < areas@.len() ==> area_fits(kernel_end_phys, #[trigger] areas@[i]),
            decreases all@.len() - n,
        {
            let a = all[n];
            let fits = a.base <= u64::MAX - a.length && a.base <= u64::MAX - FRAME_SIZE
                && kernel_end_phys <= u64::MAX - FRAME_SIZE;
            if a.kind == AREA_AVAILABLE && fits {
                areas.push(MemoryRegion { base: a.base, length: a.length });
            }
            n += 1;
        }
        Some(SimpleAllocator::from_areas(kernel_end_phys, areas))
    }

    /// The allocator over `areas`, which hands out no frame that begins before
    /// `kernel_end_phys`. The frames to come are those of all the areas, each from
    /// its first frame boundary behind the kernel to its last.
    pub fn from_areas(kernel_end_phys: u64, areas: Vec<MemoryRegion>) -> (a: SimpleAllocator)
        requires
            forall|i: int| 0 <= i < areas@.len() ==> area_fits(kernel_end_phys, #[trigger] areas@[i]),
        ensures
            a.wf(),
            a.kernel_end() == kernel_end_phys,
            a.areas() == areas@,
            a.frames() == later_frames(kernel_end_phys, areas@, 0),
    {
        let mut a = SimpleAllocator {
            kernel_end_phys,
            mem_areas: areas,
            next_idx: 0,
            cur_area: None,
            next_page: None,
        };
        assert(a.current_frames() =~= Seq::<u64>::empty());
        assert(a.frames() =~= later_frames(kernel_end_phys, a.mem_areas@, 0));
        a.next_area();
        a
    }

    /// Moves on to the next memory area, if there is one: returns its bounds, the
    /// first frame boundary behind the kernel and the last frame boundary.
    fn next_area(&mut self) -> (r: Option<(u64, u64)>)
        requires
            old(self).wf(),
            old(self).current_frames().len() == 0,
        ensures
            final(self).wf(),
            final(self).frames() == old(self).frames(),
            final(self).kernel_end() == old(self).kernel_end(),
            final(self).areas() == old(self).areas(),
            match r {
                Some((start, end)) => {
                    &&& old(self).next_area_index() < old(self).areas().len()
                    &&& final(self).next_area_index() == old(self).next_area_index() + 1
                    &&& start == area_start(
                        old(self).kernel_end(),
                        old(self).areas()[old(self).next_area_index()],
                    )
                    &&& end == area_end(old(self).areas()[old(self).next_area_index()])
                },
                None => {
                    &&& old(self).next_area_index() >= old(self).areas().len()
                    &&& final(self).next_area_index() == old(self).next_area_index()
                    &&& final(self).frames().len() == 0
                },
            },
    {
        if self.next_idx < self.mem_areas.len() {
            let mem_area = self.mem_areas[self.next_idx];
            let base_addr = mem_area.base;
            let area_len = mem_area.length;
            let mem_start = if base_addr >= self.kernel_end_phys {
                base_addr
            } else {
                self.kernel_end_phys
            };
            let mem_end = base_addr + area_len;
            let start_addr = ((mem_start + FRAME_SIZE - 1) / FRAME_SIZE) * FRAME_SIZE;
            let end_addr = (mem_end / FRAME_SIZE) * FRAME_SIZE;
            proof {
                assert(old(self).frames() =~= later_frames(
                    self.kernel_end_phys,
                    self.mem_areas@,
                    self.next_idx as int,
                ));
            }
            self.next_idx += 1;
            self.next_page = Some(start_addr);
            self.cur_area = Some((start_addr, end_addr));
            Some((start_addr, end_addr))
        } else {
            self.cur_area = None;
            proof {
                assert(old(self).frames() =~= Seq::<u64>::empty());
                assert(self.frames() =~= Seq::<u64>::empty());
            }
            None
        }
    }
}

impl FrameSingleAllocator for SimpleAllocator {
    closed spec fn frames(&self) -> Seq<u64> {
        self.current_frames().add(
            later_frames(self.kernel_end_phys, self.mem_areas@, self.next_idx as int),
        )
    }

    closed spec fn wf(&self) -> bool {
        &&& self.next_idx <= self.mem_areas@.len()
        &&& forall|i: int|
            0 <= i < self.mem_areas@.len() ==> area_fits(
                self.kernel_end_phys,
                #[trigger] self.mem_areas@[i],
            )
    }

    /// The next frame of the area in use; when no whole frame is left in it, the
    /// first frame of the next area that has one.
    fn allocate(&mut self) -> (r: Option<PhysAddr>) {
        loop
            invariant
                self.wf(),
                self.frames() == old(self).frames(),
            decreases self.mem_areas@.len() - self.next_idx,
        {
            let fits = match (self.next_page, self.cur_area) {
                (Some(p), Some((_, end))) => end >= FRAME_SIZE && p <= end - FRAME_SIZE,
                _ => false,
            };
            if fits {
                let p = match self.next_page {
                    Some(p) => p,
                    None => 0,
                };
                let ghost before = self.current_frames();
                self.next_page = Some(p + FRAME_SIZE);
                proof {
                    let bounds = self.cur_area->0;
                    let end = bounds.1;
                    assert(before == seq![p].add(run_frames(p + FRAME_SIZE, end as int)));
                    assert(old(self).frames().skip(1) =~= self.frames());
                }
                return Some(PhysAddr::new(p));
            }
            proof {
                assert(self.current_frames() =~= Seq::<u64>::empty()) by {
                    match (self.next_page, self.cur_area) {
                        (Some(p), Some((_, end))) => {
                            assert(!(p + FRAME_SIZE <= end));
                        },
                        _ => {},
                    }
                }
            }
            if self.next_area().is_none() {
                return None;
            }
        }
    }
}

/// The frames of a run lie one behind the other from its start, and each ends at
/// or before the end of the run.
pub proof fn lemma_run_frames(p: int, end: int, j: int)
    requires
        0 <= p,
        end <= u64::MAX,
        0 <= j < run_frames(p, end).len(),
    ensures
        run_frames(p, end)[j] == p + j * FRAME_SIZE,
        p + j * FRAME_SIZE + FRAME_SIZE <= end,
    decreases end - p,
{
    if p + FRAME_SIZE <= end {
        if j > 0 {
            lemma_run_frames(p + FRAME_SIZE, end, j - 1);
            assert(run_frames(p, end)[j] == run_frames(p + FRAME_SIZE, end)[j - 1]);
        }
    }
}

/// Every frame that the bump allocator hands out begins at a frame boundary, not
/// before the end of the kernel, and lies as a whole in one of the memory areas:
/// nothing of the kernel and nothing outside usable memory is ever handed out.
pub proof fn law_frames_lie_in_usable_memory(
    kernel_end: u64,
    areas: Seq<MemoryRegion>,
    idx: int,
    j: int,
)
    requires
        0 <= idx,
        forall|i: int| 0 <= i < areas.len() ==> area_fits(kernel_end, #[trigger] areas[i]),
        0 <= j < later_frames(kernel_end, areas, idx).len(),
    ensures
        ({
            let f = later_frames(kernel_end, areas, idx)[j];
            &&& f % FRAME_SIZE == 0
            &&& f >= kernel_end
            &&& exists|a: int|
                idx <= a < areas.len() && (#[trigger] areas[a]).base <= f && f + FRAME_SIZE
                    <= areas[a].base + areas[a].length
        }),
    decreases areas.len() - idx,
{
    if idx < areas.len() {
        let area = areas[idx];
        let start = area_start(kernel_end, area);
        let end = area_end(area);
        let here = run_frames(start, end);
        if j < here.len() {
            lemma_run_frames(start, end, j);
            assert(later_frames(kernel_end, areas, idx)[j] == here[j]);
            assert(areas[idx].base <= here[j]);
        } else {
            law_frames_lie_in_usable_memory(kernel_end, areas, idx + 1, j - here.len());
            let f = later_frames(kernel_end, areas, idx + 1)[j - here.len()];
            assert(later_frames(kernel_end, areas, idx)[j] == f);
            let a = choose|a: int|
                idx + 1 <= a < areas.len() && (#[trigger] areas[a]).base <= f && f + FRAME_SIZE
                    <= areas[a].base + areas[a].length;
            assert(idx <= a < areas.len() && areas[a].base <= f);
        }
    }
}

} // verus!

//! The set of buddy regions behind the heap: regions are added as runs of
//! contiguous frames are pulled from the frame allocator; a request goes to the
//! first region that can serve it, a block goes back to the region that holds it.

use vstd::prelude::*;
use vstd::arithmetic::power2::{pow2, lemma_pow2_adds, lemma_pow2_pos, lemma_pow2_unfold, lemma2_to64};
use crate::buddy_alloc::{fresh_region, region_ok, BuddyAllocator, BuddyView};
use crate::frame_alloc::FrameSingleAllocator;
use crate::mem::{PhysAddr, VirtAddr, FRAME_SIZE};
use crate::paging::TableMemory;

verus! {

/// What pulling a run of frames gave.
#[derive(Copy, Clone, Debug)]
pub enum MemAreaRequest {
    /// A run of exactly the size asked for: its first address and its end.
    Success((PhysAddr, PhysAddr)),
    /// The run was cut short: the largest power-of-two piece at its start, and the
    /// largest such piece of what is left behind it, if a frame is left.
    SmallerThanReq((PhysAddr, PhysAddr), Option<(PhysAddr, PhysAddr)>),
    /// No frame could be had.
    Fail,
}

/// The largest of `p`, `2p`, `4p`, ... that is at most `len`, for `p` at most `len`.
pub open spec fn largest_double(p: int, len: int) -> int
    decreases len - p,
{
    if p > 0 && 2 * p <= len {
        largest_double(2 * p, len)
    } else {
        p
    }
}

/// The largest piece of a power-of-two number of frames that fits at the start of
/// the range from `start` to `end`; `None` if not one frame fits.
pub open spec fn largest_page_multiple(start: int, end: int) -> Option<(PhysAddr, PhysAddr)> {
    if end - start < FRAME_SIZE {
        None
    } else {
        Some(
            (
                PhysAddr(start as u64),
                PhysAddr((start + largest_double(FRAME_SIZE as int, end - start)) as u64),
            ),
        )
    }
}

/// Length in frames of the run at the head of `f`, given that the first `i` frames
/// belong to it: it goes on while it is shorter than `mem_size` bytes and the next
/// frame follows the last one directly.
pub open spec fn run_from(f: Seq<u64>, i: int, mem_size: u64) -> int
    decreases f.len() - i,
{
    if 0 < i < f.len() && i * FRAME_SIZE < mem_size && f[i] == f[0] + i * FRAME_SIZE {
        run_from(f, i + 1, mem_size)
    } else {
        i
    }
}

/// Length in frames of the run at the head of `f`.
pub open spec fn run_length(f: Seq<u64>, mem_size: u64) -> int {
    run_from(f, 1, mem_size)
}

/// How many frames pulling a run uses up: the run and, where a frame that did not
/// follow directly ended it, that frame too, which is lost.
pub open spec fn run_consumed(f: Seq<u64>, mem_size: u64) -> int {
    let r = run_length(f, mem_size);
    if f.len() == 0 {
        0
    } else if r * FRAME_SIZE < mem_size && r < f.len() {
        r + 1
    } else {
        r
    }
}

/// What pulling a run of `mem_size` bytes from the frames `f` gives.
pub open spec fn extract_region(f: Seq<u64>, mem_size: u64) -> MemAreaRequest {
    let r = run_length(f, mem_size);
    if f.len() == 0 {
        MemAreaRequest::Fail
    } else if r * FRAME_SIZE == mem_size {
        MemAreaRequest::Success((PhysAddr(f[0]), PhysAddr((f[0] + mem_size) as u64)))
    } else {
        match largest_page_multiple(f[0] as int, f[0] + r * FRAME_SIZE) {
            Some(first) => MemAreaRequest::SmallerThanReq(
                first,
                largest_page_multiple(first.1@ as int, f[0] + r * FRAME_SIZE),
            ),
            None => MemAreaRequest::Fail,
        }
    }
}

/// The largest piece is a power-of-two number of frames, fits, and is more than
/// half of what it was cut from.
pub proof fn lemma_largest_double(p: int, len: int, j: nat)
    requires
        p == FRAME_SIZE * pow2(j),
        p <= len,
    ensures
        largest_double(p, len) <= len < 2 * largest_double(p, len),
        exists|k: nat| j <= k && largest_double(p, len) == FRAME_SIZE * #[trigger] pow2(k),
    decreases len - p,
{
    lemma_pow2_pos(j);
    if 2 * p <= len {
        lemma_pow2_unfold(j + 1);
        assert(2 * (FRAME_SIZE * pow2(j)) == FRAME_SIZE * (2 * pow2(j))) by (nonlinear_arith);
        lemma_largest_double(2 * p, len, j + 1);
    } else {
        assert(largest_double(p, len) == FRAME_SIZE * pow2(j));
    }
}

/// Whether regions for requests of `mem_size` bytes with leaves of `block_size`
/// bytes can be managed: the leaf size is a power of two up to a frame, and the
/// size is a whole number of frames and is the leaf size doubled at most 32 times.
pub open spec fn growth_ok(mem_size: u64, block_size: u16) -> bool {
    &&& exists|e: nat| e <= 12 && block_size == #[trigger] pow2(e)
    &&& exists|n: nat| n <= 32 && mem_size == block_size * #[trigger] pow2(n)
    &&& mem_size % FRAME_SIZE == 0
}

/// The regions and the frames left after regions were added until a run of
/// `mem_size` bytes was found or the frames ran out, and whether one was found:
/// each run that was cut short gives one or two smaller regions.
pub open spec fn grow(regions: Seq<BuddyView>, f: Seq<u64>, mem_size: u64, block_size: u16) -> (
    Seq<BuddyView>,
    Seq<u64>,
    bool,
)
    decreases f.len(),
{
    let used = run_consumed(f, mem_size);
    match extract_region(f, mem_size) {
        MemAreaRequest::Success((a, b)) => (
            regions.push(fresh_region(a@, b@ - a@, block_size as int)),
            f.skip(used),
            true,
        ),
        MemAreaRequest::SmallerThanReq((a, b), second) => {
            let r1 = regions.push(fresh_region(a@, b@ - a@, block_size as int));
            let r2 = match second {
                Some((c, d)) => r1.push(fresh_region(c@, d@ - c@, block_size as int)),
                None => r1,
            };
            if 1 <= used <= f.len() {
                grow(r2, f.skip(used), mem_size, block_size)
            } else {
                (r2, f, false)
            }
        },
        MemAreaRequest::Fail => (regions, f.skip(used), false),
    }
}

/// A run holds at least the first frame, no more frames than there are, and no
/// more than the size asked for, rounded up to whole frames.
pub proof fn lemma_run_from(f: Seq<u64>, i: int, mem_size: u64)
    requires
        1 <= i <= f.len(),
        (i - 1) * FRAME_SIZE < mem_size || i == 1,
    ensures
        i <= run_from(f, i, mem_size) <= f.len(),
        (run_from(f, i, mem_size) - 1) * FRAME_SIZE < mem_size || run_from(f, i, mem_size) == 1,
    decreases f.len() - i,
{
    if i < f.len() && i * FRAME_SIZE < mem_size && f[i] == f[0] + i * FRAME_SIZE {
        lemma_run_from(f, i + 1, mem_size);
    }
}

/// The frames of a run follow one another directly: frame `c` of the run lies `c`
/// frames behind the first. So a region made from a run consists of just the
/// frames that were pulled for it.
pub proof fn law_run_is_contiguous(f: Seq<u64>, mem_size: u64, c: int)
    requires
        f.len() > 0,
        0 <= c < run_length(f, mem_size),
    ensures
        c < f.len(),
        f[c] == f[0] + c * FRAME_SIZE,
{
    lemma_run_contiguous_from(f, 1, mem_size, c);
}

proof fn lemma_run_contiguous_from(f: Seq<u64>, i: int, mem_size: u64, c: int)
    requires
        1 <= i <= f.len(),
        forall|d: int| 0 <= d < i ==> #[trigger] f[d] == f[0] + d * FRAME_SIZE,
        0 <= c < run_from(f, i, mem_size),
    ensures
        c < f.len(),
        f[c] == f[0] + c * FRAME_SIZE,
    decreases f.len() - i,
{
    if i < f.len() && i * FRAME_SIZE < mem_size && f[i] == f[0] + i * FRAME_SIZE {
        lemma_run_contiguous_from(f, i + 1, mem_size, c);
    }
}

/// Whether the range from `a` to `b` is a piece of a power-of-two number of frames,
/// of one frame or of less than a frame more than `mem_size` bytes.
pub open spec fn piece_ok(a: PhysAddr, b: PhysAddr, mem_size: u64) -> bool {
    &&& a@ <= b@
    &&& exists|k: nat| b@ - a@ == FRAME_SIZE * #[trigger] pow2(k)
    &&& b@ - a@ <= FRAME_SIZE || b@ - a@ < mem_size + FRAME_SIZE
}

/// A piece of a power-of-two number of frames that is smaller than a size that can
/// be managed can be managed too.
proof fn lemma_piece_ok(start: u64, k: nat, mem_size: u64, block_size: u16)
    requires
        growth_ok(mem_size, block_size),
        FRAME_SIZE * pow2(k) <= mem_size,
        start + FRAME_SIZE * pow2(k) <= u64::MAX,
    ensures
        region_ok(start, (start + FRAME_SIZE * pow2(k)) as u64, block_size),
{
    let e = choose|e: nat| e <= 12 && block_size == #[trigger] pow2(e);
    let n = choose|n: nat| n <= 32 && mem_size == block_size * #[trigger] pow2(n);
    lemma2_to64();
    lemma_pow2_adds(e, n);
    lemma_pow2_adds(12, k);
    lemma_pow2_pos(k);
    assert(FRAME_SIZE * pow2(k) == pow2(12 + k));
    assert(mem_size == pow2(e + n));
    if 12 + k > e + n {
        vstd::arithmetic::power2::lemma_pow2_strictly_increases(e + n, 12 + k);
        assert(false);
    }
    let m = (12 + k - e) as nat;
    lemma_pow2_adds(e, m);
    assert(block_size * pow2(m) == FRAME_SIZE * pow2(k));
    assert(m <= 32);
}

/// The buddy regions behind the heap, in the order in which they were added.
pub struct BuddyAllocatorManager {
    buddy_allocators: Vec<BuddyAllocator>,
}

impl View for BuddyAllocatorManager {
    type V = Seq<BuddyView>;

    closed spec fn view(&self) -> Seq<BuddyView> {
        Seq::new(self.buddy_allocators@.len(), |i: int| self.buddy_allocators@[i]@)
    }
}

impl BuddyAllocatorManager {
    /// Every region keeps its invariant.
    pub closed spec fn wf(&self) -> bool {
        forall|i: int|
            0 <= i < self.buddy_allocators@.len() ==> (#[trigger] self.buddy_allocators@[i]).wf()
    }

    /// The invariant of the set gives that of each region.
    pub proof fn lemma_wf(&self, i: int)
        requires
            self.wf(),
            0 <= i < self@.len(),
        ensures
            self@[i].wf(),
    {
        self.buddy_allocators@[i].lemma_wf();
    }

    /// A set with no region.
    pub fn new() -> (m: BuddyAllocatorManager)
        ensures
            m.wf(),
            m@ == Seq::<BuddyView>::empty(),
    {
        let m = BuddyAllocatorManager { buddy_allocators: Vec::new() };
        assert(m@ =~= Seq::<BuddyView>::empty());
        m
    }

    /// Number of regions.
    pub fn len(&self) -> (n: usize)
        ensures
            n == self@.len(),
    {
        self.buddy_allocators.len()
    }

    /// Adds the region from `start_addr` up to `end_addr`, as one free block.
    pub fn add_memory_area(&mut self, start_addr: PhysAddr, end_addr: PhysAddr, block_size: u16)
        requires
            old(self).wf(),
            region_ok(start_addr@, end_addr@, block_size),
        ensures
            final(self).wf(),
            final(self)@ == old(self)@.push(
                fresh_region(start_addr@, end_addr@ - start_addr@, block_size as int),
            ),
    {
        let new_buddy_alloc = BuddyAllocator::new(start_addr, end_addr, block_size);
        self.buddy_allocators.push(new_buddy_alloc);
        assert(self@ =~= old(self)@.push(
            fresh_region(start_addr@, end_addr@ - start_addr@, block_size as int),
        ));
    }

    /// The largest piece of a power-of-two number of frames at the start of the
    /// range from `start` to `end`.
    pub fn get_largest_page_multiple(start: u64, end: u64) -> (r: Option<(PhysAddr, PhysAddr)>)
        requires
            start <= end,
        ensures
            r == largest_page_multiple(start as int, end as int),
            match r {
                Some((a, b)) => a@ == start && b@ <= end && exists|k: nat|
                    b@ - a@ == FRAME_SIZE * #[trigger] pow2(k),
                None => true,
            },
    {
        let mem_len = end - start;
        if mem_len < FRAME_SIZE {
            None
        } else {
            let mut page_mult: u64 = FRAME_SIZE;
            proof {
                lemma2_to64();
                lemma_largest_double(FRAME_SIZE as int, mem_len as int, 0);
            }
            while page_mult <= mem_len / 2
                invariant
                    0 < page_mult <= mem_len,
                    largest_double(page_mult as int, mem_len as int) == largest_double(
                        FRAME_SIZE as int,
                        mem_len as int,
                    ),
                decreases mem_len - page_mult,
            {
                page_mult = page_mult * 2;
            }
            let start_addr = PhysAddr::new(start);
            Some((start_addr, start_addr.offset(page_mult)))
        }
    }

    /// Pulls frames for a run of `mem_size` bytes: the first frame, and then frames
    /// as long as the run is shorter than asked and the next frame follows the last
    /// one directly. A frame that does not follow ends the run and is lost.
    pub fn get_mem_area_with_size<A: FrameSingleAllocator>(
        frame_alloc: &mut A,
        mem_size: u64,
    ) -> (r: MemAreaRequest)
        requires
            old(frame_alloc).wf(),
        ensures
            final(frame_alloc).wf(),
            r == extract_region(old(frame_alloc).frames(), mem_size),
            final(frame_alloc).frames() == old(frame_alloc).frames().skip(
                run_consumed(old(frame_alloc).frames(), mem_size),
            ),
            old(frame_alloc).frames().len() > 0 ==> 1 <= run_consumed(
                old(frame_alloc).frames(),
                mem_size,
            ) <= old(frame_alloc).frames().len(),
            match r {
                MemAreaRequest::Success((a, b)) => a@ <= b@ && b@ - a@ == mem_size,
                MemAreaRequest::SmallerThanReq((a, b), second) => {
                    &&& piece_ok(a, b, mem_size)
                    &&& match second {
                        Some((c, d)) => piece_ok(c, d, mem_size),
                        None => true,
                    }
                },
                MemAreaRequest::Fail => old(frame_alloc).frames().len() == 0,
            },
    {
        let ghost f = frame_alloc.frames();
        match frame_alloc.allocate() {
            Some(first_page) => {
                let first_addr = first_page.addr();
                let mut last_addr = first_addr + FRAME_SIZE;
                let mut going = true;
                let ghost mut count: int = 1;
                let ghost mut used: int = 1;
                while going && last_addr - first_addr < mem_size
                    invariant
                        frame_alloc.wf(),
                        1 <= count <= f.len(),
                        count <= used <= f.len(),
                        going ==> used == count,
                        !going ==> run_from(f, count, mem_size) == count && (used == count + 1
                            && count * FRAME_SIZE < mem_size || used == count && count == f.len()),
                        first_addr == f[0],
                        last_addr == first_addr + count * FRAME_SIZE,
                        frame_alloc.frames() == f.skip(used),
                        run_from(f, count, mem_size) == run_length(f, mem_size),
                        count == 1 || (count - 1) * FRAME_SIZE < mem_size,
                        last_addr <= u64::MAX,
                    decreases f.len() - used + (if going { 1int } else { 0int }),
                {
                    match frame_alloc.allocate() {
                        Some(next_page) => {
                            if next_page.addr() == last_addr {
                                last_addr = last_addr + FRAME_SIZE;
                                proof {
                                    assert(f.skip(count)[0] == f[count]);
                                    assert(f.skip(count).skip(1) =~= f.skip(count + 1));
                                    count = count + 1;
                                    used = count;
                                }
                            } else {
                                proof {
                                    assert(f.skip(count)[0] == f[count]);
                                    assert(f.skip(count).skip(1) =~= f.skip(count + 1));
                                    used = count + 1;
                                }
                                going = false;
                            }
                        },
                        None => {
                            going = false;
                        },
                    }
                }
                proof {
                    assert(run_length(f, mem_size) == count);
                }
                if last_addr - first_addr == mem_size {
                    MemAreaRequest::Success((PhysAddr::new(first_addr), PhysAddr::new(last_addr)))
                } else {
                    match Self::get_largest_page_multiple(first_addr, last_addr) {
                        Some(first_memarea) => {
                            let second_memarea = Self::get_largest_page_multiple(
                                first_memarea.1.addr(),
                                last_addr,
                            );
                            MemAreaRequest::SmallerThanReq(first_memarea, second_memarea)
                        },
                        None => MemAreaRequest::Fail,
                    }
                }
            },
            None => {
                assert(f.skip(0) =~= f);
                MemAreaRequest::Fail
            },
        }
    }
}

/// Whether a region can serve a request of `req` bytes: it is large enough, and the
/// level that serves the request or a level above has a free block.
pub open spec fn can_serve(v: BuddyView, req: int) -> bool {
    req <= v.max_size() && v.donor(v.level_for(req)) >= 0
}

/// The first region from index `from` on that can serve a request; -1 if none can.
pub open spec fn first_server(regions: Seq<BuddyView>, req: int, from: int) -> int
    decreases regions.len() - from,
{
    if from < 0 || from >= regions.len() {
        -1
    } else if can_serve(regions[from], req) {
        from
    } else {
        first_server(regions, req, from + 1)
    }
}

/// The first region from index `from` on in which `addr` lies; -1 if it lies in none.
pub open spec fn first_holder(regions: Seq<BuddyView>, addr: u64, from: int) -> int
    decreases regions.len() - from,
{
    if from < 0 || from >= regions.len() {
        -1
    } else if regions[from].start <= addr < regions[from].start + regions[from].max_size() {
        from
    } else {
        first_holder(regions, addr, from + 1)
    }
}

/// The larger of a request's size and its alignment: what a block must hold.
pub open spec fn request_size(size: usize, alignment: usize) -> int {
    if size >= alignment {
        size as int
    } else {
        alignment as int
    }
}

impl BuddyAllocatorManager {
    /// Adds regions from the frames of `frame_alloc` until a run of `mem_size`
    /// bytes was found and added, or the frames ran out; each run that was cut
    /// short is added as one or two smaller regions. Returns whether a region of
    /// the full size was added.
    pub fn add_mem_area_with_size<A: FrameSingleAllocator>(
        &mut self,
        frame_alloc: &mut A,
        mem_size: u64,
        block_size: u16,
    ) -> (found: bool)
        requires
            old(self).wf(),
            old(frame_alloc).wf(),
            growth_ok(mem_size, block_size),
        ensures
            final(self).wf(),
            final(frame_alloc).wf(),
            ({
                let g = grow(old(self)@, old(frame_alloc).frames(), mem_size, block_size);
                final(self)@ == g.0 && final(frame_alloc).frames() == g.1 && found == g.2
            }),
            found ==> final(frame_alloc).frames().len() < old(frame_alloc).frames().len(),
            final(frame_alloc).frames().len() <= old(frame_alloc).frames().len(),
    {
        loop
            invariant
                self.wf(),
                frame_alloc.wf(),
                growth_ok(mem_size, block_size),
                grow(self@, frame_alloc.frames(), mem_size, block_size) == grow(
                    old(self)@,
                    old(frame_alloc).frames(),
                    mem_size,
                    block_size,
                ),
                frame_alloc.frames().len() <= old(frame_alloc).frames().len(),
            decreases frame_alloc.frames().len(),
        {
            let ghost f = frame_alloc.frames();
            let ghost regions = self@;
            match Self::get_mem_area_with_size(frame_alloc, mem_size) {
                MemAreaRequest::Success((mem_start, mem_end)) => {
                    proof {
                        let n = choose|n: nat| n <= 32 && mem_size == block_size * #[trigger] pow2(n);
                        let e = choose|e: nat| e <= 12 && block_size == #[trigger] pow2(e);
                        assert(mem_end@ - mem_start@ == block_size * pow2(n));
                        lemma_pow2_pos(e);
                    }
                    self.add_memory_area(mem_start, mem_end, block_size);
                    return true;
                },
                MemAreaRequest::SmallerThanReq((mem_start, mem_end), second_area) => {
                    proof {
                        lemma_piece_region(mem_start, mem_end, mem_size, block_size);
                    }
                    self.add_memory_area(mem_start, mem_end, block_size);
                    if let Some((mem_start, mem_end)) = second_area {
                        proof {
                            lemma_piece_region(mem_start, mem_end, mem_size, block_size);
                        }
                        self.add_memory_area(mem_start, mem_end, block_size);
                    }
                },
                MemAreaRequest::Fail => {
                    return false;
                },
            }
        }
    }

    /// Serves a request from the first region that can serve it, and returns the
    /// block's address in the direct map; `None` where that region lies above the
    /// direct map, though the block is then handed out all the same. `None`, with
    /// nothing changed, if no region can serve the request.
    pub fn allocate(&mut self, size: usize, alignment: usize) -> (r: Option<VirtAddr>)
        requires
            old(self).wf(),
        ensures
            final(self).wf(),
            ({
                let req = request_size(size, alignment);
                let j = first_server(old(self)@, req, 0);
                if j < 0 {
                    r is None && final(self)@ == old(self)@
                } else {
                    let v = old(self)@[j];
                    let k = v.level_for(req);
                    &&& j < old(self)@.len()
                    &&& final(self)@ == old(self)@.update(j, v.after_take(k))
                    &&& r == PhysAddr(v.block_addr(k, v.taken(k)) as u64).to_virt_spec()
                }
            }),
    {
        let ghost req = request_size(size, alignment);
        let mut i: usize = 0;
        while i < self.buddy_allocators.len()
            invariant
                self.wf(),
                self@ == old(self)@,
                i <= self.buddy_allocators@.len(),
                req == request_size(size, alignment),
                first_server(self@, req, i as int) == first_server(self@, req, 0),
            decreases self.buddy_allocators@.len() - i,
        {
            let ghost before = self.buddy_allocators@;
            let ghost v = self@[i as int];
            assert(v == before[i as int]@);
            match self.buddy_allocators[i].allocate(size, alignment) {
                Some(phys) => {
                    proof {
                        assert(can_serve(v, req));
                        assert(first_server(old(self)@, req, 0) == i);
                        assert(self.buddy_allocators@ =~= before.update(
                            i as int,
                            self.buddy_allocators@[i as int],
                        ));
                        assert(self@ =~= old(self)@.update(i as int, v.after_take(v.level_for(req))));
                        assert forall|c: int| 0 <= c < self.buddy_allocators@.len() implies (
                        #[trigger] self.buddy_allocators@[c]).wf() by {
                            if c != i {
                                assert(self.buddy_allocators@[c] == before[c]);
                            }
                        }
                    }
                    return phys.to_virt();
                },
                None => {
                    proof {
                        assert(!can_serve(v, req));
                        assert(self.buddy_allocators@ =~= before.update(
                            i as int,
                            self.buddy_allocators@[i as int],
                        ));
                        assert(self.buddy_allocators@[i as int]@ == before[i as int]@);
                        assert(self@ =~= old(self)@);
                        assert forall|c: int| 0 <= c < self.buddy_allocators@.len() implies (
                        #[trigger] self.buddy_allocators@[c]).wf() by {
                            if c != i {
                                assert(self.buddy_allocators@[c] == before[c]);
                            }
                        }
                    }
                },
            }
            i += 1;
        }
        None
    }

    /// Takes back the block at the virtual address `ptr`, which served a request of
    /// `size` bytes aligned to `alignment`: the address is resolved through the page
    /// tables under `root`, and the block goes back to the first region in which
    /// the physical address lies. Nothing is done where the address is not mapped
    /// or lies in no region.
    pub fn dealloc(
        &mut self,
        mem: &TableMemory,
        root: PhysAddr,
        ptr: VirtAddr,
        size: usize,
        alignment: usize,
    )
        requires
            old(self).wf(),
            mem.wf(),
            ({
                let req = request_size(size, alignment);
                match mem@.resolve(root@, ptr) {
                    Some((phys, e)) => {
                        let j = first_holder(old(self)@, phys@, 0);
                        j >= 0 && req <= old(self)@[j].max_size() ==> old(self)@[j].handed_out(
                            phys@,
                            req,
                        )
                    },
                    None => true,
                }
            }),
        ensures
            final(self).wf(),
            ({
                let req = request_size(size, alignment);
                match mem@.resolve(root@, ptr) {
                    Some((phys, e)) => {
                        let j = first_holder(old(self)@, phys@, 0);
                        if j >= 0 && req <= old(self)@[j].max_size() {
                            let v = old(self)@[j];
                            let k = v.level_for(req);
                            final(self)@ == old(self)@.update(
                                j,
                                v.after_free(k, v.block_at(phys@, k)),
                            )
                        } else {
                            final(self)@ == old(self)@
                        }
                    },
                    None => final(self)@ == old(self)@,
                }
            }),
    {
        if let Some((phys_addr, e)) = ptr.to_phys(mem, root) {
            let ghost req = request_size(size, alignment);
            let mut i: usize = 0;
            while i < self.buddy_allocators.len()
                invariant
                    self.wf(),
                    *self == *old(self),
                    i <= self.buddy_allocators@.len(),
                    req == request_size(size, alignment),
                    mem@.resolve(root@, ptr) == Some((phys_addr, e)),
                    ({
                        let j = first_holder(self@, phys_addr@, 0);
                        j >= 0 && req <= self@[j].max_size() ==> self@[j].handed_out(
                            phys_addr@,
                            req,
                        )
                    }),
                    first_holder(self@, phys_addr@, i as int) == first_holder(
                        self@,
                        phys_addr@,
                        0,
                    ),
                decreases self.buddy_allocators@.len() - i,
            {
                proof {
                    self.buddy_allocators@[i as int].lemma_wf();
                }
                let ghost v = self@[i as int];
                assert(v == self.buddy_allocators@[i as int]@);
                if self.buddy_allocators[i].contains(phys_addr) {
                    let ghost before = self.buddy_allocators@;
                    proof {
                        assert(first_holder(self@, phys_addr@, 0) == i);
                    }
                    self.buddy_allocators[i].dealloc(phys_addr, size, alignment);
                    proof {
                        assert(self.buddy_allocators@ =~= before.update(
                            i as int,
                            self.buddy_allocators@[i as int],
                        ));
                        assert forall|c: int| 0 <= c < self.buddy_allocators@.len() implies (
                        #[trigger] self.buddy_allocators@[c]).wf() by {
                            if c != i {
                                assert(self.buddy_allocators@[c] == before[c]);
                            }
                        }
                        if req <= v.max_size() {
                            assert(self@ =~= old(self)@.update(
                                i as int,
                                v.after_free(v.level_for(req), v.block_at(phys_addr@, v.level_for(req))),
                            ));
                        } else {
                            assert(self@ =~= old(self)@);
                        }
                    }
                    return ;
                }
                i += 1;
            }
        }
    }
}

/// A piece cut from a run for a size that can be managed is a region that can be
/// managed.
proof fn lemma_piece_region(a: PhysAddr, b: PhysAddr, mem_size: u64, block_size: u16)
    requires
        growth_ok(mem_size, block_size),
        piece_ok(a, b, mem_size),
    ensures
        region_ok(a@, b@, block_size),
{
    let k = choose|k: nat| b@ - a@ == FRAME_SIZE * #[trigger] pow2(k);
    let e = choose|e: nat| e <= 12 && block_size == #[trigger] pow2(e);
    let n = choose|n: nat| n <= 32 && mem_size == block_size * #[trigger] pow2(n);
    lemma_pow2_pos(k);
    lemma_pow2_pos(e);
    lemma_pow2_pos(n);
    let x = pow2(k) as int;
    assert(mem_size >= 1) by (nonlinear_arith)
        requires
            mem_size == block_size * pow2(n),
            block_size >= 1,
            pow2(n) >= 1,
    ;
    assert(mem_size >= FRAME_SIZE);
    let y = mem_size as int / FRAME_SIZE as int;
    assert(mem_size == FRAME_SIZE * y);
    assert(FRAME_SIZE * x <= mem_size) by (nonlinear_arith)
        requires
            FRAME_SIZE * x <= FRAME_SIZE || FRAME_SIZE * x < FRAME_SIZE * y + FRAME_SIZE,
            mem_size == FRAME_SIZE * y,
            mem_size >= FRAME_SIZE,
            x >= 1,
            FRAME_SIZE == 4096,
    ;
    lemma_piece_ok(a@, k, mem_size, block_size);
}

} // verus!

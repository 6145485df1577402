//! The buddy allocator of one region: a contiguous range of physical memory, cut
//! into blocks of power-of-two sizes that are split on demand and merged again
//! when both halves are free.

use vstd::prelude::*;
use vstd::arithmetic::power2::{pow2, lemma_pow2_pos, lemma_pow2_unfold, lemma_pow2_adds, lemma_pow2_strictly_increases, lemma2_to64};
use crate::mem::PhysAddr;

verus! {

/// Index `i` halved `d` times: the block `d` levels up that holds block `i`.
pub open spec fn up(i: int, d: nat) -> int
    decreases d,
{
    if d == 0 {
        i
    } else {
        up(i / 2, (d - 1) as nat)
    }
}

/// The other half of the block that holds block `i`.
pub open spec fn buddy(i: int) -> int {
    if i % 2 == 0 {
        i + 1
    } else {
        i - 1
    }
}

/// What the contracts see of a buddy region.
pub struct BuddyView {
    /// First address of the region.
    pub start: u64,
    /// Size of a block at the last level.
    pub leaf: int,
    /// Number of levels below level 0; level `k` has `2^k` blocks.
    pub levels: int,
    /// The free blocks of each level, by index, in the order in which they are kept.
    pub free: Seq<Seq<u32>>,
    /// The blocks handed out and not given back, as (level, index).
    pub live: Set<(int, int)>,
}

impl BuddyView {
    /// Size of the region, and of the one block at level 0.
    pub open spec fn max_size(self) -> int {
        self.leaf * pow2(self.levels as nat)
    }

    /// Size of a block at level `k`.
    pub open spec fn size_at(self, k: int) -> int {
        self.leaf * pow2((self.levels - k) as nat)
    }

    pub open spec fn is_free(self, k: int, i: int) -> bool {
        0 <= k <= self.levels && 0 <= i <= u32::MAX && self.free[k].contains(i as u32)
    }

    /// Whether block `i` of level `k` is free or handed out as a whole.
    pub open spec fn occupied(self, k: int, i: int) -> bool {
        self.is_free(k, i) || self.live.contains((k, i))
    }

    /// The sizes fit the machine, and every free list holds blocks of its level, each once.
    pub open spec fn wf_lists(self) -> bool {
        &&& 0 <= self.levels <= 32
        &&& 0 < self.leaf < 0x1_0000
        &&& self.start + self.max_size() <= u64::MAX
        &&& self.free.len() == self.levels + 1
        &&& forall|k: int, a: int|
            0 <= k <= self.levels && 0 <= a < self.free[k].len() ==> (#[trigger] self.free[k][a])
                < pow2(k as nat)
        &&& forall|k: int| 0 <= k <= self.levels ==> (#[trigger] self.free[k]).no_duplicates()
        &&& forall|k: int, i: int| #[trigger]
            self.live.contains((k, i)) ==> 0 <= k <= self.levels && 0 <= i < pow2(k as nat)
    }

    /// No block is both free and handed out, and no block that is free or handed out
    /// lies inside another.
    pub open spec fn disjoint(self) -> bool {
        &&& forall|k: int, i: int| !(#[trigger] self.is_free(k, i) && self.live.contains((k, i)))
        &&& forall|k: int, i: int, d: nat|
            0 < d <= k && #[trigger] self.occupied(k, i) ==> !self.occupied(
                k - d,
                #[trigger] up(i, d),
            )
    }

    /// Whether block `j` of the last level lies in a block that is free or handed out.
    pub open spec fn leaf_covered(self, j: int) -> bool {
        exists|d: nat| d <= self.levels && self.occupied(self.levels - d, #[trigger] up(j, d))
    }

    /// Every block of the last level lies in a block that is free or handed out.
    pub open spec fn covered(self) -> bool {
        forall|j: int| 0 <= j < pow2(self.levels as nat) ==> #[trigger] self.leaf_covered(j)
    }

    /// No two halves of one block are both free, except perhaps block `i` of level
    /// `k` and its other half.
    pub open spec fn merged_but(self, k: int, i: int) -> bool {
        forall|l: int, a: int|
            self.is_free(l, a) && #[trigger] self.is_free(l, buddy(a)) ==> l == k && (a == i || a
                == buddy(i))
    }

    /// No two halves of one block are both free.
    pub open spec fn merged(self) -> bool {
        self.merged_but(-1, 0)
    }

    /// The invariant of a region: the free and the handed-out blocks tile it, and
    /// free halves are always merged.
    pub open spec fn wf(self) -> bool {
        self.wf_lists() && self.disjoint() && self.covered() && self.merged()
    }

    /// Whether level `k` serves a request of `size` bytes: its blocks are large
    /// enough, and those of the next level, if there is one, are not.
    pub open spec fn serves(self, size: int, k: int) -> bool {
        0 <= k <= self.levels && self.size_at(k) >= size && (k == self.levels || self.size_at(k + 1)
            < size)
    }

    /// The level that serves a request of `size` bytes, searched from level `k` down.
    pub open spec fn level_from(self, size: int, k: int) -> int
        decreases self.levels - k,
    {
        if k < self.levels && self.size_at(k + 1) >= size {
            self.level_from(size, k + 1)
        } else {
            k
        }
    }

    /// The level that serves a request of `size` bytes, for a size up to that of the region.
    pub open spec fn level_for(self, size: int) -> int {
        self.level_from(size, 0)
    }

    /// The block of level `k` in which the address `addr` lies.
    pub open spec fn block_at(self, addr: u64, k: int) -> int {
        (addr - self.start) / self.size_at(k)
    }

    /// Whether the block that holds `addr`, at the level that serves requests of
    /// `size` bytes, is handed out.
    pub open spec fn handed_out(self, addr: u64, size: int) -> bool {
        self.start <= addr && self.live.contains(
            (self.level_for(size), self.block_at(addr, self.level_for(size))),
        )
    }

    /// First address of block `i` of level `k`.
    pub open spec fn block_addr(self, k: int, i: int) -> int {
        self.start + i * self.size_at(k)
    }
}

impl BuddyView {
    /// The region with the free list of level `k` replaced.
    pub open spec fn set_free(self, k: int, list: Seq<u32>) -> BuddyView {
        BuddyView { free: self.free.update(k, list), ..self }
    }

    /// The region with block `i` added at the end of the free list of level `k`.
    pub open spec fn with_free(self, k: int, i: int) -> BuddyView {
        self.set_free(k, self.free[k].push(i as u32))
    }

    /// The region with block `i` taken out of the free list of level `k`.
    pub open spec fn without(self, k: int, i: int) -> BuddyView {
        self.set_free(k, self.free[k].remove(self.free[k].index_of(i as u32)))
    }

    /// The region with block `i` of level `k` handed out.
    pub open spec fn with_live(self, k: int, i: int) -> BuddyView {
        BuddyView { live: self.live.insert((k, i)), ..self }
    }

    /// The region with block `i` of level `k` no longer handed out.
    pub open spec fn without_live(self, k: int, i: int) -> BuddyView {
        BuddyView { live: self.live.remove((k, i)), ..self }
    }

    /// The region without the last block of the free list of level `k`.
    pub open spec fn unpushed(self, k: int) -> BuddyView {
        self.set_free(k, self.free[k].drop_last())
    }

    /// The nearest level at or above `level` that has a free block; -1 if there is none.
    pub open spec fn donor(self, level: int) -> int
        decreases level + 1,
    {
        if level < 0 {
            -1
        } else if self.free[level].len() > 0 {
            level
        } else {
            self.donor(level - 1)
        }
    }

    /// The block that a request at `level` gets: the last free block of the donor
    /// level, or the first of its parts at `level` if the donor level lies above.
    pub open spec fn taken(self, level: int) -> int {
        let s = self.donor(level);
        self.free[s].last() as int * pow2((level - s) as nat)
    }

    /// The region after a request at `level` was served: the donor level has lost
    /// its last free block; each level below it, down to `level`, has gained the
    /// second half of the part that was split there; the block taken is handed out.
    pub open spec fn after_take(self, level: int) -> BuddyView {
        let s = self.donor(level);
        let b = self.free[s].last() as int;
        BuddyView {
            free: Seq::new(
                self.free.len(),
                |k: int|
                    if k == s {
                        self.free[s].drop_last()
                    } else if s < k <= level {
                        seq![(b * pow2((k - s) as nat) + 1) as u32]
                    } else {
                        self.free[k]
                    },
            ),
            live: self.live.insert((level, self.taken(level))),
            ..self
        }
    }


    /// The region after block `i` of level `k` has become free: if its other half is
    /// free too, that half leaves its list and the block above becomes free in the
    /// same way; else the block joins the end of the free list of its level.
    pub open spec fn release(self, k: int, i: int) -> BuddyView
        decreases k,
    {
        if k >= 1 && self.is_free(k, buddy(i)) {
            self.without(k, buddy(i)).release(k - 1, i / 2)
        } else {
            self.with_free(k, i)
        }
    }

    /// The region after block `i` of level `k` was given back.
    pub open spec fn after_free(self, k: int, i: int) -> BuddyView {
        self.without_live(k, i).release(k, i)
    }

    /// The invariant while a freed block `i` of level `k` is being merged upwards:
    /// all of `wf`, but the block may still have a free other half.
    pub open spec fn wf_merging(self, k: int, i: int) -> bool {
        self.wf_lists() && self.disjoint() && self.covered() && self.merged_but(k, i)
    }
}

/// What a sequence without duplicates holds after its last element is dropped.
proof fn lemma_drop_last(s: Seq<u32>)
    requires
        s.no_duplicates(),
        s.len() > 0,
    ensures
        s.drop_last().no_duplicates(),
        forall|x: u32| #[trigger] s.drop_last().contains(x) <==> s.contains(x) && x != s.last(),
{
    let t = s.drop_last();
    assert forall|x: u32| #[trigger] t.contains(x) <==> s.contains(x) && x != s.last() by {
        if t.contains(x) {
            let a = choose|a: int| 0 <= a < t.len() && t[a] == x;
            assert(s[a] == x);
        }
        if s.contains(x) && x != s.last() {
            let a = choose|a: int| 0 <= a < s.len() && s[a] == x;
            assert(t[a] == x);
        }
    }
}

/// What a sequence without duplicates holds after one more element is added.
proof fn lemma_push(s: Seq<u32>, v: u32)
    requires
        s.no_duplicates(),
        !s.contains(v),
    ensures
        s.push(v).no_duplicates(),
        forall|x: u32| #[trigger] s.push(v).contains(x) <==> s.contains(x) || x == v,
        s.push(v).drop_last() == s,
{
    let t = s.push(v);
    assert forall|x: u32| #[trigger] t.contains(x) <==> s.contains(x) || x == v by {
        if t.contains(x) {
            let a = choose|a: int| 0 <= a < t.len() && t[a] == x;
            if a < s.len() {
                assert(s[a] == x);
            }
        }
        if s.contains(x) {
            let a = choose|a: int| 0 <= a < s.len() && s[a] == x;
            assert(t[a] == x);
        }
        if x == v {
            assert(t[s.len() as int] == x);
        }
    }
    assert(t.drop_last() =~= s);
}

/// What a sequence without duplicates holds after the element at `a` is removed.
proof fn lemma_remove(s: Seq<u32>, a: int)
    requires
        s.no_duplicates(),
        0 <= a < s.len(),
    ensures
        s.remove(a).no_duplicates(),
        forall|x: u32| #[trigger] s.remove(a).contains(x) <==> s.contains(x) && x != s[a],
        s.index_of(s[a]) == a,
{
    let t = s.remove(a);
    assert forall|x: u32| #[trigger] t.contains(x) <==> s.contains(x) && x != s[a] by {
        if t.contains(x) {
            let c = choose|c: int| 0 <= c < t.len() && t[c] == x;
            if c < a {
                assert(s[c] == x);
            } else {
                assert(s[c + 1] == x);
            }
        }
        if s.contains(x) && x != s[a] {
            let c = choose|c: int| 0 <= c < s.len() && s[c] == x;
            if c < a {
                assert(t[c] == x);
            } else {
                assert(t[c - 1] == x);
            }
        }
    }
    assert(s.contains(s[a]));
}

impl BuddyView {
    /// A region whose lists changed so that the same blocks are free or handed out
    /// keeps its tiling.
    proof fn lemma_same_occupied(self, other: BuddyView)
        requires
            self.disjoint(),
            self.covered(),
            self.levels == other.levels,
            forall|k: int, i: int| #[trigger] other.occupied(k, i) == self.occupied(k, i),
            forall|k: int, i: int| !(#[trigger] other.is_free(k, i) && other.live.contains((k, i))),
        ensures
            other.disjoint(),
            other.covered(),
    {
        assert forall|k: int, i: int, d: nat| 0 < d <= k && #[trigger] other.occupied(k, i) implies !other.occupied(
            k - d,
            #[trigger] up(i, d),
        ) by {
            assert(self.occupied(k, i));
            assert(!self.occupied(k - d, up(i, d)));
        }
        assert forall|j: int| 0 <= j < pow2(other.levels as nat) implies #[trigger] other.leaf_covered(
            j,
        ) by {
            assert(self.leaf_covered(j));
            let d = choose|d: nat|
                d <= self.levels && self.occupied(self.levels - d, #[trigger] up(j, d));
            assert(other.occupied(other.levels - d, up(j, d)));
        }
    }

    /// Handing out the last free block of a level keeps the invariant.
    proof fn lemma_take_last(self, k: int)
        requires
            self.wf(),
            0 <= k <= self.levels,
            self.free[k].len() > 0,
        ensures
            self.unpushed(k).with_live(k, self.free[k].last() as int).wf(),
    {
        let b = self.free[k].last();
        let n = self.unpushed(k).with_live(k, b as int);
        lemma_drop_last(self.free[k]);
        assert(self.free[k][self.free[k].len() - 1] == b);
        assert(self.is_free(k, b as int));
        assert forall|l: int, i: int| #[trigger] n.is_free(l, i) == (self.is_free(l, i) && !(l == k
            && i == b)) by {
            if l != k && 0 <= l <= self.levels {
                assert(n.free[l] == self.free[l]);
            }
        }
        assert forall|l: int, a: int|
            0 <= l <= n.levels && 0 <= a < n.free[l].len() implies (#[trigger] n.free[l][a]) < pow2(
            l as nat,
        ) by {
            assert(n.free[l][a] == self.free[l][a]);
        }
        assert forall|l: int| 0 <= l <= n.levels implies (#[trigger] n.free[l]).no_duplicates() by {
            if l != k {
                assert(n.free[l] == self.free[l]);
            }
        }
        assert forall|l: int, i: int| #[trigger] n.occupied(l, i) == self.occupied(l, i) by {}
        self.lemma_same_occupied(n);
        assert forall|l: int, a: int| n.is_free(l, a) && #[trigger] n.is_free(l, buddy(a)) implies l
            == -1 && (a == 0 || a == buddy(0)) by {
            assert(self.is_free(l, a) && self.is_free(l, buddy(a)));
        }
    }

    /// Splitting a block that was handed out, into a first half that is handed out
    /// in its place and a second half that is free, keeps the invariant.
    proof fn lemma_split(self, k: int, b: int)
        requires
            self.wf(),
            1 <= k <= self.levels,
            self.live.contains((k - 1, b)),
            self.free[k].len() == 0,
        ensures
            self.set_free(k, seq![(2 * b + 1) as u32]).without_live(k - 1, b).with_live(
                k,
                2 * b,
            ).wf(),
            0 <= 2 * b + 1 < pow2(k as nat) <= 0x1_0000_0000,
    {
        let n = self.set_free(k, seq![(2 * b + 1) as u32]).without_live(k - 1, b).with_live(
            k,
            2 * b,
        );
        lemma_pow2_unfold(k as nat);
        lemma_pow2_le(k as nat, 32);
        lemma2_to64();
        assert(n.free[k][0] == (2 * b + 1) as u32);
        assert(up(2 * b, 1) == up((2 * b) / 2, 0));
        assert(up(2 * b + 1, 1) == up((2 * b + 1) / 2, 0));
        assert(self.occupied(k - 1, b));
        assert forall|l: int, i: int| #[trigger] n.is_free(l, i) == (self.is_free(l, i) || (l == k
            && i == 2 * b + 1)) by {
            if l != k && 0 <= l <= self.levels {
                assert(n.free[l] == self.free[l]);
            }
            if l == k && self.is_free(l, i) {
                let a = choose|a: int| 0 <= a < self.free[k].len() && self.free[k][a] == i as u32;
            }
            if l == k && n.is_free(l, i) {
                let a = choose|a: int| 0 <= a < n.free[k].len() && n.free[k][a] == i as u32;
            }
        }
        assert forall|l: int, a: int|
            0 <= l <= n.levels && 0 <= a < n.free[l].len() implies (#[trigger] n.free[l][a]) < pow2(
            l as nat,
        ) by {
            if l != k {
                assert(n.free[l][a] == self.free[l][a]);
            }
        }
        assert forall|l: int| 0 <= l <= n.levels implies (#[trigger] n.free[l]).no_duplicates() by {
            if l != k {
                assert(n.free[l] == self.free[l]);
            }
        }
        // the two halves were not in use before
        assert(!self.occupied(k, 2 * b)) by {
            if self.occupied(k, 2 * b) {
                assert(!self.occupied(k - 1, up(2 * b, 1)));
            }
        }
        assert(!self.occupied(k, 2 * b + 1)) by {
            if self.occupied(k, 2 * b + 1) {
                assert(!self.occupied(k - 1, up(2 * b + 1, 1)));
            }
        }
        assert forall|l: int, i: int| #[trigger] n.occupied(l, i) == ((self.occupied(l, i) && !(l
            == k - 1 && i == b)) || (l == k && (i == 2 * b || i == 2 * b + 1))) by {}
        assert forall|l: int, i: int, d: nat| 0 < d <= l && #[trigger] n.occupied(l, i) implies !n.occupied(
            l - d,
            #[trigger] up(i, d),
        ) by {
            if l == k && (i == 2 * b || i == 2 * b + 1) {
                assert(up(i, d) == up(b, (d - 1) as nat));
                if d > 1 {
                    assert(!self.occupied(k - 1 - (d - 1), up(b, (d - 1) as nat)));
                }
            } else {
                assert(!self.occupied(l - d, up(i, d)));
                if l - d == k && (up(i, d) == 2 * b || up(i, d) == 2 * b + 1) {
                    lemma_up_step(i, d);
                    assert(!self.occupied(l - (d + 1), up(i, d + 1)));
                }
            }
        }
        assert forall|j: int| 0 <= j < pow2(n.levels as nat) implies #[trigger] n.leaf_covered(
            j,
        ) by {
            assert(self.leaf_covered(j));
            let d = choose|d: nat|
                d <= self.levels && self.occupied(self.levels - d, #[trigger] up(j, d));
            if self.levels - d == k - 1 && up(j, d) == b {
                lemma_up_step(j, (d - 1) as nat);
                assert(n.occupied(n.levels - (d - 1) as nat, up(j, (d - 1) as nat)));
            } else {
                assert(n.occupied(n.levels - d, up(j, d)));
            }
        }
        assert forall|l: int, a: int| n.is_free(l, a) && #[trigger] n.is_free(l, buddy(a)) implies l
            == -1 && (a == 0 || a == buddy(0)) by {
            if l != k {
                assert(self.is_free(l, a) && self.is_free(l, buddy(a)));
            }
        }
    }
}

impl BuddyView {
    /// Putting a block that was handed out at the end of the free list of its level
    /// keeps the invariant, but that the block may now have a free other half.
    proof fn lemma_give_back(self, k: int, i: int)
        requires
            self.wf(),
            self.live.contains((k, i)),
        ensures
            self.without_live(k, i).with_free(k, i).wf_merging(k, i),
            self.without_live(k, i).with_free(k, i).free[k].last() == i,
            0 <= i < pow2(k as nat) <= 0x1_0000_0000,
            0 <= k <= self.levels,
            !self.is_free(k, i),
    {
        let n = self.without_live(k, i).with_free(k, i);
        lemma_pow2_le(k as nat, 32);
        lemma2_to64();
        assert(!(self.is_free(k, i) && self.live.contains((k, i))));
        assert(!self.free[k].contains(i as u32));
        lemma_push(self.free[k], i as u32);
        assert forall|l: int, a: int| #[trigger] n.is_free(l, a) == (self.is_free(l, a) || (l == k
            && a == i)) by {
            if l != k && 0 <= l <= self.levels {
                assert(n.free[l] == self.free[l]);
            }
        }
        assert forall|l: int, a: int|
            0 <= l <= n.levels && 0 <= a < n.free[l].len() implies (#[trigger] n.free[l][a]) < pow2(
            l as nat,
        ) by {
            if l != k || a < self.free[k].len() {
                assert(n.free[l][a] == self.free[l][a]);
            }
        }
        assert forall|l: int| 0 <= l <= n.levels implies (#[trigger] n.free[l]).no_duplicates() by {
            if l != k {
                assert(n.free[l] == self.free[l]);
            }
        }
        assert forall|l: int, a: int| #[trigger] n.occupied(l, a) == self.occupied(l, a) by {}
        self.lemma_same_occupied(n);
        assert forall|l: int, a: int| n.is_free(l, a) && #[trigger] n.is_free(l, buddy(a)) implies l
            == k && (a == i || a == buddy(i)) by {
            if !(l == k && (a == i || a == buddy(i))) {
                assert(self.is_free(l, a) && self.is_free(l, buddy(a)));
            }
        }
    }

    /// While a freed block is merged upwards, joining it with its free other half
    /// into the block above keeps the invariant, but that the block above may now
    /// have a free other half.
    proof fn lemma_merge(self, k: int, i: int)
        requires
            self.wf_merging(k, i),
            0 <= k <= self.levels,
            self.free[k].len() > 0,
            self.free[k].last() == i,
            self.is_free(k, buddy(i)),
        ensures
            k >= 1,
            0 <= i / 2 < pow2((k - 1) as nat),
            self.unpushed(k).is_free(k, buddy(i)),
            self.unpushed(k).without(k, buddy(i)).with_free(k - 1, i / 2).wf_merging(k - 1, i / 2),
            self.unpushed(k).without(k, buddy(i)).with_free(k - 1, i / 2).free[k - 1].last() == i
                / 2,
    {
        lemma2_to64();
        let last = self.free[k].len() - 1;
        assert(self.free[k][last] == i as u32);
        assert(self.is_free(k, i));
        let c = choose|c: int| 0 <= c < self.free[k].len() && self.free[k][c] == buddy(i) as u32;
        assert(self.free[k][c] < pow2(k as nat));
        if k == 0 {
            assert(false);
        }
        lemma_pow2_unfold(k as nat);
        let p = self.unpushed(k);
        lemma_drop_last(self.free[k]);
        assert(p.free[k] == self.free[k].drop_last());
        assert(p.free[k].contains(buddy(i) as u32));
        let idx = p.free[k].index_of(buddy(i) as u32);
        lemma_remove(p.free[k], idx);
        let q = p.without(k, buddy(i));
        assert(q.free[k] == p.free[k].remove(idx));
        assert(up(i, 1) == up(i / 2, 0));
        assert(up(buddy(i), 1) == up(buddy(i) / 2, 0));
        assert(self.occupied(k, i));
        assert(self.occupied(k, buddy(i)));
        assert(!self.occupied(k - 1, up(i, 1)));
        assert(!self.is_free(k - 1, i / 2));
        assert(q.free[k - 1] == self.free[k - 1]);
        lemma_push(self.free[k - 1], (i / 2) as u32);
        let n = q.with_free(k - 1, i / 2);
        assert(n.free[k] == q.free[k]);
        assert(n.free[k - 1] == self.free[k - 1].push((i / 2) as u32));
        assert forall|l: int, a: int| #[trigger] n.is_free(l, a) == ((self.is_free(l, a) && !(l == k
            && (a == i || a == buddy(i)))) || (l == k - 1 && a == i / 2)) by {
            if l != k && l != k - 1 && 0 <= l <= self.levels {
                assert(n.free[l] == self.free[l]);
            }
        }
        assert forall|l: int, a: int|
            0 <= l <= n.levels && 0 <= a < n.free[l].len() implies (#[trigger] n.free[l][a]) < pow2(
            l as nat,
        ) by {
            let x = n.free[l][a];
            assert(n.free[l].contains(x));
            assert(n.is_free(l, x as int));
            if self.is_free(l, x as int) {
                let w = choose|w: int| 0 <= w < self.free[l].len() && self.free[l][w] == x;
                assert(self.free[l][w] < pow2(l as nat));
            }
        }
        assert forall|l: int| 0 <= l <= n.levels implies (#[trigger] n.free[l]).no_duplicates() by {
            if l != k && l != k - 1 {
                assert(n.free[l] == self.free[l]);
            }
        }
        assert forall|l: int, a: int| #[trigger] n.occupied(l, a) == ((self.occupied(l, a) && !(l
            == k && (a == i || a == buddy(i)))) || (l == k - 1 && a == i / 2)) by {}
        assert forall|l: int, a: int, d: nat| 0 < d <= l && #[trigger] n.occupied(l, a) implies !n.occupied(
            l - d,
            #[trigger] up(a, d),
        ) by {
            if l == k - 1 && a == i / 2 {
                lemma_up_add(i, 1, d);
                assert(!self.occupied(k - (d + 1), up(i, 1 + d)));
            } else {
                assert(!self.occupied(l - d, up(a, d)));
                if l - d == k - 1 && up(a, d) == i / 2 {
                    if d == 1 {
                        assert(up(a, 1) == up(a / 2, 0));
                    } else {
                        lemma_up_step(a, (d - 1) as nat);
                        let u = up(a, (d - 1) as nat);
                        assert(u == i || u == buddy(i));
                        assert(!self.occupied(l - (d - 1), u));
                    }
                }
            }
        }
        assert forall|j: int| 0 <= j < pow2(n.levels as nat) implies #[trigger] n.leaf_covered(
            j,
        ) by {
            assert(self.leaf_covered(j));
            let d = choose|d: nat|
                d <= self.levels && self.occupied(self.levels - d, #[trigger] up(j, d));
            if self.levels - d == k && (up(j, d) == i || up(j, d) == buddy(i)) {
                lemma_up_step(j, d);
                assert(n.occupied(n.levels - (d + 1), up(j, d + 1)));
            } else {
                assert(n.occupied(n.levels - d, up(j, d)));
            }
        }
        assert forall|l: int, a: int| n.is_free(l, a) && #[trigger] n.is_free(l, buddy(a)) implies l
            == k - 1 && (a == i / 2 || a == buddy(i / 2)) by {
            if !(l == k - 1 && (a == i / 2 || a == buddy(i / 2))) {
                assert(self.is_free(l, a) && self.is_free(l, buddy(a)));
            }
        }
    }

    /// Merging ends where the other half is not free: the invariant holds again in full.
    proof fn lemma_merge_done(self, k: int, i: int)
        requires
            self.wf_merging(k, i),
            !self.is_free(k, buddy(i)),
        ensures
            self.wf(),
    {
        assert forall|l: int, a: int| self.is_free(l, a) && #[trigger] self.is_free(
            l,
            buddy(a),
        ) implies l == -1 && (a == 0 || a == buddy(0)) by {}
    }
}

/// Dropping the last element and adding it again gives the sequence back.
pub proof fn lemma_drop_last_of(s: Seq<u32>)
    requires
        s.len() > 0,
    ensures
        s.drop_last().push(s.last()) == s,
{
    assert(s.drop_last().push(s.last()) =~= s);
}

/// What a sequence without duplicates holds after the element at `a` is removed by value.
pub proof fn lemma_remove_value(s: Seq<u32>, a: int)
    requires
        s.no_duplicates(),
        0 <= a < s.len(),
    ensures
        s.remove(s.index_of(s[a])).no_duplicates(),
        forall|x: u32| #[trigger]
            s.remove(s.index_of(s[a])).contains(x) <==> s.contains(x) && x != s[a],
{
    lemma_remove(s, a);
}

impl BuddyView {
    /// Merging upwards from level `k` leaves the free lists below level `k` as they are.
    pub proof fn lemma_release_keeps_levels_below(self, k: int, i: int, l: int)
        requires
            0 <= k < l <= self.levels,
            self.free.len() == self.levels + 1,
        ensures
            self.release(k, i).free[l] == self.free[l],
            self.release(k, i).free.len() == self.free.len(),
            self.release(k, i).levels == self.levels,
        decreases k,
    {
        if k >= 1 && self.is_free(k, buddy(i)) {
            self.without(k, buddy(i)).lemma_release_keeps_levels_below(k - 1, i / 2, l);
        }
    }
}

/// Whether a region from `start` to `end` with leaves of `block_size` bytes can be
/// managed: its size is the leaf size doubled at most 32 times.
pub open spec fn region_ok(start: u64, end: u64, block_size: u16) -> bool {
    block_size > 0 && start <= end && exists|n: nat|
        n <= 32 && end - start == block_size * #[trigger] pow2(n)
}

/// How often the leaf size is doubled to give the size of the region.
pub open spec fn levels_of(size: int, leaf: int) -> nat {
    choose|n: nat| n <= 32 && size == leaf * #[trigger] pow2(n)
}

/// A region of `size` bytes from `start` on that is one free block.
pub open spec fn fresh_region(start: u64, size: int, leaf: int) -> BuddyView {
    BuddyView {
        start,
        leaf,
        levels: levels_of(size, leaf) as int,
        free: Seq::new(
            levels_of(size, leaf) + 1,
            |k: int|
                if k == 0 {
                    seq![0u32]
                } else {
                    Seq::<u32>::empty()
                },
        ),
        live: Set::empty(),
    }
}

/// A buddy allocator over one region of physical memory.
pub struct BuddyAllocator {
    start_addr: PhysAddr,
    end_addr: PhysAddr,
    num_levels: u8,
    block_size: u16,
    free_lists: Vec<Vec<u32>>,
    live: Ghost<Set<(int, int)>>,
}

impl View for BuddyAllocator {
    type V = BuddyView;

    closed spec fn view(&self) -> BuddyView {
        BuddyView {
            start: self.start_addr@,
            leaf: self.block_size as int,
            levels: self.num_levels as int,
            free: Seq::new(self.free_lists@.len(), |k: int| self.free_lists@[k]@),
            live: self.live@,
        }
    }
}

/// Halving after `d` halvings is `d + 1` halvings.
pub proof fn lemma_up_step(i: int, d: nat)
    ensures
        up(i, d + 1) == up(i, d) / 2,
    decreases d,
{
    if d > 0 {
        lemma_up_step(i / 2, (d - 1) as nat);
        assert(up(i, d + 1) == up(i / 2, d));
    } else {
        assert(up(i, 1) == up(i / 2, 0));
    }
}

/// Halvings add up.
pub proof fn lemma_up_add(i: int, d: nat, e: nat)
    ensures
        up(up(i, d), e) == up(i, d + e),
    decreases d,
{
    if d > 0 {
        lemma_up_add(i / 2, (d - 1) as nat, e);
        assert(up(i, d + e) == up(i / 2, (d + e - 1) as nat));
    }
}

/// A block index halved `d` times is an index `d` levels up.
pub proof fn lemma_up_range(i: int, k: nat, d: nat)
    requires
        0 <= i < pow2(k),
        d <= k,
    ensures
        0 <= up(i, d) < pow2((k - d) as nat),
    decreases d,
{
    if d > 0 {
        lemma_pow2_unfold(k);
        lemma_up_range(i / 2, (k - 1) as nat, (d - 1) as nat);
    }
}

/// Powers of two grow with the exponent.
pub proof fn lemma_pow2_le(a: nat, b: nat)
    requires
        a <= b,
    ensures
        pow2(a) <= pow2(b),
        pow2(a) > 0,
{
    lemma_pow2_pos(a);
    if a < b {
        lemma_pow2_strictly_increases(a, b);
    }
}

/// A leaf size times a power of two up to `2^32` fits in 48 bits.
proof fn lemma_size_fits(leaf: int, e: nat)
    requires
        0 < leaf < 0x1_0000,
        e <= 32,
    ensures
        0 < leaf * pow2(e) <= 0xffff * 0x1_0000_0000,
        leaf * pow2(e) >= leaf,
{
    lemma_pow2_le(e, 32);
    lemma2_to64();
    assert(leaf * pow2(e) <= 0xffff * 0x1_0000_0000) by (nonlinear_arith)
        requires
            0 < leaf <= 0xffff,
            0 < pow2(e) <= 0x1_0000_0000,
    ;
    assert(leaf * pow2(e) >= leaf) by (nonlinear_arith)
        requires
            0 < leaf,
            0 < pow2(e),
    ;
}

impl BuddyView {
    /// Block sizes do not grow down the levels.
    pub proof fn lemma_size_mono(self, a: int, b: int)
        requires
            0 <= a <= b <= self.levels,
            self.leaf > 0,
        ensures
            self.size_at(a) >= self.size_at(b) > 0,
    {
        lemma_pow2_le((self.levels - b) as nat, (self.levels - a) as nat);
        let x = pow2((self.levels - a) as nat) as int;
        let y = pow2((self.levels - b) as nat) as int;
        assert(self.leaf * x >= self.leaf * y > 0) by (nonlinear_arith)
            requires
                self.leaf > 0,
                x >= y > 0,
        ;
    }

    /// Exactly one level serves a request that the region can hold: the one that
    /// the search from level 0 finds.
    pub proof fn lemma_level_for(self, size: int, k: int)
        requires
            0 <= self.levels,
            self.leaf > 0,
            size <= self.max_size(),
        ensures
            self.serves(size, self.level_for(size)),
            self.serves(size, k) ==> k == self.level_for(size),
    {
        self.lemma_level_from(size, 0);
        lemma2_to64();
        if self.serves(size, k) {
            let l = self.level_for(size);
            if k < l {
                self.lemma_size_mono(k + 1, l);
            } else if l < k {
                self.lemma_size_mono(l + 1, k);
            }
        }
    }

    proof fn lemma_level_from(self, size: int, k: int)
        requires
            0 <= k <= self.levels,
            self.leaf > 0,
            size <= self.size_at(k),
        ensures
            self.serves(size, self.level_from(size, k)),
            self.level_from(size, k) >= k,
        decreases self.levels - k,
    {
        if k < self.levels && self.size_at(k + 1) >= size {
            self.lemma_level_from(size, k + 1);
        }
    }
}

impl BuddyAllocator {
    /// The invariant of the allocator: that of the region it manages.
    pub closed spec fn wf(&self) -> bool {
        &&& self@.wf()
        &&& self.end_addr@ == self.start_addr@ + self@.max_size()
        &&& self.free_lists@.len() == self.num_levels + 1
    }

    /// The invariant of the allocator is that of its view.
    pub proof fn lemma_wf(&self)
        requires
            self.wf(),
        ensures
            self@.wf(),
    {
    }

    /// An allocator for the region from `start_addr` up to `end_addr`, with leaf
    /// blocks of `block_size` bytes. The region is one free block.
    pub fn new(start_addr: PhysAddr, end_addr: PhysAddr, block_size: u16) -> (a: BuddyAllocator)
        requires
            region_ok(start_addr@, end_addr@, block_size),
        ensures
            a.wf(),
            a@ == fresh_region(start_addr@, end_addr@ - start_addr@, block_size as int),
            a@.max_size() == end_addr@ - start_addr@,
    {
        let size: u64 = end_addr.addr() - start_addr.addr();
        let ghost n = choose|n: nat| n <= 32 && size == block_size * #[trigger] pow2(n);
        let mut num_levels: u8 = 0;
        proof {
            lemma2_to64();
            lemma_size_fits(block_size as int, 0);
        }
        assert((block_size as u64) << 0u64 == block_size as u64) by (bit_vector);
        while ((block_size as u64) << (num_levels as u64)) < size
            invariant
                num_levels <= n <= 32,
                block_size > 0,
                size == block_size * pow2(n),
                ((block_size as u64) << (num_levels as u64)) == block_size * pow2(num_levels as nat),
            decreases n - num_levels,
        {
            proof {
                if num_levels as nat == n {
                    assert(false);
                }
                lemma_size_fits(block_size as int, (num_levels + 1) as nat);
                vstd::bits::lemma_u64_shl_is_mul(block_size as u64, (num_levels + 1) as u64);
            }
            num_levels += 1;
        }
        proof {
            if (num_levels as nat) < n {
                lemma_pow2_strictly_increases(num_levels as nat, n);
                assert(block_size * pow2(num_levels as nat) < block_size * pow2(n))
                    by (nonlinear_arith)
                    requires
                        block_size > 0,
                        pow2(num_levels as nat) < pow2(n),
                ;
            }
        }
        let mut free_lists: Vec<Vec<u32>> = Vec::new();
        let mut first: Vec<u32> = Vec::new();
        first.push(0);
        free_lists.push(first);
        let mut l: u8 = 0;
        while l < num_levels
            invariant
                l <= num_levels,
                free_lists@.len() == l + 1,
                free_lists@[0]@ == seq![0u32],
                forall|k: int| 1 <= k <= l ==> (#[trigger] free_lists@[k])@ == Seq::<u32>::empty(),
            decreases num_levels - l,
        {
            free_lists.push(Vec::new());
            l += 1;
        }
        let a = BuddyAllocator {
            start_addr,
            end_addr,
            num_levels,
            block_size,
            free_lists,
            live: Ghost(Set::empty()),
        };
        proof {
            let v = a@;
            assert(n == levels_of(size as int, block_size as int));
            assert(v.free =~= fresh_region(start_addr@, size as int, block_size as int).free);
            assert(v.live =~= Set::<(int, int)>::empty());
            lemma_pow2_pos(0);
            assert forall|k: int, a: int|
                0 <= k <= v.levels && 0 <= a < v.free[k].len() implies (#[trigger] v.free[k][a])
                < pow2(k as nat) by {
                lemma_pow2_pos(k as nat);
            }
            assert(v.is_free(0, 0)) by {
                assert(v.free[0][0] == 0u32);
            }
            assert forall|k: int, i: int| v.occupied(k, i) implies k == 0 && i == 0 by {
                if v.is_free(k, i) {
                    let idx = choose|idx: int| 0 <= idx < v.free[k].len() && v.free[k][idx] == i as u32;
                }
            }
            assert forall|j: int| 0 <= j < pow2(v.levels as nat) implies #[trigger] v.leaf_covered(
                j,
            ) by {
                lemma_up_range(j, v.levels as nat, v.levels as nat);
                assert(up(j, v.levels as nat) == 0);
                assert(v.occupied(v.levels - v.levels as nat, up(j, v.levels as nat)));
            }
            assert(v.merged()) by {
                assert forall|l: int, a: int|
                    v.is_free(l, a) && #[trigger] v.is_free(l, buddy(a)) implies l == -1 && (a == 0
                    || a == buddy(0)) by {
                    assert(v.occupied(l, a));
                    assert(v.occupied(l, buddy(a)));
                }
            }
        }
        a
    }

    /// Whether `addr` lies in the region.
    pub fn contains(&self, addr: PhysAddr) -> (b: bool)
        requires
            self.wf(),
        ensures
            b == (self@.start <= addr@ < self@.start + self@.max_size()),
    {
        addr.addr() >= self.start_addr.addr() && addr.addr() < self.end_addr.addr()
    }

    /// Size of a block at `level`.
    pub fn level_size(&self, level: usize) -> (s: u64)
        requires
            self.wf(),
            level <= self@.levels,
        ensures
            s == self@.size_at(level as int),
            0 < s <= self@.max_size(),
    {
        let shift: u64 = (self.num_levels as u64) - (level as u64);
        proof {
            lemma_size_fits(self.block_size as int, shift as nat);
            vstd::bits::lemma_u64_shl_is_mul(self.block_size as u64, shift);
            self@.lemma_size_mono(0, level as int);
            self@.lemma_size_mono(0, 0);
        }
        (self.block_size as u64) << shift
    }

    /// The largest size that this allocator can serve: that of the region.
    pub fn max_size(&self) -> (s: u64)
        requires
            self.wf(),
        ensures
            s == self@.max_size(),
    {
        self.level_size(0)
    }

    /// The level whose blocks serve a request of `size` bytes, or `None` if the
    /// request is larger than the region.
    pub fn req_size_to_level(&self, size: usize) -> (r: Option<usize>)
        requires
            self.wf(),
        ensures
            match r {
                Some(k) => size <= self@.max_size() && self@.serves(size as int, k as int) && k
                    == self@.level_for(size as int),
                None => size > self@.max_size(),
            },
    {
        let max_size = self.max_size();
        if size as u64 > max_size {
            None
        } else {
            let n: usize = self.num_levels as usize;
            let mut next_level: usize = 1;
            while next_level <= n && self.level_size(next_level) >= size as u64
                invariant
                    self.wf(),
                    n == self@.levels,
                    1 <= next_level <= n + 1,
                    self@.size_at(next_level - 1) >= size,
                decreases n + 1 - next_level,
            {
                next_level += 1;
            }
            proof {
                self@.lemma_level_for(size as int, next_level - 1);
            }
            Some(next_level - 1)
        }
    }
}

/// Doubling `d` times and then halving `d` times gives the index back, also after
/// anything below the doubled part was added.
pub proof fn lemma_up_mul(x: int, d: nat, r: int)
    requires
        0 <= r < pow2(d),
        0 <= x,
    ensures
        up(x * pow2(d) + r, d) == x,
    decreases d,
{
    lemma2_to64();
    if d > 0 {
        lemma_pow2_unfold(d);
        let h = pow2((d - 1) as nat) as int;
        assert(x * (2 * h) == 2 * (x * h)) by (nonlinear_arith);
        assert((2 * (x * h) + r) / 2 == x * h + r / 2);
        lemma_up_mul(x, (d - 1) as nat, r / 2);
    } else {
        assert(x * 1 == x);
    }
}

impl BuddyView {
    /// The donor level has a free block, lies at or above the level asked for, and
    /// every level between the two has none.
    pub proof fn lemma_donor(self, level: int)
        requires
            0 <= level <= self.levels,
        ensures
            -1 <= self.donor(level) <= level,
            self.donor(level) >= 0 ==> self.free[self.donor(level)].len() > 0,
            forall|k: int| self.donor(level) < k <= level ==> (#[trigger] self.free[k]).len() == 0,
        decreases level,
    {
        if self.free[level].len() == 0 {
            if level > 0 {
                self.lemma_donor(level - 1);
            } else {
                assert(self.donor(-1) == -1);
            }
        }
    }

    /// The block that a request gets is a block of its level that lies in the last
    /// free block of the donor level, and that was not handed out.
    pub proof fn lemma_taken(self, level: int)
        requires
            self.wf(),
            0 <= level <= self.levels,
            self.donor(level) >= 0,
        ensures
            0 <= self.taken(level) < pow2(level as nat),
            up(self.taken(level), (level - self.donor(level)) as nat) == self.free[self.donor(
                level,
            )].last(),
            !self.occupied(level, self.taken(level)) || self.donor(level) == level,
            !self.live.contains((level, self.taken(level))),
    {
        self.lemma_donor(level);
        let s = self.donor(level);
        let d = (level - s) as nat;
        let b = self.free[s].last() as int;
        assert(self.free[s][self.free[s].len() - 1] == b);
        assert(self.is_free(s, b));
        lemma_pow2_pos(d);
        lemma_up_mul(b, d, 0);
        lemma_pow2_adds(s as nat, d);
        assert(b * pow2(d) < pow2(s as nat) * pow2(d)) by (nonlinear_arith)
            requires
                0 <= b < pow2(s as nat),
                pow2(d) > 0,
        ;
        assert(b * pow2(d) >= 0) by (nonlinear_arith)
            requires
                0 <= b,
                pow2(d) > 0,
        ;
        if d > 0 {
            if self.occupied(level, self.taken(level)) {
                assert(!self.occupied(level - d, up(self.taken(level), d)));
            }
        } else {
            assert(b * 1 == b);
            assert(!(self.is_free(s, b) && self.live.contains((s, b))));
        }
    }

    /// The first address of a block and the last lie in the region.
    pub proof fn lemma_block_in_region(self, k: int, i: int)
        requires
            self.wf_lists(),
            0 <= k <= self.levels,
            0 <= i < pow2(k as nat),
        ensures
            0 <= i * self.size_at(k),
            i * self.size_at(k) + self.size_at(k) <= self.max_size(),
            self.size_at(k) > 0,
            (i * self.size_at(k)) / self.size_at(k) == i,
    {
        let sz = self.size_at(k);
        let q = pow2((self.levels - k) as nat) as int;
        let p = pow2(k as nat) as int;
        lemma_pow2_pos((self.levels - k) as nat);
        lemma_pow2_adds(k as nat, (self.levels - k) as nat);
        assert(sz > 0) by (nonlinear_arith)
            requires
                sz == self.leaf * q,
                self.leaf > 0,
                q > 0,
        ;
        assert(p * sz == self.leaf * (p * q)) by (nonlinear_arith)
            requires
                sz == self.leaf * q,
        ;
        assert(i * sz + sz <= p * sz && 0 <= i * sz) by (nonlinear_arith)
            requires
                0 <= i < p,
                sz > 0,
        ;
        vstd::arithmetic::div_mod::lemma_div_by_multiple(i, sz);
    }
}

/// Flipping the last bit of a block index gives the other half of the block above.
proof fn lemma_xor_buddy(b: u32)
    ensures
        (b ^ 1) as int == buddy(b as int),
        buddy(b as int) / 2 == b as int / 2,
        buddy(b as int) != b as int,
{
    assert((b % 2 == 0 ==> b ^ 1 == b + 1) && (b % 2 != 0 ==> b ^ 1 == b - 1)) by (bit_vector);
}

impl BuddyAllocator {
    /// The part of the invariant that the lists do not touch.
    closed spec fn framed(&self) -> bool {
        &&& self.end_addr@ == self.start_addr@ + self@.max_size()
        &&& self.free_lists@.len() == self.num_levels + 1
    }

    /// Takes a free block of `level`: the last of its free list or, if that is
    /// empty, the first half of a block taken one level up, whose second half
    /// becomes free at `level`.
    fn get_free_block(&mut self, level: usize) -> (r: Option<u32>)
        requires
            old(self).wf(),
            level <= old(self)@.levels,
        ensures
            final(self).wf(),
            match r {
                Some(b) => old(self)@.donor(level as int) >= 0 && b == old(self)@.taken(
                    level as int,
                ) && final(self)@ == old(self)@.after_take(level as int),
                None => old(self)@.donor(level as int) < 0 && final(self)@ == old(self)@,
            },
        decreases level, 1nat,
    {
        let ghost m = self@;
        match self.free_lists[level].pop() {
            Some(b) => {
                proof {
                    self.live = Ghost(self.live@.insert((level as int, b as int)));
                    let want = m.after_take(level as int);
                    lemma2_to64();
                    assert(b as int * 1 == b as int);
                    assert(self@.free =~= want.free);
                    assert(self@.live =~= want.live);
                    m.lemma_take_last(level as int);
                    assert(self@.free =~= m.unpushed(level as int).free);
                    assert(self@ == m.unpushed(level as int).with_live(level as int, b as int));
                }
                Some(b)
            },
            None => {
                assert(self@.free =~= m.free);
                self.split_level(level)
            },
        }
    }

    /// Splits a block of the level above `level`, whose free list holds nothing.
    fn split_level(&mut self, level: usize) -> (r: Option<u32>)
        requires
            old(self).wf(),
            level <= old(self)@.levels,
            old(self)@.free[level as int].len() == 0,
        ensures
            final(self).wf(),
            match r {
                Some(b) => old(self)@.donor(level as int) >= 0 && b == old(self)@.taken(
                    level as int,
                ) && final(self)@ == old(self)@.after_take(level as int),
                None => old(self)@.donor(level as int) < 0 && final(self)@ == old(self)@,
            },
        decreases level, 0nat,
    {
        let ghost m = self@;
        if level == 0 {
            None
        } else {
            match self.get_free_block(level - 1) {
                Some(block) => {
                    let ghost m1 = self@;
                    proof {
                        m.lemma_taken(level - 1);
                        m.lemma_donor(level - 1);
                        m1.lemma_split(level as int, block as int);
                    }
                    self.free_lists[level].push(block * 2 + 1);
                    proof {
                        self.live = Ghost(
                            self.live@.remove((level - 1, block as int)).insert(
                                (level as int, 2 * block as int),
                            ),
                        );
                        let s = m.donor(level as int);
                        let b = m.free[s].last() as int;
                        lemma_pow2_unfold((level - s) as nat);
                        assert(b * (2 * pow2((level - 1 - s) as nat)) == 2 * (b * pow2(
                            (level - 1 - s) as nat,
                        ))) by (nonlinear_arith);
                        let want = m.after_take(level as int);
                        assert(m.donor(level as int) == m.donor(level - 1));
                        assert(0 <= s <= level - 1);
                        assert(block as int == b * pow2((level - 1 - s) as nat));
                        assert(m1.free[level as int] == m.free[level as int]);
                        assert(m.free[level as int] =~= Seq::<u32>::empty());
                        assert(self@.free[level as int] =~= seq![(2 * block + 1) as u32]);
                        assert forall|k: int| 0 <= k < self@.free.len() implies self@.free[k]
                            == want.free[k] by {
                            if k != level {
                                assert(self@.free[k] == m1.free[k]);
                            }
                        }
                        assert(self@.free =~= want.free);
                        assert(self@.live =~= want.live);
                        let via = m1.set_free(
                            level as int,
                            seq![(2 * block + 1) as u32],
                        ).without_live(level - 1, block as int).with_live(
                            level as int,
                            2 * block as int,
                        );
                        assert(self@.free =~= via.free);
                        assert(self@ == via);
                    }
                    Some(block * 2)
                },
                None => None,
            }
        }
    }

    /// Serves a request of `size` bytes with alignment `alignment`, with a block
    /// of the last level whose blocks hold the larger of the two: a block lies at
    /// a multiple of its size from the start of the region, so the alignment
    /// counts as a size. Returns the first address of the block, which lies in
    /// the region as a whole.
    ///
    /// `None`, with nothing changed, if the request is larger than the region, or
    /// if neither the level that serves it nor a level above has a free block.
    pub fn allocate(&mut self, size: usize, alignment: usize) -> (r: Option<PhysAddr>)
        requires
            old(self).wf(),
        ensures
            final(self).wf(),
            ({
                let req = if size >= alignment {
                    size as int
                } else {
                    alignment as int
                };
                let k = old(self)@.level_for(req);
                match r {
                    Some(p) => {
                        &&& req <= old(self)@.max_size()
                        &&& old(self)@.donor(k) >= 0
                        &&& final(self)@ == old(self)@.after_take(k)
                        &&& p@ == old(self)@.block_addr(k, old(self)@.taken(k))
                        &&& old(self)@.start <= p@
                        &&& p@ + old(self)@.size_at(k) <= old(self)@.start + old(self)@.max_size()
                        &&& old(self)@.size_at(k) >= req
                    },
                    None => {
                        &&& req > old(self)@.max_size() || old(self)@.donor(k) < 0
                        &&& final(self)@ == old(self)@
                    },
                }
            }),
    {
        let size = if size >= alignment {
            size
        } else {
            alignment
        };
        match self.req_size_to_level(size) {
            Some(req_level) => {
                let ghost m = self@;
                match self.get_free_block(req_level) {
                    Some(block) => {
                        proof {
                            m.lemma_taken(req_level as int);
                            m.lemma_block_in_region(req_level as int, block as int);
                        }
                        let offset: u64 = block as u64 * self.level_size(req_level);
                        Some(PhysAddr::new(self.start_addr.addr() + offset))
                    },
                    None => None,
                }
            },
            None => None,
        }
    }

    /// Merges the block at the end of the free list of `level` with its other
    /// half, and the block above with its other half, as long as both are free.
    fn merge_buddies(&mut self, level: usize, block_num: u32)
        requires
            old(self).framed(),
            old(self)@.wf_merging(level as int, block_num as int),
            level <= old(self)@.levels,
            old(self)@.free[level as int].len() > 0,
            old(self)@.free[level as int].last() == block_num,
        ensures
            final(self).wf(),
            final(self)@ == old(self)@.unpushed(level as int).release(
                level as int,
                block_num as int,
            ),
        decreases level,
    {
        let ghost q = self@;
        let ghost p = q.unpushed(level as int);
        let buddy_block = block_num ^ 1;
        proof {
            lemma_xor_buddy(block_num);
            lemma_drop_last(q.free[level as int]);
            assert(q.free[level as int] =~= p.free[level as int].push(block_num));
        }
        let len = self.free_lists[level].len();
        let mut idx: usize = 0;
        while idx < len && self.free_lists[level][idx] != buddy_block
            invariant
                self@ == q,
                *self == *old(self),
                level <= q.levels,
                q.free.len() == q.levels + 1,
                len == q.free[level as int].len(),
                idx <= len,
                forall|c: int| 0 <= c < idx ==> q.free[level as int][c] != buddy_block,
            decreases len - idx,
        {
            idx += 1;
        }
        if idx < len {
            proof {
                assert(q.free[level as int][idx as int] == buddy_block);
                assert(q.is_free(level as int, buddy(block_num as int)));
                q.lemma_merge(level as int, block_num as int);
                assert(p.free[level as int][idx as int] == buddy_block);
                lemma_remove(p.free[level as int], idx as int);
            }
            self.free_lists[level].pop();
            self.free_lists[level].remove(idx);
            self.free_lists[level - 1].push(block_num / 2);
            proof {
                let s = p.without(level as int, buddy(block_num as int)).with_free(
                    level - 1,
                    block_num as int / 2,
                );
                assert(self@.free =~= s.free);
                assert(self@ == s);
                let x = p.without(level as int, buddy(block_num as int));
                assert(x.free[level - 1].push((block_num as int / 2) as u32).drop_last()
                    =~= x.free[level - 1]);
                assert(s.unpushed(level - 1).free =~= p.without(
                    level as int,
                    buddy(block_num as int),
                ).free);
            }
            self.merge_buddies(level - 1, block_num / 2)
        } else {
            proof {
                assert(!q.is_free(level as int, buddy(block_num as int))) by {
                    if q.is_free(level as int, buddy(block_num as int)) {
                        let c = choose|c: int|
                            0 <= c < q.free[level as int].len() && q.free[level as int][c]
                                == buddy_block;
                    }
                }
                q.lemma_merge_done(level as int, block_num as int);
                assert(p.with_free(level as int, block_num as int).free =~= q.free);
            }
        }
    }

    /// Takes back the block at `addr` that served a request of `size` bytes aligned
    /// to `alignment`, and merges it with its other half, and the block above with
    /// its other half, as long as both are free. A request larger than the region
    /// was never served: nothing is done for it.
    pub fn dealloc(&mut self, addr: PhysAddr, size: usize, alignment: usize)
        requires
            old(self).wf(),
            ({
                let req = if size >= alignment {
                    size as int
                } else {
                    alignment as int
                };
                req <= old(self)@.max_size() ==> old(self)@.handed_out(addr@, req)
            }),
        ensures
            final(self).wf(),
            ({
                let req = if size >= alignment {
                    size as int
                } else {
                    alignment as int
                };
                let k = old(self)@.level_for(req);
                if req <= old(self)@.max_size() {
                    final(self)@ == old(self)@.after_free(k, old(self)@.block_at(addr@, k))
                } else {
                    final(self)@ == old(self)@
                }
            }),
    {
        let size = if size >= alignment {
            size
        } else {
            alignment
        };
        if let Some(req_level) = self.req_size_to_level(size) {
            let ghost m = self@;
            let level_block_size = self.level_size(req_level);
            let block: u64 = (addr.addr() - self.start_addr.addr()) / level_block_size;
            proof {
                m.lemma_give_back(req_level as int, block as int);
            }
            let block_num = block as u32;
            self.free_lists[req_level].push(block_num);
            proof {
                self.live = Ghost(self.live@.remove((req_level as int, block_num as int)));
                let pushed = m.without_live(req_level as int, block as int).with_free(
                    req_level as int,
                    block as int,
                );
                assert(self@.free =~= pushed.free);
                assert(self@ == pushed);
                assert(m.free[req_level as int].push(block as u32).drop_last()
                    =~= m.free[req_level as int]);
                assert(pushed.unpushed(req_level as int).free =~= m.free);
                assert(pushed.unpushed(req_level as int) == m.without_live(
                    req_level as int,
                    block as int,
                ));
            }
            self.merge_buddies(req_level, block_num);
        }
    }
}

} // verus!

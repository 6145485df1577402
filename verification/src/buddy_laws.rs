//! What holds of every buddy region, whatever was asked of it.

use vstd::prelude::*;
use vstd::arithmetic::power2::{pow2, lemma_pow2_pos, lemma_pow2_unfold};
use crate::buddy_alloc::{buddy, lemma_up_add, lemma_up_range, up, BuddyView};

verus! {

/// Whether no block handed out lies in block `i` of level `k`.
pub open spec fn none_live_within(m: BuddyView, k: int, i: int) -> bool {
    forall|d: nat, a: int| #[trigger] up(a, d) == i ==> !m.live.contains((k + d, a))
}

/// Whether block `i` of level `k` lies in no larger block that is free or handed out.
pub open spec fn not_inside(m: BuddyView, k: int, i: int) -> bool {
    forall|d: nat| 0 < d <= k ==> !m.occupied(k - d, #[trigger] up(i, d))
}

/// No free list holds a block twice, and no free block is handed out.
pub proof fn law_free_blocks_distinct(m: BuddyView, k: int, i: int)
    requires
        m.wf(),
        0 <= k <= m.levels,
    ensures
        m.free[k].no_duplicates(),
        !(m.is_free(k, i) && m.live.contains((k, i))),
{
}

/// Each half of a block that is neither free nor handed out, with nothing handed
/// out inside it and no such block around it, is a block of that kind or free.
proof fn lemma_half_is_idle(m: BuddyView, k: int, i: int, c: int)
    requires
        c == 2 * i || c == 2 * i + 1,
        0 <= k,
        none_live_within(m, k, i),
        not_inside(m, k, i),
        !m.occupied(k, i),
    ensures
        none_live_within(m, k + 1, c),
        not_inside(m, k + 1, c),
{
    assert(up(c, 1) == up(c / 2, 0));
    assert forall|d: nat, a: int| #[trigger] up(a, d) == c implies !m.live.contains(
        (k + 1 + d, a),
    ) by {
        lemma_up_add(a, d, 1);
        assert(up(a, d + 1) == i);
    }
    assert forall|d: nat| 0 < d <= k + 1 implies !m.occupied(k + 1 - d, #[trigger] up(c, d)) by {
        if d > 1 {
            lemma_up_add(c, 1, (d - 1) as nat);
            assert(!m.occupied(k - (d - 1), up(i, (d - 1) as nat)));
        }
    }
}

/// A block with nothing handed out inside it, which lies in no larger block that is
/// free or handed out, is free: free halves never stay apart.
pub proof fn lemma_idle_block_is_free(m: BuddyView, k: int, i: int)
    requires
        m.wf(),
        0 <= k <= m.levels,
        0 <= i < pow2(k as nat),
        none_live_within(m, k, i),
        not_inside(m, k, i),
    ensures
        m.is_free(k, i),
    decreases m.levels - k,
{
    assert(up(i, 0) == i);
    assert(!m.live.contains((k + 0, i)));
    if m.occupied(k, i) {
    } else if k == m.levels {
        assert(m.leaf_covered(i));
        let d = choose|d: nat| d <= m.levels && m.occupied(m.levels - d, #[trigger] up(i, d));
        assert(d > 0);
        assert(!m.occupied(k - d, up(i, d)));
    } else {
        lemma_pow2_unfold((k + 1) as nat);
        lemma_half_is_idle(m, k, i, 2 * i);
        lemma_half_is_idle(m, k, i, 2 * i + 1);
        lemma_idle_block_is_free(m, k + 1, 2 * i);
        lemma_idle_block_is_free(m, k + 1, 2 * i + 1);
        assert(buddy(2 * i) == 2 * i + 1);
        assert(m.is_free(k + 1, buddy(2 * i)));
        assert(false);
    }
}

/// The free blocks of a region are a function of the blocks handed out: two states
/// of one region in which the same blocks are handed out have the same free
/// blocks at every level. So after any run of requests served and blocks given
/// back, each with the layout it was asked with, that ends with the same blocks
/// handed out as at the start, the same blocks are free as at the start.
pub proof fn law_free_determined_by_live(a: BuddyView, b: BuddyView, k: int, i: int)
    requires
        a.wf(),
        b.wf(),
        a.levels == b.levels,
        a.live == b.live,
        a.is_free(k, i),
    ensures
        b.is_free(k, i),
{
    let x = choose|x: int| 0 <= x < a.free[k].len() && a.free[k][x] == i as u32;
    assert(a.free[k][x] < pow2(k as nat));
    assert(a.occupied(k, i));
    // nothing handed out lies in the block, in either state
    assert forall|d: nat, c: int| #[trigger] up(c, d) == i implies !b.live.contains((k + d, c)) by {
        if a.live.contains((k + d, c)) {
            assert(a.occupied(k + d, c));
            if d > 0 {
                assert(!a.occupied(k + d - d, up(c, d)));
            } else {
                assert(!(a.is_free(k, i) && a.live.contains((k, i))));
            }
        }
    }
    // and the block lies in no larger block of the second state
    assert forall|d: nat| 0 < d <= k implies !b.occupied(k - d, #[trigger] up(i, d)) by {
        let u = up(i, d);
        if b.occupied(k - d, u) {
            assert(!a.occupied(k - d, u));
            assert(b.is_free(k - d, u));
            lemma_up_range(i, k as nat, d);
            // in the first state the larger block would be free as well
            assert forall|e: nat, c: int| #[trigger] up(c, e) == u implies !a.live.contains(
                (k - d + e, c),
            ) by {
                if b.live.contains((k - d + e, c)) {
                    assert(b.occupied(k - d + e, c));
                    if e > 0 {
                        assert(!b.occupied(k - d + e - e, up(c, e)));
                    } else {
                        assert(!(b.is_free(k - d, u) && b.live.contains((k - d, u))));
                    }
                }
            }
            assert forall|e: nat| 0 < e <= k - d implies !a.occupied(
                k - d - e,
                #[trigger] up(u, e),
            ) by {
                lemma_up_add(i, d, e);
                assert(!a.occupied(k - (d + e), up(i, d + e)));
            }
            lemma_idle_block_is_free(a, k - d, u);
            assert(false);
        }
    }
    lemma_idle_block_is_free(b, k, i);
}

/// After a block was given back whose other half was free, the free list of its
/// level holds neither half; and the block above is free, unless it has met a free
/// other half of its own and was merged further.
pub proof fn law_merge_with_free_buddy(m: BuddyView, k: int, i: int)
    requires
        m.wf(),
        m.live.contains((k, i)),
        m.is_free(k, buddy(i)),
    ensures
        k >= 1,
        !m.after_free(k, i).is_free(k, i),
        !m.after_free(k, i).is_free(k, buddy(i)),
        !(k - 1 >= 1 && m.is_free(k - 1, buddy(i / 2))) ==> m.after_free(k, i).is_free(k - 1, i / 2),
{
    let x = choose|x: int| 0 <= x < m.free[k].len() && m.free[k][x] == buddy(i) as u32;
    assert(m.free[k][x] < pow2(k as nat));
    if k == 0 {
        vstd::arithmetic::power2::lemma2_to64();
        assert(false);
    }
    assert(!(m.is_free(k, i) && m.live.contains((k, i))));
    let p = m.without_live(k, i);
    assert(p.is_free(k, buddy(i)));
    let q = p.without(k, buddy(i));
    crate::buddy_alloc::lemma_remove_value(m.free[k], x);
    assert(!q.is_free(k, i));
    assert(!q.is_free(k, buddy(i)));
    assert(m.after_free(k, i) == q.release(k - 1, i / 2));
    q.lemma_release_keeps_levels_below(k - 1, i / 2, k);
    assert(q.free[k - 1] == m.free[k - 1]);
    if !(k - 1 >= 1 && m.is_free(k - 1, buddy(i / 2))) {
        assert(q.release(k - 1, i / 2) == q.with_free(k - 1, i / 2));
        let f = q.with_free(k - 1, i / 2);
        assert(f.free[k - 1][q.free[k - 1].len() as int] == (i / 2) as u32);
        assert(up(i, 1) == up(i / 2, 0));
        assert(m.occupied(k, i));
        lemma_up_range(i, k as nat, 1);
        vstd::arithmetic::power2::lemma2_to64();
        crate::buddy_alloc::lemma_pow2_le((k - 1) as nat, 32);
    }
}

/// The region in the middle of giving back the block that a request at some level
/// got from the donor level `s`, when the parts have been joined again up to
/// level `k`: the donor level lacks its last free block, the levels below it down
/// to `k` hold the second halves that were split off, and all else is as it was.
spec fn rejoined_to(m: BuddyView, s: int, k: int) -> BuddyView {
    let b = m.free[s].last() as int;
    BuddyView {
        free: Seq::new(
            m.free.len(),
            |j: int|
                if j == s {
                    m.free[s].drop_last()
                } else if s < j <= k {
                    seq![(b * pow2((j - s) as nat) + 1) as u32]
                } else {
                    m.free[j]
                },
        ),
        ..m
    }
}

/// Joining the parts again from level `k` up to the donor level gives the region
/// as it was before the request.
proof fn lemma_rejoin(m: BuddyView, s: int, k: int, level: int)
    requires
        m.wf(),
        0 <= s <= k <= level <= m.levels,
        m.donor(level) == s,
    ensures
        rejoined_to(m, s, k).release(k, m.free[s].last() as int * pow2((k - s) as nat)) == m,
    decreases k - s,
{
    let b = m.free[s].last() as int;
    let r = rejoined_to(m, s, k);
    m.lemma_donor(level);
    assert(m.free[s][m.free[s].len() - 1] == b);
    assert(m.is_free(s, b));
    vstd::arithmetic::power2::lemma2_to64();
    crate::buddy_alloc::lemma_pow2_le(s as nat, 32);
    if k == s {
        assert(b * 1 == b);
        crate::buddy_alloc::lemma_drop_last_of(m.free[s]);
        // the other half of the donor block was not free: free halves are merged
        if s >= 1 && r.is_free(s, buddy(b)) {
            assert(m.is_free(s, buddy(b)));
            assert(m.is_free(s, buddy(b)) && m.is_free(s, buddy(buddy(b))));
            assert(false);
        }
        let f = r.with_free(s, b);
        assert(f.free[s] =~= m.free[s]);
        assert(f.free =~= m.free);
    } else {
        let d = (k - s) as nat;
        lemma_pow2_unfold(d);
        lemma_pow2_pos((d - 1) as nat);
        let half = b * pow2((d - 1) as nat);
        let t = b * pow2(d);
        assert(t == 2 * half) by (nonlinear_arith)
            requires
                t == b * pow2(d),
                half == b * pow2((d - 1) as nat),
                pow2(d) == 2 * pow2((d - 1) as nat),
        ;
        assert(half >= 0) by (nonlinear_arith)
            requires
                half == b * pow2((d - 1) as nat),
                b >= 0,
                pow2((d - 1) as nat) > 0,
        ;
        // the block taken lies in the donor block, so it is a block of its level
        crate::buddy_alloc::lemma_up_mul(b, d, 0);
        crate::buddy_alloc::lemma_up_mul(b, d, 1);
        vstd::arithmetic::power2::lemma_pow2_adds(s as nat, d);
        crate::buddy_alloc::lemma_pow2_le(k as nat, 32);
        assert(t + 1 < pow2(k as nat)) by (nonlinear_arith)
            requires
                t == b * pow2(d),
                0 <= b < pow2(s as nat),
                pow2(k as nat) == pow2(s as nat) * pow2(d),
                pow2(d) >= 2,
        ;
        assert(buddy(t) == t + 1);
        assert(r.free[k] == seq![(t + 1) as u32]);
        assert(r.free[k][0] == (t + 1) as u32);
        assert(r.is_free(k, buddy(t)));
        assert(r.free[k].index_of((t + 1) as u32) == 0) by {
            assert(r.free[k].contains((t + 1) as u32));
        }
        let w = r.without(k, buddy(t));
        assert(w.free[k] =~= Seq::<u32>::empty());
        assert(m.free[k] =~= Seq::<u32>::empty());
        assert(w.free =~= rejoined_to(m, s, k - 1).free);
        assert(w == rejoined_to(m, s, k - 1));
        assert(t / 2 == half);
        lemma_rejoin(m, s, k - 1, level);
    }
}

/// A block that is given back right after it was handed out leaves the region as it
/// was before: the same free lists, in the same order, and the same blocks
/// handed out.
pub proof fn law_take_then_free_restores(m: BuddyView, level: int)
    requires
        m.wf(),
        0 <= level <= m.levels,
        m.donor(level) >= 0,
    ensures
        m.after_take(level).after_free(level, m.taken(level)) == m,
{
    let s = m.donor(level);
    m.lemma_donor(level);
    m.lemma_taken(level);
    let a = m.after_take(level).without_live(level, m.taken(level));
    assert(a.live =~= m.live);
    assert(a.free =~= rejoined_to(m, s, level).free);
    assert(a == rejoined_to(m, s, level));
    lemma_rejoin(m, s, level, level);
}

} // verus!

//! Walking a clear region one block at a time, layer by layer, and counting
//! the blocks that were not air before they were cleared.

use vstd::prelude::*;

use crate::region::{spec_contains, spec_ordered, spec_span, spec_volume, PlanPosition};

verus! {

/// The place of `p` in the walk of `min..=max`: layers bottom to top, within
/// a layer rows of increasing `x`, within a row increasing `z`.
pub open spec fn walk_rank(min: PlanPosition, max: PlanPosition, p: PlanPosition) -> int {
    ((p.y - min.y) * spec_span(min.x, max.x) + (p.x - min.x)) * spec_span(min.z, max.z) + (p.z
        - min.z)
}

/// The position the walk of `min..=max` visits after `p`, if any.
pub open spec fn walk_successor(min: PlanPosition, max: PlanPosition, p: PlanPosition) -> Option<
    PlanPosition,
> {
    if p.z < max.z {
        Some(PlanPosition { x: p.x, y: p.y, z: (p.z + 1) as i32 })
    } else if p.x < max.x {
        Some(PlanPosition { x: (p.x + 1) as i32, y: p.y, z: min.z })
    } else if p.y < max.y {
        Some(PlanPosition { x: min.x, y: (p.y + 1) as i32, z: min.z })
    } else {
        None
    }
}

/// The first position lies at the start of the walk.
pub proof fn lemma_walk_starts_at_min(min: PlanPosition, max: PlanPosition)
    ensures
        walk_rank(min, max, min) == 0,
{
    let sx = spec_span(min.x, max.x);
    let sz = spec_span(min.z, max.z);
    assert((0 * sx + 0) * sz + 0 == 0) by (nonlinear_arith);
}

/// Every position of the region has a place in `0..volume`.
pub proof fn lemma_walk_rank_bounds(min: PlanPosition, max: PlanPosition, p: PlanPosition)
    requires
        spec_contains(min, max, p),
    ensures
        0 <= walk_rank(min, max, p) < spec_volume(min, max),
{
    let sx = spec_span(min.x, max.x);
    let sy = spec_span(min.y, max.y);
    let sz = spec_span(min.z, max.z);
    let dx = p.x - min.x;
    let dy = p.y - min.y;
    let dz = p.z - min.z;
    assert(0 <= (dy * sx + dx) * sz + dz < sx * sy * sz) by (nonlinear_arith)
        requires
            0 <= dx < sx,
            0 <= dy < sy,
            0 <= dz < sz,
    {
        assert(0 <= dy * sx);
        assert(dy * sx + dx < (dy + 1) * sx);
        assert((dy + 1) * sx <= sy * sx);
        assert(dy * sx + dx + 1 <= sy * sx);
        assert((dy * sx + dx + 1) * sz <= sy * sx * sz);
        assert((dy * sx + dx) * sz + dz < (dy * sx + dx + 1) * sz);
        assert(sy * sx * sz == sx * sy * sz);
    }
}

/// Distinct positions of the region have distinct places in the walk.
pub proof fn lemma_walk_rank_injective(
    min: PlanPosition,
    max: PlanPosition,
    p: PlanPosition,
    q: PlanPosition,
)
    requires
        spec_contains(min, max, p),
        spec_contains(min, max, q),
        walk_rank(min, max, p) == walk_rank(min, max, q),
    ensures
        p == q,
{
    let sx = spec_span(min.x, max.x);
    let sz = spec_span(min.z, max.z);
    let a = (p.y - min.y) * sx + (p.x - min.x);
    let b = (q.y - min.y) * sx + (q.x - min.x);
    lemma_mixed_radix_unique(a, p.z - min.z, b, q.z - min.z, sz);
    lemma_mixed_radix_unique(p.y - min.y, p.x - min.x, q.y - min.y, q.x - min.x, sx);
}

/// Two digits below `base` after a common-base high part decide the number.
proof fn lemma_mixed_radix_unique(a: int, r: int, b: int, s: int, base: int)
    requires
        0 <= r < base,
        0 <= s < base,
        a * base + r == b * base + s,
    ensures
        a == b,
        r == s,
{
    assert(a == b) by (nonlinear_arith)
        requires
            0 <= r < base,
            0 <= s < base,
            a * base + r == b * base + s,
    {
        if a < b {
            assert((b - a) * base >= base);
            assert(b * base - a * base == (b - a) * base);
        } else if a > b {
            assert((a - b) * base >= base);
            assert(a * base - b * base == (a - b) * base);
        }
    }
}

/// Each step of the walk stays in the region and moves one place further;
/// the walk ends after the last place.
pub proof fn lemma_walk_step(min: PlanPosition, max: PlanPosition, p: PlanPosition)
    requires
        spec_contains(min, max, p),
    ensures
        match walk_successor(min, max, p) {
            Some(q) => spec_contains(min, max, q) && walk_rank(min, max, q) == walk_rank(
                min,
                max,
                p,
            ) + 1,
            None => walk_rank(min, max, p) == spec_volume(min, max) - 1,
        },
{
    let sx = spec_span(min.x, max.x);
    let sy = spec_span(min.y, max.y);
    let sz = spec_span(min.z, max.z);
    let dx = p.x - min.x;
    let dy = p.y - min.y;
    let dz = p.z - min.z;
    if p.z < max.z {
    } else if p.x < max.x {
        assert((dy * sx + dx + 1) * sz == (dy * sx + dx) * sz + sz) by (nonlinear_arith);
    } else if p.y < max.y {
        assert(((dy + 1) * sx) * sz == (dy * sx + dx) * sz + sz) by (nonlinear_arith)
            requires
                dx == sx - 1,
        ;
    } else {
        assert((dy * sx + dx) * sz + dz == sx * sy * sz - 1) by (nonlinear_arith)
            requires
                dx == sx - 1,
                dy == sy - 1,
                dz == sz - 1,
        ;
    }
}

/// What a clearing walk has reached: its region, the position it visits
/// next (none once the walk is over), and how many visited blocks were not
/// air.
pub struct ClearState {
    pub min: PlanPosition,
    pub max: PlanPosition,
    pub next: Option<PlanPosition>,
    pub cleared: nat,
}

/// How many positions the walk has already left behind.
pub open spec fn visited_count(state: ClearState) -> int {
    match state.next {
        Some(p) => walk_rank(state.min, state.max, p),
        None => spec_volume(state.min, state.max),
    }
}

/// A walk over a clear region that tells the caller which position to clear
/// next and keeps count of the blocks that were not air.
pub struct ClearCursor {
    min: PlanPosition,
    max: PlanPosition,
    next: Option<PlanPosition>,
    cleared: u64,
}

impl View for ClearCursor {
    type V = ClearState;

    closed spec fn view(&self) -> ClearState {
        ClearState { min: self.min, max: self.max, next: self.next, cleared: self.cleared as nat }
    }
}

impl ClearCursor {
    #[verifier::type_invariant]
    spec fn well_formed(self) -> bool {
        &&& spec_ordered(self.min, self.max)
        &&& spec_volume(self.min, self.max) <= u64::MAX
        &&& self.next matches Some(p) ==> spec_contains(self.min, self.max, p)
        &&& self.cleared <= visited_count(self@)
    }

    /// Starts a walk of `min..=max` at its lowest corner with nothing counted.
    pub fn new(min: PlanPosition, max: PlanPosition) -> (cursor: Self)
        requires
            spec_ordered(min, max),
            spec_volume(min, max) <= u64::MAX,
        ensures
            cursor@ == (ClearState { min, max, next: Some(min), cleared: 0 }),
    {
        proof {
            lemma_walk_starts_at_min(min, max);
        }
        ClearCursor { min, max, next: Some(min), cleared: 0 }
    }

    /// The position to clear next, or `None` once the whole region is done.
    pub fn position(&self) -> (next: Option<PlanPosition>)
        ensures
            next == self@.next,
    {
        self.next
    }

    /// Records that the current position was cleared, counting it when it
    /// held a block other than air, and moves to the next position.
    pub fn advance(&mut self, was_not_air: bool)
        requires
            old(self)@.next is Some,
        ensures
            final(self)@.min == old(self)@.min,
            final(self)@.max == old(self)@.max,
            final(self)@.next == walk_successor(
                old(self)@.min,
                old(self)@.max,
                old(self)@.next->Some_0,
            ),
            final(self)@.cleared == old(self)@.cleared + if was_not_air {
                1nat
            } else {
                0nat
            },
        no_unwind
    {
        proof {
            use_type_invariant(&*self);
        }
        let p = match self.next {
            Some(p) => p,
            None => return,
        };
        proof {
            lemma_walk_step(self.min, self.max, p);
            lemma_walk_rank_bounds(self.min, self.max, p);
        }
        let cleared = if was_not_air {
            self.cleared + 1
        } else {
            self.cleared
        };
        let next = if p.z < self.max.z {
            Some(PlanPosition { x: p.x, y: p.y, z: p.z + 1 })
        } else if p.x < self.max.x {
            Some(PlanPosition { x: p.x + 1, y: p.y, z: self.min.z })
        } else if p.y < self.max.y {
            Some(PlanPosition { x: self.min.x, y: p.y + 1, z: self.min.z })
        } else {
            None
        };
        self.next = next;
        self.cleared = cleared;
    }

    /// How many visited blocks were not air; never more than the positions
    /// the walk has left behind.
    pub fn cleared(&self) -> (count: u64)
        ensures
            count == self@.cleared,
            count <= visited_count(self@),
            visited_count(self@) <= spec_volume(self@.min, self@.max),
    {
        proof {
            use_type_invariant(self);
            if let Some(p) = self.next {
                lemma_walk_rank_bounds(self.min, self.max, p);
            }
        }
        self.cleared
    }
}

} // verus!

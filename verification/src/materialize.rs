//! The order in which a validated plan is carried out: clear the whole
//! region in walk order, then place every planned block in plan order.

use vstd::prelude::*;

use crate::clearing::{walk_successor, ClearCursor, ClearState};
use crate::region::{spec_ordered, spec_volume, PlanPosition};

verus! {

/// The next thing to do to the world.
#[derive(Clone, Copy, Debug, PartialEq, Eq)]
pub enum MaterializeAction<T> {
    /// Clear this position, noting whether it held something other than air.
    Clear(PlanPosition),
    /// Place this block.
    Place(PlanPosition, T),
    /// Everything is done: this many cleared blocks were not air, and this
    /// many blocks were placed.
    Finish { cleared: u64, placed: usize },
}

/// Carrying out a plan: the clearing walk, the planned blocks, and how many
/// of them have been placed.
pub struct Materialization<T> {
    clearing: ClearCursor,
    blocks: Vec<(PlanPosition, T)>,
    placed: usize,
}

/// The next action for a run whose clearing walk stands at `clearing`, with
/// `placed` of `blocks` placed.
pub open spec fn spec_next_action<T>(
    clearing: ClearState,
    blocks: Seq<(PlanPosition, T)>,
    placed: nat,
) -> MaterializeAction<T> {
    match clearing.next {
        Some(p) => MaterializeAction::Clear(p),
        None => if placed < blocks.len() {
            MaterializeAction::Place(blocks[placed as int].0, blocks[placed as int].1)
        } else {
            MaterializeAction::Finish { cleared: clearing.cleared as u64, placed: blocks.len() as usize }
        },
    }
}

/// A run clears while its walk lasts; once the walk is over it places the
/// blocks one at a time in plan order, the next one being the block at
/// index `placed`; when all are placed it finishes with the walk's count
/// and the number of blocks.
pub proof fn lemma_next_action_law<T>(
    clearing: ClearState,
    blocks: Seq<(PlanPosition, T)>,
    placed: nat,
)
    ensures
        clearing.next matches Some(p) ==> spec_next_action(clearing, blocks, placed)
            == MaterializeAction::<T>::Clear(p),
        clearing.next is None && placed < blocks.len() ==> spec_next_action(
            clearing,
            blocks,
            placed,
        ) == MaterializeAction::<T>::Place(blocks[placed as int].0, blocks[placed as int].1),
        clearing.next is None && placed >= blocks.len() ==> spec_next_action(
            clearing,
            blocks,
            placed,
        ) == (MaterializeAction::<T>::Finish {
            cleared: clearing.cleared as u64,
            placed: blocks.len() as usize,
        }),
{
}

impl<T> Materialization<T> {
    #[verifier::type_invariant]
    spec fn well_formed(self) -> bool {
        &&& self.placed <= self.blocks@.len()
        &&& self.placed > 0 ==> self.clearing@.next is None
    }
}

impl<T: Copy> Materialization<T> {
    /// The clearing walk.
    pub closed spec fn clearing(self) -> ClearState {
        self.clearing@
    }

    /// The planned blocks, in plan order.
    pub closed spec fn blocks(self) -> Seq<(PlanPosition, T)> {
        self.blocks@
    }

    /// How many planned blocks have been placed.
    pub closed spec fn placed(self) -> nat {
        self.placed as nat
    }

    /// Starts carrying out a plan that clears `min..=max` and then places `blocks`.
    pub fn new(min: PlanPosition, max: PlanPosition, blocks: Vec<(PlanPosition, T)>) -> (run: Self)
        requires
            spec_ordered(min, max),
            spec_volume(min, max) <= u64::MAX,
        ensures
            run.clearing() == (ClearState { min, max, next: Some(min), cleared: 0 }),
            run.blocks() == blocks@,
            run.placed() == 0,
    {
        Materialization { clearing: ClearCursor::new(min, max), blocks, placed: 0 }
    }

    /// The next thing to do: clear while the walk lasts, then place the
    /// blocks one by one, then finish.
    pub fn next_action(&self) -> (action: MaterializeAction<T>)
        ensures
            action == spec_next_action(self.clearing(), self.blocks(), self.placed()),
    {
        proof {
            use_type_invariant(self);
        }
        match self.clearing.position() {
            Some(p) => MaterializeAction::Clear(p),
            None => if self.placed < self.blocks.len() {
                let (position, block) = self.blocks[self.placed];
                MaterializeAction::Place(position, block)
            } else {
                let cleared = self.clearing.cleared();
                MaterializeAction::Finish { cleared, placed: self.blocks.len() }
            },
        }
    }

    /// Records that the action `next_action` gave was carried out; for a
    /// clear, `was_not_air` tells whether the position held something other
    /// than air.
    pub fn record(&mut self, was_not_air: bool)
        requires
            !(spec_next_action(old(self).clearing(), old(self).blocks(), old(self).placed()) is Finish),
        ensures
            final(self).blocks() == old(self).blocks(),
            match old(self).clearing().next {
                Some(p) => {
                    &&& final(self).placed() == old(self).placed()
                    &&& final(self).clearing().min == old(self).clearing().min
                    &&& final(self).clearing().max == old(self).clearing().max
                    &&& final(self).clearing().next == walk_successor(
                        old(self).clearing().min,
                        old(self).clearing().max,
                        p,
                    )
                    &&& final(self).clearing().cleared == old(self).clearing().cleared + if was_not_air {
                        1nat
                    } else {
                        0nat
                    }
                },
                None => {
                    &&& final(self).clearing() == old(self).clearing()
                    &&& final(self).placed() == old(self).placed() + 1
                },
            },
    {
        proof {
            use_type_invariant(&*self);
        }
        if self.clearing.position().is_some() {
            self.clearing.advance(was_not_air);
        } else {
            assert(self.placed < self.blocks.len());
            self.placed = self.placed + 1;
        }
    }
}

} // verus!

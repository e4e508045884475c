//! Decisions around single world writes and command results.

use vstd::prelude::*;

use crate::error::PlanError;

verus! {

/// What to do to bring one block position to a wanted state.
#[derive(Clone, Copy, Debug, PartialEq, Eq, Structural)]
pub enum BlockWrite {
    /// The position's chunk is not loaded: the position is unavailable.
    Unavailable,
    /// The position already holds the wanted state: nothing to write.
    AlreadySet,
    /// The world must be asked to set the wanted state.
    Write,
}

/// What writing `target` needs when the position's chunk reports `current`
/// (`None` when the chunk is not loaded).
pub open spec fn spec_block_write(current: Option<u16>, target: u16) -> BlockWrite {
    match current {
        None => BlockWrite::Unavailable,
        Some(state) => if state == target {
            BlockWrite::AlreadySet
        } else {
            BlockWrite::Write
        },
    }
}

/// A position in an unloaded chunk is unavailable; a loaded position is
/// left alone exactly when it already holds the wanted state, and written
/// whenever its state differs from the wanted one, whatever the two states are.
pub proof fn lemma_block_write_law(current: Option<u16>, target: u16)
    ensures
        current is None <==> spec_block_write(current, target) == BlockWrite::Unavailable,
        current == Some(target) <==> spec_block_write(current, target) == BlockWrite::AlreadySet,
        (current is Some && current != Some(target)) <==> spec_block_write(current, target)
            == BlockWrite::Write,
{
}

/// Decides how to bring a position holding `current` to `target`.
pub fn block_write(current: Option<u16>, target: u16) -> (write: BlockWrite)
    ensures
        write == spec_block_write(current, target),
{
    match current {
        None => BlockWrite::Unavailable,
        Some(state) => if state == target {
            BlockWrite::AlreadySet
        } else {
            BlockWrite::Write
        },
    }
}

/// A count as a command's `i32` result, refused when it does not fit.
pub fn command_count(count: u64) -> (res: Result<i32, PlanError>)
    ensures
        count <= i32::MAX ==> res == Ok::<i32, PlanError>(count as i32),
        count > i32::MAX ==> res == Err::<i32, PlanError>(PlanError::CountOverflow),
{
    if count <= 0x7fff_ffff {
        Ok(count as i32)
    } else {
        Err(PlanError::CountOverflow)
    }
}

} // verus!

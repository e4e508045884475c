//! The reasons a plan, a block-state string or a world step is refused.

use vstd::prelude::*;

use crate::region::PlanPosition;

verus! {

/// Which part of a navigation start point is unacceptable.
#[derive(Clone, Copy, Debug, PartialEq, Eq, Structural)]
pub enum StartIssue {
    /// A coordinate or an angle is NaN or infinite.
    NonFinite,
    /// The pitch lies outside `-90..=90` degrees.
    PitchOutOfRange,
    /// The point lies outside the world's build limits.
    OutsideWorld,
}

/// Why a plan or a step of carrying it out was refused.
#[derive(Clone, Debug, PartialEq, Eq)]
pub enum PlanError {
    /// The plan's format version is not the supported one.
    UnsupportedVersion(u32),
    /// The plan names a generator other than the supported one.
    UnsupportedGenerator,
    /// The plan's task id is empty.
    EmptyTaskId,
    /// Some minimum corner coordinate exceeds the maximum one.
    InvertedBounds,
    /// The clear region leaves the world's horizontal or vertical limits.
    RegionOutsideWorld,
    /// A span of the clear region is negative.
    SpanOverflow,
    /// The number of blocks in the clear region does not fit a `u64`.
    VolumeOverflow,
    /// The clear region holds more blocks than the development limit.
    RegionTooLarge,
    /// The start point of a navigation plan is unacceptable.
    InvalidStart(StartIssue),
    /// The plan places no block.
    NoBlocks,
    /// A planned block lies outside the clear region.
    BlockOutsideRegion(PlanPosition),
    /// Two planned blocks share a position.
    DuplicatePosition(PlanPosition),
    /// A block state opens a property list that is never closed.
    UnmatchedBracket,
    /// A block state has an empty property list `[]`.
    EmptyPropertyList,
    /// A block state closes a property list that was never opened.
    UnmatchedClosingBracket,
    /// A property is not of the form `key=value`.
    InvalidProperty(String),
    /// A property key appears twice.
    DuplicateProperty(String),
    /// A block name is not a valid identifier.
    InvalidBlockName(String),
    /// A block name is not registered.
    UnknownBlock(String),
    /// The properties do not describe a state of the named block.
    InvalidBlockProperties(String),
    /// A count does not fit a command's `i32` result.
    CountOverflow,
}

} // verus!

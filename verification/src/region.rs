//! Block positions, axis-aligned clear regions and their bounds.

use vstd::prelude::*;

use crate::error::PlanError;

verus! {

/// A block position inside a materialization plan.
#[derive(Clone, Copy, Debug, PartialEq, Eq, Structural, Hash)]
pub struct PlanPosition {
    pub x: i32,
    pub y: i32,
    pub z: i32,
}

/// A position as the triple of its coordinates.
pub open spec fn coordinates(p: PlanPosition) -> (i32, i32, i32) {
    (p.x, p.y, p.z)
}

/// Whether `p` lies inside the closed box `min..=max` on every axis.
pub open spec fn spec_contains(min: PlanPosition, max: PlanPosition, p: PlanPosition) -> bool {
    &&& min.x <= p.x <= max.x
    &&& min.y <= p.y <= max.y
    &&& min.z <= p.z <= max.z
}

/// Tests whether `position` lies inside the closed box `min..=max`.
pub fn contains(min: PlanPosition, max: PlanPosition, position: PlanPosition) -> (inside: bool)
    ensures
        inside == spec_contains(min, max, position),
{
    min.x <= position.x && position.x <= max.x && min.y <= position.y && position.y <= max.y
        && min.z <= position.z && position.z <= max.z
}

/// Lowest block layer of the world.
pub const MIN_BUILD_HEIGHT: i32 = -64;
/// Highest block layer of the world.
pub const MAX_BUILD_HEIGHT: i32 = 319;
/// Lowest horizontal block coordinate of the world.
pub const MIN_HORIZONTAL_POSITION: i32 = -29_999_999;
/// Highest horizontal block coordinate of the world.
pub const MAX_HORIZONTAL_POSITION: i32 = 29_999_999;
/// Most blocks a single clear region may hold during development.
pub const MAX_CLEAR_BLOCKS: u64 = 20_000;

/// The corners are ordered on every axis.
pub open spec fn spec_ordered(min: PlanPosition, max: PlanPosition) -> bool {
    min.x <= max.x && min.y <= max.y && min.z <= max.z
}

/// The box lies inside the world's horizontal and vertical limits.
pub open spec fn spec_inside_world(min: PlanPosition, max: PlanPosition) -> bool {
    &&& MIN_HORIZONTAL_POSITION <= min.x
    &&& max.x <= MAX_HORIZONTAL_POSITION
    &&& MIN_HORIZONTAL_POSITION <= min.z
    &&& max.z <= MAX_HORIZONTAL_POSITION
    &&& MIN_BUILD_HEIGHT <= min.y
    &&& max.y <= MAX_BUILD_HEIGHT
}

/// What bound validation answers for the box `min..=max`.
pub open spec fn spec_validate_bounds(min: PlanPosition, max: PlanPosition) -> Result<(), PlanError> {
    if !spec_ordered(min, max) {
        Err(PlanError::InvertedBounds)
    } else if !spec_inside_world(min, max) {
        Err(PlanError::RegionOutsideWorld)
    } else {
        Ok(())
    }
}

/// Checks that the corners are ordered and that the box lies inside the world.
pub fn validate_bounds(min: PlanPosition, max: PlanPosition) -> (res: Result<(), PlanError>)
    ensures
        res == spec_validate_bounds(min, max),
{
    if min.x > max.x || min.y > max.y || min.z > max.z {
        return Err(PlanError::InvertedBounds);
    }
    if min.x < MIN_HORIZONTAL_POSITION || max.x > MAX_HORIZONTAL_POSITION
        || min.z < MIN_HORIZONTAL_POSITION || max.z > MAX_HORIZONTAL_POSITION
        || min.y < MIN_BUILD_HEIGHT || max.y > MAX_BUILD_HEIGHT
    {
        return Err(PlanError::RegionOutsideWorld);
    }
    Ok(())
}

/// Number of block layers between `low` and `high`, both included.
pub open spec fn spec_span(low: i32, high: i32) -> int {
    high - low + 1
}

/// Number of blocks in the box `min..=max`.
pub open spec fn spec_volume(min: PlanPosition, max: PlanPosition) -> int {
    spec_span(min.x, max.x) * spec_span(min.y, max.y) * spec_span(min.z, max.z)
}

/// What the volume computation answers: spans are taken axis by axis and
/// multiplied x by y first, then by z, each product checked against `u64`.
pub open spec fn spec_region_volume(min: PlanPosition, max: PlanPosition) -> Result<u64, PlanError> {
    let sx = spec_span(min.x, max.x);
    let sy = spec_span(min.y, max.y);
    let sz = spec_span(min.z, max.z);
    if sx < 0 || sy < 0 || sz < 0 {
        Err(PlanError::SpanOverflow)
    } else if sx * sy > u64::MAX || sx * sy * sz > u64::MAX {
        Err(PlanError::VolumeOverflow)
    } else {
        Ok((sx * sy * sz) as u64)
    }
}

/// The span of `low..=high` as a `u64`, refused when it is negative.
fn span(low: i32, high: i32) -> (res: Result<u64, PlanError>)
    ensures
        spec_span(low, high) >= 0 ==> res == Ok::<u64, PlanError>(spec_span(low, high) as u64),
        spec_span(low, high) < 0 ==> res == Err::<u64, PlanError>(PlanError::SpanOverflow),
{
    let wide: i64 = high as i64 - low as i64 + 1;
    if wide < 0 {
        Err(PlanError::SpanOverflow)
    } else {
        Ok(wide as u64)
    }
}

/// Counts the blocks of the box `min..=max`, refusing spans and products
/// that leave `u64`.
pub fn region_volume(min: PlanPosition, max: PlanPosition) -> (res: Result<u64, PlanError>)
    ensures
        res == spec_region_volume(min, max),
{
    let x = match span(min.x, max.x) {
        Ok(v) => v,
        Err(e) => return Err(e),
    };
    let y = match span(min.y, max.y) {
        Ok(v) => v,
        Err(e) => return Err(e),
    };
    let z = match span(min.z, max.z) {
        Ok(v) => v,
        Err(e) => return Err(e),
    };
    match x.checked_mul(y) {
        None => Err(PlanError::VolumeOverflow),
        Some(xy) => match xy.checked_mul(z) {
            None => {
                assert(x * y * z == xy * z);
                Err(PlanError::VolumeOverflow)
            },
            Some(v) => Ok(v),
        },
    }
}

/// A region that passes bound validation never overflows the volume
/// computation: its volume is exactly the product of its spans.
pub proof fn lemma_valid_region_volume(min: PlanPosition, max: PlanPosition)
    requires
        spec_validate_bounds(min, max) is Ok,
    ensures
        0 < spec_volume(min, max) <= u64::MAX,
        spec_region_volume(min, max) == Ok::<u64, PlanError>(spec_volume(min, max) as u64),
{
    let sx = spec_span(min.x, max.x);
    let sy = spec_span(min.y, max.y);
    let sz = spec_span(min.z, max.z);
    assert(0 < sx * sy <= 59_999_999 * 384 && 0 < sx * sy * sz <= 59_999_999 * 384 * 59_999_999)
        by (nonlinear_arith)
        requires
            1 <= sx <= 59_999_999,
            1 <= sy <= 384,
            1 <= sz <= 59_999_999,
    {
        assert(sx * sy <= 59_999_999 * sy);
        assert(59_999_999 * sy <= 59_999_999 * 384);
        assert(sx * sy * sz <= (59_999_999 * 384) * sz);
        assert((59_999_999 * 384) * sz <= (59_999_999 * 384) * 59_999_999);
    }
}

/// Bound validation accepts exactly the boxes whose corners are ordered on
/// every axis and that lie within x and z in -29 999 999..=29 999 999 and y
/// in -64..=319; it calls a box inverted exactly when some minimum
/// coordinate exceeds the maximum one, and otherwise out of the world.
pub proof fn lemma_validate_bounds_law(min: PlanPosition, max: PlanPosition)
    ensures
        (min.x <= max.x && min.y <= max.y && min.z <= max.z && -29_999_999 <= min.x && max.x
            <= 29_999_999 && -29_999_999 <= min.z && max.z <= 29_999_999 && -64 <= min.y && max.y
            <= 319) <==> spec_validate_bounds(min, max) == Ok::<(), PlanError>(()),
        (min.x > max.x || min.y > max.y || min.z > max.z) <==> spec_validate_bounds(min, max)
            == Err::<(), PlanError>(PlanError::InvertedBounds),
        spec_validate_bounds(min, max) is Ok || spec_validate_bounds(min, max) == Err::<
            (),
            PlanError,
        >(PlanError::InvertedBounds) || spec_validate_bounds(min, max) == Err::<(), PlanError>(
            PlanError::RegionOutsideWorld,
        ),
{
}

/// The volume is the product of the three inclusive spans `max - min + 1`
/// whenever they are all at least zero and the products fit `u64`; a
/// negative span is refused as such.
pub proof fn lemma_region_volume_law(min: PlanPosition, max: PlanPosition)
    ensures
        ({
            let sx = max.x - min.x + 1;
            let sy = max.y - min.y + 1;
            let sz = max.z - min.z + 1;
            &&& (sx >= 0 && sy >= 0 && sz >= 0 && sx * sy <= u64::MAX && sx * sy * sz
                <= u64::MAX) ==> spec_region_volume(min, max) == Ok::<u64, PlanError>(
                (sx * sy * sz) as u64,
            )
            &&& (sx < 0 || sy < 0 || sz < 0) ==> spec_region_volume(min, max) == Err::<
                u64,
                PlanError,
            >(PlanError::SpanOverflow)
            &&& (sx >= 0 && sy >= 0 && sz >= 0 && (sx * sy > u64::MAX || sx * sy * sz
                > u64::MAX)) ==> spec_region_volume(min, max) == Err::<u64, PlanError>(
                PlanError::VolumeOverflow,
            )
        }),
{
}

} // verus!

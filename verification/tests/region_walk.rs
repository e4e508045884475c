use std::collections::HashSet;

use steel::clearing::ClearCursor;
use steel::error::PlanError;
use steel::region::{contains, region_volume, validate_bounds, PlanPosition};

fn p(x: i32, y: i32, z: i32) -> PlanPosition {
    PlanPosition { x, y, z }
}

#[test]
fn contains_includes_both_corners() {
    let min = p(-1, 0, 2);
    let max = p(1, 3, 2);
    assert!(contains(min, max, min));
    assert!(contains(min, max, max));
    assert!(contains(min, max, p(0, 1, 2)));
    assert!(!contains(min, max, p(2, 1, 2)));
    assert!(!contains(min, max, p(0, 4, 2)));
    assert!(!contains(min, max, p(0, 1, 3)));
}

#[test]
fn validate_bounds_checks_order_then_world_limits() {
    assert_eq!(validate_bounds(p(0, 0, 0), p(1, 1, 1)), Ok(()));
    assert_eq!(validate_bounds(p(2, 0, 0), p(1, 1, 1)), Err(PlanError::InvertedBounds));
    assert_eq!(validate_bounds(p(0, 0, 0), p(1, 320, 1)), Err(PlanError::RegionOutsideWorld));
    assert_eq!(
        validate_bounds(p(-30_000_000, 0, 0), p(1, 1, 1)),
        Err(PlanError::RegionOutsideWorld)
    );
    assert_eq!(
        validate_bounds(p(-29_999_999, -64, -29_999_999), p(29_999_999, 319, 29_999_999)),
        Ok(())
    );
}

#[test]
fn region_volume_multiplies_inclusive_spans() {
    assert_eq!(region_volume(p(0, 0, 0), p(1, 1, 1)), Ok(8));
    assert_eq!(region_volume(p(0, 0, 0), p(100, 100, 100)), Ok(1_030_301));
    assert_eq!(region_volume(p(5, 5, 5), p(5, 5, 5)), Ok(1));
    assert_eq!(region_volume(p(1, 0, 0), p(0, 0, 0)), Ok(0));
    assert_eq!(region_volume(p(2, 0, 0), p(0, 0, 0)), Err(PlanError::SpanOverflow));
    assert_eq!(
        region_volume(p(i32::MIN, i32::MIN, i32::MIN), p(i32::MAX, i32::MAX, i32::MAX)),
        Err(PlanError::VolumeOverflow)
    );
}

#[test]
fn whole_world_volume_fits() {
    let min = p(-29_999_999, -64, -29_999_999);
    let max = p(29_999_999, 319, 29_999_999);
    assert_eq!(validate_bounds(min, max), Ok(()));
    assert_eq!(region_volume(min, max), Ok(59_999_999u64 * 384 * 59_999_999));
}

fn walk(min: PlanPosition, max: PlanPosition, not_air: impl Fn(PlanPosition) -> bool) -> (Vec<PlanPosition>, u64) {
    let mut cursor = ClearCursor::new(min, max);
    let mut visited = Vec::new();
    while let Some(position) = cursor.position() {
        visited.push(position);
        cursor.advance(not_air(position));
    }
    (visited, cursor.cleared())
}

#[test]
fn walk_visits_layers_then_rows_then_columns() {
    let (visited, _) = walk(p(0, 10, 0), p(1, 11, 1), |_| false);
    assert_eq!(
        visited,
        vec![
            p(0, 10, 0),
            p(0, 10, 1),
            p(1, 10, 0),
            p(1, 10, 1),
            p(0, 11, 0),
            p(0, 11, 1),
            p(1, 11, 0),
            p(1, 11, 1),
        ]
    );
}

#[test]
fn walk_visits_each_position_once() {
    let min = p(-2, 3, 5);
    let max = p(1, 5, 9);
    let (visited, _) = walk(min, max, |_| true);
    let distinct: HashSet<(i32, i32, i32)> = visited.iter().map(|q| (q.x, q.y, q.z)).collect();
    assert_eq!(visited.len() as u64, region_volume(min, max).unwrap());
    assert_eq!(distinct.len(), visited.len());
    assert!(visited.iter().all(|q| contains(min, max, *q)));
}

#[test]
fn walk_counts_only_non_air_blocks() {
    let (visited, cleared) = walk(p(0, 0, 0), p(2, 0, 2), |q| q.x == q.z);
    assert_eq!(visited.len(), 9);
    assert_eq!(cleared, 3);
}

#[test]
fn single_block_walk() {
    let (visited, cleared) = walk(p(7, 7, 7), p(7, 7, 7), |_| true);
    assert_eq!(visited, vec![p(7, 7, 7)]);
    assert_eq!(cleared, 1);
}

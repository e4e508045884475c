use steel::error::PlanError;
use steel::parity::{
    MaterializationBlock, MaterializationBlockKind, MaterializationRequest, FORMAT_VERSION,
    GENERATOR_VERSION,
};
use steel::region::PlanPosition;

fn request(blocks: Vec<MaterializationBlock>) -> MaterializationRequest {
    MaterializationRequest {
        format_version: FORMAT_VERSION,
        generator_version: GENERATOR_VERSION.to_owned(),
        seed: 424_242,
        clear_min: PlanPosition { x: 0, y: 0, z: 0 },
        clear_max: PlanPosition { x: 1, y: 1, z: 1 },
        blocks,
    }
}

fn stone(position: PlanPosition) -> MaterializationBlock {
    MaterializationBlock {
        position,
        block: MaterializationBlockKind::Stone,
    }
}

#[test]
fn accepts_a_valid_plan() {
    assert!(
        request(vec![stone(PlanPosition { x: 0, y: 0, z: 0 })])
            .validate()
            .is_ok()
    );
}

#[test]
fn rejects_duplicate_positions() {
    let position = PlanPosition { x: 0, y: 0, z: 0 };
    assert!(
        request(vec![stone(position), stone(position)])
            .validate()
            .is_err()
    );
}

#[test]
fn rejects_blocks_outside_the_clear_region() {
    assert!(
        request(vec![stone(PlanPosition { x: 2, y: 0, z: 0 })])
            .validate()
            .is_err()
    );
}

#[test]
fn duplicate_position_names_the_repeated_position() {
    let a = PlanPosition { x: 0, y: 0, z: 0 };
    let b = PlanPosition { x: 1, y: 1, z: 1 };
    let plan = request(vec![stone(a), stone(b), stone(a)]);
    assert_eq!(plan.validate(), Err(PlanError::DuplicatePosition(a)));
}

#[test]
fn outside_block_is_reported_before_a_later_duplicate() {
    let a = PlanPosition { x: 0, y: 0, z: 0 };
    let outside = PlanPosition { x: 0, y: -1, z: 0 };
    let plan = request(vec![stone(a), stone(outside), stone(a)]);
    assert_eq!(plan.validate(), Err(PlanError::BlockOutsideRegion(outside)));
}

#[test]
fn all_eight_corners_of_the_region_are_accepted() {
    let mut blocks = Vec::new();
    for x in 0..2 {
        for y in 0..2 {
            for z in 0..2 {
                blocks.push(MaterializationBlock {
                    position: PlanPosition { x, y, z },
                    block: MaterializationBlockKind::TopSlab,
                });
            }
        }
    }
    assert_eq!(request(blocks).validate(), Ok(()));
}

#[test]
fn rejects_other_format_versions() {
    let mut plan = request(vec![stone(PlanPosition { x: 0, y: 0, z: 0 })]);
    plan.format_version = 2;
    assert_eq!(plan.validate(), Err(PlanError::UnsupportedVersion(2)));
}

#[test]
fn rejects_other_generators() {
    let mut plan = request(vec![stone(PlanPosition { x: 0, y: 0, z: 0 })]);
    plan.generator_version = "p01-physics-sandbox-v2".to_owned();
    assert_eq!(plan.validate(), Err(PlanError::UnsupportedGenerator));
}

#[test]
fn rejects_inverted_region() {
    let mut plan = request(vec![stone(PlanPosition { x: 0, y: 0, z: 0 })]);
    plan.clear_max = PlanPosition { x: 1, y: -1, z: 1 };
    assert_eq!(plan.validate(), Err(PlanError::InvertedBounds));
}

#[test]
fn rejects_region_below_the_world() {
    let mut plan = request(vec![stone(PlanPosition { x: 0, y: -65, z: 0 })]);
    plan.clear_min = PlanPosition { x: 0, y: -65, z: 0 };
    assert_eq!(plan.validate(), Err(PlanError::RegionOutsideWorld));
}

#[test]
fn rejects_region_over_the_block_limit() {
    let mut plan = request(vec![stone(PlanPosition { x: 0, y: 0, z: 0 })]);
    plan.clear_max = PlanPosition { x: 99, y: 1, z: 100 };
    assert_eq!(plan.validate(), Err(PlanError::RegionTooLarge));
}

#[test]
fn accepts_region_of_exactly_the_block_limit() {
    let mut plan = request(vec![stone(PlanPosition { x: 0, y: 0, z: 0 })]);
    plan.clear_max = PlanPosition { x: 99, y: 1, z: 99 };
    assert_eq!(plan.validate(), Ok(()));
}

#[test]
fn rejects_plans_without_blocks() {
    assert_eq!(request(Vec::new()).validate(), Err(PlanError::NoBlocks));
}

use steel::block_state::{split_properties, split_state};
use steel::error::{PlanError, StartIssue};
use steel::flat_navigation::{MaterializationBlock, MaterializationRequest, FORMAT_VERSION};
use steel::region::PlanPosition;

/// Stands in for Steel's block registry: knows stone and stone slabs.
fn resolve(state: &str) -> Result<u16, PlanError> {
    let syntax = split_state(state)?;
    let properties = match &syntax.properties {
        Some(text) => split_properties(text)?,
        None => Vec::new(),
    };
    match (syntax.name.as_str(), properties.as_slice()) {
        ("minecraft:stone", []) => Ok(1),
        ("minecraft:stone_slab", []) => Ok(11_000),
        ("minecraft:stone_slab", [(key, value)]) if key == "type" && value == "top" => Ok(11_001),
        ("minecraft:stone", _) | ("minecraft:stone_slab", _) => {
            Err(PlanError::InvalidBlockProperties(syntax.name.clone()))
        }
        _ => Err(PlanError::UnknownBlock(syntax.name.clone())),
    }
}

fn states(request: &MaterializationRequest) -> Vec<Result<u16, PlanError>> {
    request.blocks.iter().map(|block| resolve(&block.state)).collect()
}

fn request() -> MaterializationRequest {
    MaterializationRequest {
        format_version: FORMAT_VERSION,
        task_id: "v2/test".to_owned(),
        clear_min: PlanPosition { x: 0, y: 0, z: 0 },
        clear_max: PlanPosition { x: 1, y: 1, z: 1 },
        blocks: vec![MaterializationBlock {
            position: PlanPosition { x: 0, y: 0, z: 0 },
            state: "minecraft:stone".to_owned(),
        }],
    }
}

// The start point (0.5, 1.0, 0.5) with yaw and pitch 0 passes the start
// check, so each test hands over `None` as its finding.

#[test]
fn rejects_duplicate_positions_before_world_mutation() {
    let mut request = request();
    request.blocks.push(MaterializationBlock {
        position: PlanPosition { x: 0, y: 0, z: 0 },
        state: "minecraft:stone".to_owned(),
    });
    let states = states(&request);
    assert!(request.validate_and_resolve(None, states).is_err());
}

#[test]
fn rejects_clear_regions_that_exceed_the_development_limit() {
    let mut request = request();
    request.clear_max = PlanPosition {
        x: 100,
        y: 100,
        z: 100,
    };
    let states = states(&request);
    assert!(request.validate_and_resolve(None, states).is_err());
}

#[test]
fn resolves_every_block_in_plan_order() {
    let mut request = request();
    request.blocks.push(MaterializationBlock {
        position: PlanPosition { x: 1, y: 1, z: 0 },
        state: "minecraft:stone_slab[type=top]".to_owned(),
    });
    let states = states(&request);
    assert_eq!(
        request.validate_and_resolve(None, states),
        Ok(vec![
            (PlanPosition { x: 0, y: 0, z: 0 }, 1),
            (PlanPosition { x: 1, y: 1, z: 0 }, 11_001),
        ])
    );
}

#[test]
fn reports_the_start_issue_after_region_checks() {
    let request = request();
    let states = states(&request);
    assert_eq!(
        request.validate_and_resolve(Some(StartIssue::PitchOutOfRange), states),
        Err(PlanError::InvalidStart(StartIssue::PitchOutOfRange))
    );
    let mut inverted = self::request();
    inverted.clear_min = PlanPosition { x: 2, y: 0, z: 0 };
    let states = self::states(&inverted);
    assert_eq!(
        inverted.validate_and_resolve(Some(StartIssue::NonFinite), states),
        Err(PlanError::InvertedBounds)
    );
}

#[test]
fn rejects_empty_task_ids() {
    let mut request = request();
    request.task_id = String::new();
    let states = states(&request);
    assert_eq!(request.validate_and_resolve(None, states), Err(PlanError::EmptyTaskId));
}

#[test]
fn reports_unresolved_state_of_the_first_failing_block() {
    let mut request = request();
    request.blocks.push(MaterializationBlock {
        position: PlanPosition { x: 1, y: 0, z: 0 },
        state: "minecraft:dirt".to_owned(),
    });
    request.blocks.push(MaterializationBlock {
        position: PlanPosition { x: 0, y: 0, z: 0 },
        state: "minecraft:stone".to_owned(),
    });
    let states = states(&request);
    assert_eq!(
        request.validate_and_resolve(None, states),
        Err(PlanError::UnknownBlock("minecraft:dirt".to_owned()))
    );
}

#[test]
fn rejects_reset_plans_with_other_versions_or_no_blocks() {
    let mut request = request();
    request.format_version = 7;
    assert_eq!(
        request.validate_and_resolve(None, states(&request)),
        Err(PlanError::UnsupportedVersion(7))
    );
    request.format_version = FORMAT_VERSION;
    request.blocks.clear();
    assert_eq!(request.validate_and_resolve(None, Vec::new()), Err(PlanError::NoBlocks));
}

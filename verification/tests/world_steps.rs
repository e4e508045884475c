use steel::descriptor::BlockStateDescriptorError;
use steel::error::PlanError;
use steel::fixture::{fixture_layout, FixtureBlock, MAX_ORIGIN_X};
use steel::region::PlanPosition;
use steel::world::{block_write, command_count, BlockWrite};

#[test]
fn block_write_decisions() {
    assert_eq!(block_write(None, 1), BlockWrite::Unavailable);
    assert_eq!(block_write(Some(1), 1), BlockWrite::AlreadySet);
    assert_eq!(block_write(Some(0), 1), BlockWrite::Write);
}

#[test]
fn command_counts_fit_i32() {
    assert_eq!(command_count(0), Ok(0));
    assert_eq!(command_count(4), Ok(4));
    assert_eq!(command_count(2_147_483_647), Ok(i32::MAX));
    assert_eq!(command_count(2_147_483_648), Err(PlanError::CountOverflow));
}

#[test]
fn fixture_row_is_air_stone_slab_stairs() {
    let origin = PlanPosition { x: 10, y: -3, z: 7 };
    assert_eq!(
        fixture_layout(origin),
        vec![
            (origin, FixtureBlock::Air),
            (PlanPosition { x: 11, y: -3, z: 7 }, FixtureBlock::Stone),
            (PlanPosition { x: 12, y: -3, z: 7 }, FixtureBlock::BottomSlab),
            (PlanPosition { x: 13, y: -3, z: 7 }, FixtureBlock::StraightStairsNorth),
        ]
    );
}

#[test]
fn fixture_row_at_the_largest_origin_stays_in_the_world() {
    let layout = fixture_layout(PlanPosition { x: MAX_ORIGIN_X, y: 0, z: 0 });
    assert_eq!(layout.len(), 4);
    assert_eq!(layout[3].0.x, 29_999_999);
}

#[test]
fn descriptor_error_messages() {
    assert_eq!(
        BlockStateDescriptorError::InvalidBlockName("Bad Name".to_owned()).message(),
        "invalid Steel block name \"Bad Name\""
    );
    assert_eq!(
        BlockStateDescriptorError::UnknownBlock("minecraft:nope".to_owned()).message(),
        "Steel block \"minecraft:nope\" is not registered"
    );
    assert_eq!(
        BlockStateDescriptorError::InvalidProperties("some message".to_owned()).message(),
        "some message"
    );
    assert_eq!(
        BlockStateDescriptorError::UnknownState(65_535).message(),
        "Steel state id 65535 is not registered"
    );
    assert_eq!(
        BlockStateDescriptorError::UnknownState(0).message(),
        "Steel state id 0 is not registered"
    );
}

#[test]
fn debug_quoting_escapes_quotes() {
    assert_eq!(
        BlockStateDescriptorError::UnknownBlock("a\"b".to_owned()).message(),
        "Steel block \"a\\\"b\" is not registered"
    );
    assert_eq!(
        BlockStateDescriptorError::invalid_properties_for("minecraft:stone"),
        BlockStateDescriptorError::InvalidProperties(
            "invalid properties for Steel block \"minecraft:stone\"".to_owned()
        )
    );
}

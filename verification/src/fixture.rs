//! The fixed four-block row that the controlled-world fixture command
//! places: air, stone, a bottom slab and north-facing straight stairs.

use vstd::prelude::*;

use crate::region::PlanPosition;

verus! {

/// Largest `x` the fixture's origin may take: the row extends three
/// blocks towards positive `x`.
pub const MAX_ORIGIN_X: i32 = 29_999_996;

/// The block placed at one position of the fixture.
#[derive(Clone, Copy, Debug, PartialEq, Eq, Structural)]
pub enum FixtureBlock {
    Air,
    Stone,
    BottomSlab,
    StraightStairsNorth,
}

/// `origin` moved `dx` blocks along `x`.
pub open spec fn offset_x(origin: PlanPosition, dx: int) -> PlanPosition {
    PlanPosition { x: (origin.x + dx) as i32, y: origin.y, z: origin.z }
}

/// The fixture row that starts at `origin`.
pub open spec fn spec_fixture_layout(origin: PlanPosition) -> Seq<(PlanPosition, FixtureBlock)> {
    seq![
        (origin, FixtureBlock::Air),
        (offset_x(origin, 1), FixtureBlock::Stone),
        (offset_x(origin, 2), FixtureBlock::BottomSlab),
        (offset_x(origin, 3), FixtureBlock::StraightStairsNorth),
    ]
}

/// The fixture row is four blocks on consecutive `x`, starting at the
/// origin, sharing its `y` and `z`, in the order air, stone, bottom slab,
/// stairs.
pub proof fn lemma_fixture_layout_law(origin: PlanPosition)
    requires
        origin.x <= i32::MAX - 3,
    ensures
        spec_fixture_layout(origin).len() == 4,
        forall|k: int|
            0 <= k < 4 ==> (#[trigger] spec_fixture_layout(origin)[k]).0.x == origin.x + k
                && spec_fixture_layout(origin)[k].0.y == origin.y && spec_fixture_layout(
                origin,
            )[k].0.z == origin.z,
        spec_fixture_layout(origin)[0].1 == FixtureBlock::Air,
        spec_fixture_layout(origin)[1].1 == FixtureBlock::Stone,
        spec_fixture_layout(origin)[2].1 == FixtureBlock::BottomSlab,
        spec_fixture_layout(origin)[3].1 == FixtureBlock::StraightStairsNorth,
{
}

/// The positions and blocks of the fixture row starting at `origin`, in
/// the order they are placed.
pub fn fixture_layout(origin: PlanPosition) -> (layout: Vec<(PlanPosition, FixtureBlock)>)
    requires
        origin.x <= i32::MAX - 3,
    ensures
        layout@ == spec_fixture_layout(origin),
{
    let mut layout: Vec<(PlanPosition, FixtureBlock)> = Vec::new();
    layout.push((origin, FixtureBlock::Air));
    layout.push((PlanPosition { x: origin.x + 1, y: origin.y, z: origin.z }, FixtureBlock::Stone));
    layout.push(
        (PlanPosition { x: origin.x + 2, y: origin.y, z: origin.z }, FixtureBlock::BottomSlab),
    );
    layout.push(
        (
            PlanPosition { x: origin.x + 3, y: origin.y, z: origin.z },
            FixtureBlock::StraightStairsNorth,
        ),
    );
    assert(layout@ =~= spec_fixture_layout(origin));
    layout
}

} // verus!

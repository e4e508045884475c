//! Materialization plans for the physics parity scenarios: a clear region,
//! a handful of stone-family blocks, and the checks a plan must pass before
//! the world is touched.

use vstd::prelude::*;

use crate::error::PlanError;
use crate::fxset::{insert_position, new_position_set, position_set_contents};
use crate::region::{
    contains, coordinates, lemma_valid_region_volume, lemma_validate_bounds_law, region_volume, spec_contains, spec_inside_world,
    spec_ordered, spec_region_volume, spec_validate_bounds, spec_volume, validate_bounds,
    PlanPosition, MAX_CLEAR_BLOCKS,
};

verus! {

/// The only plan format version this command reads.
pub const FORMAT_VERSION: u32 = 1;

/// The only scenario generator whose plans this command accepts.
pub const GENERATOR_VERSION: &'static str = "p01-physics-sandbox-v1";

/// The block that a plan places at a position.
#[derive(Clone, Copy, Debug, PartialEq, Eq, Structural)]
pub enum MaterializationBlockKind {
    Stone,
    BottomSlab,
    TopSlab,
    StraightStairsNorth,
}

/// One block of a plan.
#[derive(Clone, Copy, Debug, PartialEq, Eq, Structural)]
pub struct MaterializationBlock {
    pub position: PlanPosition,
    pub block: MaterializationBlockKind,
}

/// A serialized parity scenario, as the scenario generator writes it.
#[derive(Clone, Debug)]
pub struct MaterializationRequest {
    pub format_version: u32,
    pub generator_version: String,
    pub seed: u64,
    pub clear_min: PlanPosition,
    pub clear_max: PlanPosition,
    pub blocks: Vec<MaterializationBlock>,
}

/// The positions of the blocks, in plan order.
pub open spec fn block_positions(blocks: Seq<MaterializationBlock>) -> Seq<PlanPosition> {
    blocks.map_values(|b: MaterializationBlock| b.position)
}

/// The first problem among the first `n` positions: a position outside the
/// region, or one that repeats an earlier position.
pub open spec fn first_position_issue(
    positions: Seq<PlanPosition>,
    min: PlanPosition,
    max: PlanPosition,
    n: nat,
) -> Option<PlanError>
    decreases n,
{
    if n == 0 {
        None
    } else {
        match first_position_issue(positions, min, max, (n - 1) as nat) {
            Some(e) => Some(e),
            None => {
                let p = positions[n - 1];
                if !spec_contains(min, max, p) {
                    Some(PlanError::BlockOutsideRegion(p))
                } else if positions.take(n - 1).contains(p) {
                    Some(PlanError::DuplicatePosition(p))
                } else {
                    None
                }
            },
        }
    }
}

/// Once a problem is found among the first `n` positions, it stays the
/// first problem among any longer prefix.
proof fn lemma_first_issue_persists(
    positions: Seq<PlanPosition>,
    min: PlanPosition,
    max: PlanPosition,
    n: nat,
    m: nat,
)
    requires
        n <= m,
        first_position_issue(positions, min, max, n) is Some,
    ensures
        first_position_issue(positions, min, max, m) == first_position_issue(positions, min, max, n),
    decreases m - n,
{
    if n < m {
        lemma_first_issue_persists(positions, min, max, n, (m - 1) as nat);
    }
}

/// Among the first `n` positions of an issue-free prefix, every position
/// lies in the region and none repeats an earlier one.
proof fn lemma_no_issue_means_inside_and_distinct(
    positions: Seq<PlanPosition>,
    min: PlanPosition,
    max: PlanPosition,
    n: nat,
)
    requires
        n <= positions.len(),
        first_position_issue(positions, min, max, n) is None,
    ensures
        forall|k: int| 0 <= k < n ==> spec_contains(min, max, #[trigger] positions[k]),
        forall|j: int, k: int| 0 <= j < k < n ==> #[trigger] positions[j] != #[trigger] positions[k],
    decreases n,
{
    if n > 0 {
        lemma_no_issue_means_inside_and_distinct(positions, min, max, (n - 1) as nat);
        assert forall|j: int, k: int| 0 <= j < k < n implies #[trigger] positions[j]
            != #[trigger] positions[k] by {
            if k == n - 1 {
                assert(positions.take(n - 1)[j] == positions[j]);
            }
        }
    }
}

/// What validation answers for a plan: the first failing check in the
/// order version, generator, bounds, volume limit, emptiness, blocks.
pub open spec fn spec_validate(
    format_version: u32,
    generator_version: Seq<char>,
    clear_min: PlanPosition,
    clear_max: PlanPosition,
    blocks: Seq<MaterializationBlock>,
) -> Result<(), PlanError> {
    if format_version != FORMAT_VERSION {
        Err(PlanError::UnsupportedVersion(format_version))
    } else if generator_version != GENERATOR_VERSION@ {
        Err(PlanError::UnsupportedGenerator)
    } else if spec_validate_bounds(clear_min, clear_max) is Err {
        spec_validate_bounds(clear_min, clear_max)
    } else if spec_region_volume(clear_min, clear_max) is Err {
        Err(spec_region_volume(clear_min, clear_max)->Err_0)
    } else if spec_region_volume(clear_min, clear_max)->Ok_0 > MAX_CLEAR_BLOCKS {
        Err(PlanError::RegionTooLarge)
    } else if blocks.len() == 0 {
        Err(PlanError::NoBlocks)
    } else {
        match first_position_issue(block_positions(blocks), clear_min, clear_max, blocks.len()) {
            Some(e) => Err(e),
            None => Ok(()),
        }
    }
}

/// `p` lies in the box `min..=max`, written out coordinate by coordinate.
pub open spec fn inside_box(min: PlanPosition, max: PlanPosition, p: PlanPosition) -> bool {
    min.x <= p.x && p.x <= max.x && min.y <= p.y && p.y <= max.y && min.z <= p.z && p.z <= max.z
}

/// A plan that validation accepts has the supported versions, a clear
/// region inside the world that holds at most `MAX_CLEAR_BLOCKS` blocks, at
/// least one block, every block inside the clear region, and no two blocks
/// at the same position.
pub proof fn lemma_accepted_plan(
    format_version: u32,
    generator_version: Seq<char>,
    clear_min: PlanPosition,
    clear_max: PlanPosition,
    blocks: Seq<MaterializationBlock>,
)
    requires
        spec_validate(format_version, generator_version, clear_min, clear_max, blocks) is Ok,
    ensures
        format_version == FORMAT_VERSION,
        generator_version == GENERATOR_VERSION@,
        clear_min.x <= clear_max.x && clear_min.y <= clear_max.y && clear_min.z <= clear_max.z,
        -29_999_999 <= clear_min.x && clear_max.x <= 29_999_999,
        -29_999_999 <= clear_min.z && clear_max.z <= 29_999_999,
        -64 <= clear_min.y && clear_max.y <= 319,
        (clear_max.x - clear_min.x + 1) * (clear_max.y - clear_min.y + 1) * (clear_max.z
            - clear_min.z + 1) <= 20_000,
        blocks.len() > 0,
        forall|i: int|
            0 <= i < blocks.len() ==> inside_box(clear_min, clear_max, #[trigger] blocks[i].position),
        forall|i: int, j: int|
            0 <= i < j < blocks.len() ==> #[trigger] blocks[i].position != #[trigger] blocks[j].position,
{
    lemma_valid_region_volume(clear_min, clear_max);
    let positions = block_positions(blocks);
    lemma_no_issue_means_inside_and_distinct(positions, clear_min, clear_max, blocks.len());
    assert forall|i: int| 0 <= i < blocks.len() implies spec_contains(
        clear_min,
        clear_max,
        #[trigger] blocks[i].position,
    ) by {
        assert(positions[i] == blocks[i].position);
    }
    assert forall|i: int, j: int| 0 <= i < j < blocks.len() implies #[trigger] blocks[i].position
        != #[trigger] blocks[j].position by {
        assert(positions[i] == blocks[i].position);
        assert(positions[j] == blocks[j].position);
    }
}

/// Positions that all lie in the box and are pairwise distinct raise no
/// issue, whatever their order.
proof fn lemma_distinct_inside_means_no_issue(
    positions: Seq<PlanPosition>,
    min: PlanPosition,
    max: PlanPosition,
    n: nat,
)
    requires
        n <= positions.len(),
        forall|k: int| 0 <= k < n ==> inside_box(min, max, #[trigger] positions[k]),
        forall|j: int, k: int| 0 <= j < k < n ==> #[trigger] positions[j] != #[trigger] positions[k],
    ensures
        first_position_issue(positions, min, max, n) is None,
    decreases n,
{
    if n > 0 {
        lemma_distinct_inside_means_no_issue(positions, min, max, (n - 1) as nat);
        let p = positions[n - 1];
        assert(inside_box(min, max, p));
        if positions.take(n - 1).contains(p) {
            let j = choose|j: int| 0 <= j < n - 1 && #[trigger] positions.take(n - 1)[j] == p;
            assert(positions[j] == positions[n - 1]);
        }
    }
}

/// Every issue names a position of the list that is really at fault: one
/// outside the box, or one that an earlier position already took.
proof fn lemma_issue_witness(
    positions: Seq<PlanPosition>,
    min: PlanPosition,
    max: PlanPosition,
    n: nat,
)
    requires
        n <= positions.len(),
    ensures
        match first_position_issue(positions, min, max, n) {
            None => true,
            Some(PlanError::BlockOutsideRegion(p)) => exists|k: int|
                0 <= k < n && #[trigger] positions[k] == p && !inside_box(min, max, p),
            Some(PlanError::DuplicatePosition(p)) => exists|j: int, k: int|
                0 <= j < k < n && #[trigger] positions[j] == p && #[trigger] positions[k] == p,
            Some(_) => false,
        },
    decreases n,
{
    if n > 0 {
        lemma_issue_witness(positions, min, max, (n - 1) as nat);
        if first_position_issue(positions, min, max, (n - 1) as nat) is None {
            let p = positions[n - 1];
            if !spec_contains(min, max, p) {
                assert(positions[n - 1] == p);
            } else if positions.take(n - 1).contains(p) {
                let j = choose|j: int| 0 <= j < n - 1 && #[trigger] positions.take(n - 1)[j] == p;
                assert(positions[j] == p && positions[n - 1] == p);
            }
        }
    }
}

/// Validation accepts every plan with format version 1, the
/// `p01-physics-sandbox-v1` generator, ordered corners inside the world, at
/// most 20 000 blocks in its region, and at least one block, all inside the
/// region at pairwise distinct positions, in whatever order they come.
pub proof fn lemma_validate_complete(
    format_version: u32,
    generator_version: Seq<char>,
    clear_min: PlanPosition,
    clear_max: PlanPosition,
    blocks: Seq<MaterializationBlock>,
)
    requires
        format_version == 1,
        generator_version == GENERATOR_VERSION@,
        clear_min.x <= clear_max.x && clear_min.y <= clear_max.y && clear_min.z <= clear_max.z,
        -29_999_999 <= clear_min.x && clear_max.x <= 29_999_999,
        -29_999_999 <= clear_min.z && clear_max.z <= 29_999_999,
        -64 <= clear_min.y && clear_max.y <= 319,
        (clear_max.x - clear_min.x + 1) * (clear_max.y - clear_min.y + 1) * (clear_max.z
            - clear_min.z + 1) <= 20_000,
        blocks.len() > 0,
        forall|i: int| 0 <= i < blocks.len() ==> inside_box(clear_min, clear_max, #[trigger] blocks[i].position),
        forall|i: int, j: int|
            0 <= i < j < blocks.len() ==> #[trigger] blocks[i].position != #[trigger] blocks[j].position,
    ensures
        spec_validate(format_version, generator_version, clear_min, clear_max, blocks) == Ok::<
            (),
            PlanError,
        >(()),
{
    lemma_validate_bounds_law(clear_min, clear_max);
    lemma_valid_region_volume(clear_min, clear_max);
    let positions = block_positions(blocks);
    assert forall|k: int| 0 <= k < blocks.len() implies inside_box(clear_min, clear_max, #[trigger] positions[k]) by {
        assert(positions[k] == blocks[k].position);
    }
    assert forall|j: int, k: int| 0 <= j < k < blocks.len() implies #[trigger] positions[j] != #[trigger] positions[k] by {
        assert(positions[j] == blocks[j].position);
        assert(positions[k] == blocks[k].position);
    }
    lemma_distinct_inside_means_no_issue(positions, clear_min, clear_max, blocks.len());
}

/// A refusal is really the plan's fault: a block outside the clear region,
/// the position of two blocks of the plan, an empty plan, a region of more
/// than 20 000 blocks, or an unsupported version or generator.
pub proof fn lemma_validate_block_errors(
    format_version: u32,
    generator_version: Seq<char>,
    clear_min: PlanPosition,
    clear_max: PlanPosition,
    blocks: Seq<MaterializationBlock>,
)
    ensures
        ({
            let res = spec_validate(format_version, generator_version, clear_min, clear_max, blocks);
            &&& res matches Err(PlanError::BlockOutsideRegion(p)) ==> exists|k: int|
                0 <= k < blocks.len() && #[trigger] blocks[k].position == p && !inside_box(
                    clear_min,
                    clear_max,
                    p,
                )
            &&& res matches Err(PlanError::DuplicatePosition(p)) ==> exists|j: int, k: int|
                0 <= j < k < blocks.len() && #[trigger] blocks[j].position == p
                    && #[trigger] blocks[k].position == p
            &&& res == Err::<(), PlanError>(PlanError::NoBlocks) ==> blocks.len() == 0
            &&& res == Err::<(), PlanError>(PlanError::RegionTooLarge) ==> (clear_max.x
                - clear_min.x + 1) * (clear_max.y - clear_min.y + 1) * (clear_max.z - clear_min.z
                + 1) > 20_000
            &&& res matches Err(PlanError::UnsupportedVersion(v)) ==> v == format_version
                && format_version != 1
            &&& res == Err::<(), PlanError>(PlanError::UnsupportedGenerator) ==> generator_version
                != GENERATOR_VERSION@
        }),
{
    if spec_validate_bounds(clear_min, clear_max) is Ok {
        lemma_valid_region_volume(clear_min, clear_max);
    }
    let positions = block_positions(blocks);
    lemma_issue_witness(positions, clear_min, clear_max, blocks.len());
    let res = spec_validate(format_version, generator_version, clear_min, clear_max, blocks);
    if let Err(PlanError::BlockOutsideRegion(p)) = res {
        if first_position_issue(positions, clear_min, clear_max, blocks.len()) is Some {
            let k = choose|k: int| 0 <= k < blocks.len() && #[trigger] positions[k] == p && !inside_box(clear_min, clear_max, p);
            assert(blocks[k].position == p);
        }
    }
    if let Err(PlanError::DuplicatePosition(p)) = res {
        if first_position_issue(positions, clear_min, clear_max, blocks.len()) is Some {
            let (j, k) = choose|j: int, k: int| 0 <= j < k < blocks.len() && #[trigger] positions[j] == p && #[trigger] positions[k] == p;
            assert(blocks[j].position == p && blocks[k].position == p);
        }
    }
}

impl MaterializationRequest {
    /// Checks the plan before anything in the world changes: the format and
    /// generator versions, the clear region's bounds and size, and that every
    /// block lies in the region at a position no other block takes.
    pub fn validate(&self) -> (res: Result<(), PlanError>)
        ensures
            res == spec_validate(
                self.format_version,
                self.generator_version@,
                self.clear_min,
                self.clear_max,
                self.blocks@,
            ),
    {
        if self.format_version != FORMAT_VERSION {
            return Err(PlanError::UnsupportedVersion(self.format_version));
        }
        let expected = String::from_str(GENERATOR_VERSION);
        if !self.generator_version.eq(&expected) {
            return Err(PlanError::UnsupportedGenerator);
        }
        match validate_bounds(self.clear_min, self.clear_max) {
            Ok(()) => {},
            Err(e) => return Err(e),
        }
        let volume = match region_volume(self.clear_min, self.clear_max) {
            Ok(v) => v,
            Err(e) => return Err(e),
        };
        if volume > MAX_CLEAR_BLOCKS {
            return Err(PlanError::RegionTooLarge);
        }
        if self.blocks.len() == 0 {
            return Err(PlanError::NoBlocks);
        }
        let ghost positions = block_positions(self.blocks@);
        let mut seen = new_position_set();
        let mut i: usize = 0;
        while i < self.blocks.len()
            invariant
                0 <= i <= self.blocks@.len(),
                self.format_version == FORMAT_VERSION,
                self.generator_version@ == GENERATOR_VERSION@,
                spec_validate_bounds(self.clear_min, self.clear_max) is Ok,
                spec_region_volume(self.clear_min, self.clear_max) == Ok::<u64, PlanError>(volume),
                volume <= MAX_CLEAR_BLOCKS,
                self.blocks@.len() > 0,
                positions == block_positions(self.blocks@),
                first_position_issue(positions, self.clear_min, self.clear_max, i as nat) is None,
                forall|t: (i32, i32, i32)|
                    position_set_contents(seen).contains(t) <==> exists|k: int|
                        0 <= k < i && #[trigger] coordinates(positions[k]) == t,
            decreases self.blocks@.len() - i,
        {
            let position = self.blocks[i].position;
            assert(positions[i as int] == position);
            if !contains(self.clear_min, self.clear_max, position) {
                proof {
                    lemma_first_issue_persists(positions, self.clear_min, self.clear_max, (i + 1) as nat, self.blocks@.len());
                }
                return Err(PlanError::BlockOutsideRegion(position));
            }
            let ghost before = position_set_contents(seen);
            let fresh = insert_position(&mut seen, (position.x, position.y, position.z));
            proof {
                let prefix = positions.take(i as int);
                if prefix.contains(position) {
                    let k = choose|k: int| 0 <= k < prefix.len() && prefix[k] == position;
                    assert(coordinates(positions[k]) == coordinates(position));
                }
                if before.contains(coordinates(position)) {
                    let k = choose|k: int| 0 <= k < i && #[trigger] coordinates(positions[k]) == coordinates(position);
                    assert(prefix[k] == position);
                }
            }
            if !fresh {
                proof {
                    lemma_first_issue_persists(positions, self.clear_min, self.clear_max, (i + 1) as nat, self.blocks@.len());
                }
                return Err(PlanError::DuplicatePosition(position));
            }
            i = i + 1;
            proof {
                assert(positions.take(i - 1) =~= positions.take(i as int).take(i - 1));
                assert forall|t: (i32, i32, i32)|
                    position_set_contents(seen).contains(t) <==> exists|k: int|
                        0 <= k < i && #[trigger] coordinates(positions[k]) == t by {
                    if t == coordinates(position) {
                        assert(coordinates(positions[i - 1]) == t);
                    }
                }
            }
        }
        Ok(())
    }
}

} // verus!

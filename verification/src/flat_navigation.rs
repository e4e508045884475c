//! Reset plans for the flat-navigation qualification task: a clear region,
//! blocks given as block-state strings, and a start point for the player.

use vstd::prelude::*;

use crate::error::{PlanError, StartIssue};
use crate::fxset::{insert_position, new_position_set, position_set_contents};
use crate::region::{
    contains, coordinates, lemma_valid_region_volume, lemma_validate_bounds_law, region_volume, spec_contains, spec_inside_world,
    spec_ordered, spec_region_volume, spec_validate_bounds, spec_volume, validate_bounds,
    PlanPosition, MAX_CLEAR_BLOCKS,
};

verus! {

/// The only reset-plan format version this command reads.
pub const FORMAT_VERSION: u32 = 1;

/// One block of a reset plan, with its state written as `name[key=value,...]`.
#[derive(Clone, Debug)]
pub struct MaterializationBlock {
    pub position: PlanPosition,
    pub state: String,
}

/// A reset plan as the application writes it, without its start point,
/// whose floating-point checks stay with the command that reads the file.
#[derive(Clone, Debug)]
pub struct MaterializationRequest {
    pub format_version: u32,
    pub task_id: String,
    pub clear_min: PlanPosition,
    pub clear_max: PlanPosition,
    pub blocks: Vec<MaterializationBlock>,
}

/// The positions of the blocks, in plan order.
pub open spec fn block_positions(blocks: Seq<MaterializationBlock>) -> Seq<PlanPosition> {
    blocks.map_values(|b: MaterializationBlock| b.position)
}

/// The first problem among the first `n` blocks, each checked in turn: its
/// position must lie in the region, must not repeat an earlier position,
/// and its state must have resolved.
pub open spec fn first_block_issue(
    positions: Seq<PlanPosition>,
    states: Seq<Result<u16, PlanError>>,
    min: PlanPosition,
    max: PlanPosition,
    n: nat,
) -> Option<PlanError>
    decreases n,
{
    if n == 0 {
        None
    } else {
        match first_block_issue(positions, states, min, max, (n - 1) as nat) {
            Some(e) => Some(e),
            None => {
                let p = positions[n - 1];
                if !spec_contains(min, max, p) {
                    Some(PlanError::BlockOutsideRegion(p))
                } else if positions.take(n - 1).contains(p) {
                    Some(PlanError::DuplicatePosition(p))
                } else if states[n - 1] is Err {
                    Some(states[n - 1]->Err_0)
                } else {
                    None
                }
            },
        }
    }
}

/// Once a problem is found among the first `n` blocks, it stays the first
/// problem among any longer prefix.
proof fn lemma_first_issue_persists(
    positions: Seq<PlanPosition>,
    states: Seq<Result<u16, PlanError>>,
    min: PlanPosition,
    max: PlanPosition,
    n: nat,
    m: nat,
)
    requires
        n <= m,
        first_block_issue(positions, states, min, max, n) is Some,
    ensures
        first_block_issue(positions, states, min, max, m) == first_block_issue(
            positions,
            states,
            min,
            max,
            n,
        ),
    decreases m - n,
{
    if n < m {
        lemma_first_issue_persists(positions, states, min, max, n, (m - 1) as nat);
    }
}

/// Among the first `n` blocks of an issue-free prefix, every position lies
/// in the region, none repeats an earlier one, and every state resolved.
proof fn lemma_no_issue_means_sound(
    positions: Seq<PlanPosition>,
    states: Seq<Result<u16, PlanError>>,
    min: PlanPosition,
    max: PlanPosition,
    n: nat,
)
    requires
        n <= positions.len(),
        n <= states.len(),
        first_block_issue(positions, states, min, max, n) is None,
    ensures
        forall|k: int| 0 <= k < n ==> spec_contains(min, max, #[trigger] positions[k]),
        forall|k: int| 0 <= k < n ==> #[trigger] states[k] is Ok,
        forall|j: int, k: int| 0 <= j < k < n ==> #[trigger] positions[j] != #[trigger] positions[k],
    decreases n,
{
    if n > 0 {
        lemma_no_issue_means_sound(positions, states, min, max, (n - 1) as nat);
        assert forall|j: int, k: int| 0 <= j < k < n implies #[trigger] positions[j]
            != #[trigger] positions[k] by {
            if k == n - 1 {
                assert(positions.take(n - 1)[j] == positions[j]);
            }
        }
    }
}

/// The blocks paired with their resolved states.
pub open spec fn resolved_blocks(
    positions: Seq<PlanPosition>,
    states: Seq<Result<u16, PlanError>>,
) -> Seq<(PlanPosition, u16)> {
    Seq::new(positions.len(), |k: int| (positions[k], states[k]->Ok_0))
}

/// What validation answers for a reset plan: the first failing check in the
/// order version, task id, bounds, volume limit, start point, emptiness,
/// blocks; otherwise every block with its resolved state.
pub open spec fn spec_validate_and_resolve(
    format_version: u32,
    task_id: Seq<char>,
    clear_min: PlanPosition,
    clear_max: PlanPosition,
    start: Option<StartIssue>,
    positions: Seq<PlanPosition>,
    states: Seq<Result<u16, PlanError>>,
) -> Result<Seq<(PlanPosition, u16)>, PlanError> {
    if format_version != FORMAT_VERSION {
        Err(PlanError::UnsupportedVersion(format_version))
    } else if task_id.len() == 0 {
        Err(PlanError::EmptyTaskId)
    } else if spec_validate_bounds(clear_min, clear_max) is Err {
        Err(spec_validate_bounds(clear_min, clear_max)->Err_0)
    } else if spec_region_volume(clear_min, clear_max) is Err {
        Err(spec_region_volume(clear_min, clear_max)->Err_0)
    } else if spec_region_volume(clear_min, clear_max)->Ok_0 > MAX_CLEAR_BLOCKS {
        Err(PlanError::RegionTooLarge)
    } else if start is Some {
        Err(PlanError::InvalidStart(start->0))
    } else if positions.len() == 0 {
        Err(PlanError::NoBlocks)
    } else {
        match first_block_issue(positions, states, clear_min, clear_max, positions.len()) {
            Some(e) => Err(e),
            None => Ok(resolved_blocks(positions, states)),
        }
    }
}

/// `p` lies in the box `min..=max`, written out coordinate by coordinate.
pub open spec fn inside_box(min: PlanPosition, max: PlanPosition, p: PlanPosition) -> bool {
    min.x <= p.x && p.x <= max.x && min.y <= p.y && p.y <= max.y && min.z <= p.z && p.z <= max.z
}

/// Blocks that all lie in the box at pairwise distinct positions and whose
/// states all resolved raise no issue, whatever their order.
proof fn lemma_sound_blocks_raise_no_issue(
    positions: Seq<PlanPosition>,
    states: Seq<Result<u16, PlanError>>,
    min: PlanPosition,
    max: PlanPosition,
    n: nat,
)
    requires
        n <= positions.len(),
        n <= states.len(),
        forall|k: int| 0 <= k < n ==> inside_box(min, max, #[trigger] positions[k]),
        forall|k: int| 0 <= k < n ==> #[trigger] states[k] is Ok,
        forall|j: int, k: int| 0 <= j < k < n ==> #[trigger] positions[j] != #[trigger] positions[k],
    ensures
        first_block_issue(positions, states, min, max, n) is None,
    decreases n,
{
    if n > 0 {
        lemma_sound_blocks_raise_no_issue(positions, states, min, max, (n - 1) as nat);
        let p = positions[n - 1];
        assert(inside_box(min, max, p));
        assert(states[n - 1] is Ok);
        if positions.take(n - 1).contains(p) {
            let j = choose|j: int| 0 <= j < n - 1 && #[trigger] positions.take(n - 1)[j] == p;
            assert(positions[j] == positions[n - 1]);
        }
    }
}

/// Every issue among the blocks is really the fault of one of them: a block
/// outside the box, a position an earlier block took, or the error a
/// block's state resolved to.
proof fn lemma_block_issue_witness(
    positions: Seq<PlanPosition>,
    states: Seq<Result<u16, PlanError>>,
    min: PlanPosition,
    max: PlanPosition,
    n: nat,
)
    requires
        n <= positions.len(),
        n <= states.len(),
    ensures
        first_block_issue(positions, states, min, max, n) matches Some(e) ==> {
            ||| e matches PlanError::BlockOutsideRegion(p) && exists|k: int|
                0 <= k < n && #[trigger] positions[k] == p && !inside_box(min, max, p)
            ||| e matches PlanError::DuplicatePosition(p) && exists|j: int, k: int|
                0 <= j < k < n && #[trigger] positions[j] == p && #[trigger] positions[k] == p
            ||| exists|k: int| 0 <= k < n && #[trigger] states[k] == Err::<u16, PlanError>(e)
        },
    decreases n,
{
    if n > 0 {
        lemma_block_issue_witness(positions, states, min, max, (n - 1) as nat);
        if first_block_issue(positions, states, min, max, (n - 1) as nat) is None {
            let p = positions[n - 1];
            if !spec_contains(min, max, p) {
                assert(positions[n - 1] == p);
            } else if positions.take(n - 1).contains(p) {
                let j = choose|j: int| 0 <= j < n - 1 && #[trigger] positions.take(n - 1)[j] == p;
                assert(positions[j] == p && positions[n - 1] == p);
            } else if states[n - 1] is Err {
                assert(states[n - 1] == Err::<u16, PlanError>(states[n - 1]->Err_0));
            }
        }
    }
}

/// Validation accepts every reset plan with format version 1, a non-empty
/// task id, ordered corners inside the world, at most 20 000 blocks in its
/// region, no start issue, and at least one block, all inside the region at
/// pairwise distinct positions with resolved states, in whatever order; it
/// answers each block's position with its state, in plan order.
pub proof fn lemma_validate_and_resolve_complete(
    format_version: u32,
    task_id: Seq<char>,
    clear_min: PlanPosition,
    clear_max: PlanPosition,
    positions: Seq<PlanPosition>,
    states: Seq<Result<u16, PlanError>>,
)
    requires
        format_version == 1,
        task_id.len() > 0,
        clear_min.x <= clear_max.x && clear_min.y <= clear_max.y && clear_min.z <= clear_max.z,
        -29_999_999 <= clear_min.x && clear_max.x <= 29_999_999,
        -29_999_999 <= clear_min.z && clear_max.z <= 29_999_999,
        -64 <= clear_min.y && clear_max.y <= 319,
        (clear_max.x - clear_min.x + 1) * (clear_max.y - clear_min.y + 1) * (clear_max.z
            - clear_min.z + 1) <= 20_000,
        positions.len() > 0,
        states.len() == positions.len(),
        forall|i: int| 0 <= i < positions.len() ==> inside_box(clear_min, clear_max, #[trigger] positions[i]),
        forall|i: int| 0 <= i < states.len() ==> #[trigger] states[i] is Ok,
        forall|i: int, j: int|
            0 <= i < j < positions.len() ==> #[trigger] positions[i] != #[trigger] positions[j],
    ensures
        ({
            let res = spec_validate_and_resolve(
                format_version,
                task_id,
                clear_min,
                clear_max,
                None,
                positions,
                states,
            );
            &&& res is Ok
            &&& res->Ok_0.len() == positions.len()
            &&& forall|i: int|
                0 <= i < positions.len() ==> #[trigger] res->Ok_0[i] == (positions[i], states[i]->Ok_0)
        }),
{
    lemma_validate_bounds_law(clear_min, clear_max);
    lemma_valid_region_volume(clear_min, clear_max);
    lemma_sound_blocks_raise_no_issue(positions, states, clear_min, clear_max, positions.len());
}

/// Once the plan-wide checks pass, a refusal is really the fault of a
/// block: one outside the clear region, a position two blocks share, or the
/// error one block's state resolved to.
pub proof fn lemma_validate_and_resolve_block_errors(
    format_version: u32,
    task_id: Seq<char>,
    clear_min: PlanPosition,
    clear_max: PlanPosition,
    positions: Seq<PlanPosition>,
    states: Seq<Result<u16, PlanError>>,
)
    requires
        states.len() == positions.len(),
    ensures
        spec_validate_and_resolve(
            format_version,
            task_id,
            clear_min,
            clear_max,
            None,
            positions,
            states,
        ) matches Err(e) ==> {
            ||| e == PlanError::UnsupportedVersion(format_version) && format_version != 1
            ||| e == PlanError::EmptyTaskId && task_id.len() == 0
            ||| e == PlanError::InvertedBounds || e == PlanError::RegionOutsideWorld
            ||| e == PlanError::SpanOverflow || e == PlanError::VolumeOverflow
            ||| e == PlanError::RegionTooLarge && (clear_max.x - clear_min.x + 1) * (clear_max.y
                - clear_min.y + 1) * (clear_max.z - clear_min.z + 1) > 20_000
            ||| e == PlanError::NoBlocks && positions.len() == 0
            ||| e matches PlanError::BlockOutsideRegion(p) && exists|k: int|
                0 <= k < positions.len() && #[trigger] positions[k] == p && !inside_box(
                    clear_min,
                    clear_max,
                    p,
                )
            ||| e matches PlanError::DuplicatePosition(p) && exists|j: int, k: int|
                0 <= j < k < positions.len() && #[trigger] positions[j] == p
                    && #[trigger] positions[k] == p
            ||| exists|k: int| 0 <= k < states.len() && #[trigger] states[k] == Err::<u16, PlanError>(e)
        },
{
    lemma_block_issue_witness(positions, states, clear_min, clear_max, positions.len());
    if spec_validate_bounds(clear_min, clear_max) is Ok {
        lemma_valid_region_volume(clear_min, clear_max);
    }
}

/// A reset plan that validation accepts has the supported version, a task
/// id, a clear region inside the world that holds at most
/// `MAX_CLEAR_BLOCKS` blocks, an acceptable start point and at least one
/// block; every block lies inside the clear region at a position no other
/// block takes, and comes back paired with the state it resolved to.
pub proof fn lemma_accepted_reset_plan(
    format_version: u32,
    task_id: Seq<char>,
    clear_min: PlanPosition,
    clear_max: PlanPosition,
    start: Option<StartIssue>,
    positions: Seq<PlanPosition>,
    states: Seq<Result<u16, PlanError>>,
)
    requires
        states.len() == positions.len(),
        spec_validate_and_resolve(
            format_version,
            task_id,
            clear_min,
            clear_max,
            start,
            positions,
            states,
        ) is Ok,
    ensures
        format_version == 1,
        task_id.len() > 0,
        start is None,
        clear_min.x <= clear_max.x && clear_min.y <= clear_max.y && clear_min.z <= clear_max.z,
        -29_999_999 <= clear_min.x && clear_max.x <= 29_999_999,
        -29_999_999 <= clear_min.z && clear_max.z <= 29_999_999,
        -64 <= clear_min.y && clear_max.y <= 319,
        (clear_max.x - clear_min.x + 1) * (clear_max.y - clear_min.y + 1) * (clear_max.z
            - clear_min.z + 1) <= 20_000,
        positions.len() > 0,
        ({
            let resolved = spec_validate_and_resolve(
                format_version,
                task_id,
                clear_min,
                clear_max,
                start,
                positions,
                states,
            )->Ok_0;
            &&& resolved.len() == positions.len()
            &&& forall|i: int|
                0 <= i < resolved.len() ==> #[trigger] resolved[i] == (
                    positions[i],
                    states[i]->Ok_0,
                ) && states[i] is Ok && inside_box(clear_min, clear_max, positions[i])
            &&& forall|i: int, j: int|
                0 <= i < j < resolved.len() ==> #[trigger] resolved[i].0 != #[trigger] resolved[j].0
        }),
{
    lemma_valid_region_volume(clear_min, clear_max);
    lemma_no_issue_means_sound(positions, states, clear_min, clear_max, positions.len());
    let resolved = resolved_blocks(positions, states);
    assert forall|i: int, j: int| 0 <= i < j < resolved.len() implies #[trigger] resolved[i].0
        != #[trigger] resolved[j].0 by {
        assert(positions[i] != positions[j]);
    }
}

impl MaterializationRequest {
    /// Checks the plan before anything in the world changes and pairs every
    /// block with its resolved state.
    ///
    /// `start` is what the start-point check found wrong, if anything, and
    /// `states[i]` is the resolution of `blocks[i].state`.
    pub fn validate_and_resolve(
        &self,
        start: Option<StartIssue>,
        states: Vec<Result<u16, PlanError>>,
    ) -> (res: Result<Vec<(PlanPosition, u16)>, PlanError>)
        requires
            states@.len() == self.blocks@.len(),
        ensures
            match spec_validate_and_resolve(
                self.format_version,
                self.task_id@,
                self.clear_min,
                self.clear_max,
                start,
                block_positions(self.blocks@),
                states@,
            ) {
                Ok(resolved) => res matches Ok(v) && v@ == resolved,
                Err(e) => res == Err::<Vec<(PlanPosition, u16)>, PlanError>(e),
            },
    {
        if self.format_version != FORMAT_VERSION {
            return Err(PlanError::UnsupportedVersion(self.format_version));
        }
        if self.task_id.as_str().is_empty() {
            return Err(PlanError::EmptyTaskId);
        }
        match validate_bounds(self.clear_min, self.clear_max) {
            Ok(()) => {},
            Err(e) => return Err(e),
        }
        let volume = match region_volume(self.clear_min, self.clear_max) {
            Ok(v) => v,
            Err(e) => return Err(e),
        };
        if volume > MAX_CLEAR_BLOCKS {
            return Err(PlanError::RegionTooLarge);
        }
        match start {
            Some(issue) => return Err(PlanError::InvalidStart(issue)),
            None => {},
        }
        if self.blocks.len() == 0 {
            return Err(PlanError::NoBlocks);
        }
        let ghost positions = block_positions(self.blocks@);
        let ghost given = states@;
        let mut resolved: Vec<(PlanPosition, u16)> = Vec::new();
        let mut seen = new_position_set();
        let mut i: usize = 0;
        for entry in it: states.into_iter()
            invariant
                i == it.index(),
                it.seq() == given,
                given == states@,
                given.len() == self.blocks@.len(),
                self.blocks@.len() == self.blocks.len(),
                self.format_version == FORMAT_VERSION,
                self.task_id@.len() != 0,
                spec_validate_bounds(self.clear_min, self.clear_max) is Ok,
                spec_region_volume(self.clear_min, self.clear_max) == Ok::<u64, PlanError>(volume),
                volume <= MAX_CLEAR_BLOCKS,
                start is None,
                self.blocks@.len() > 0,
                positions == block_positions(self.blocks@),
                first_block_issue(positions, given, self.clear_min, self.clear_max, i as nat) is None,
                resolved@ == resolved_blocks(positions, given).take(i as int),
                forall|t: (i32, i32, i32)|
                    position_set_contents(seen).contains(t) <==> exists|k: int|
                        0 <= k < i && #[trigger] coordinates(positions[k]) == t,
        {
            assert(entry == given[i as int]);
            let position = self.blocks[i].position;
            assert(positions[i as int] == position);
            if !contains(self.clear_min, self.clear_max, position) {
                proof {
                    lemma_first_issue_persists(positions, given, self.clear_min, self.clear_max, (i + 1) as nat, given.len());
                }
                return Err(PlanError::BlockOutsideRegion(position));
            }
            let ghost before = position_set_contents(seen);
            let fresh = insert_position(&mut seen, (position.x, position.y, position.z));
            proof {
                let prefix = positions.take(i as int);
                if prefix.contains(position) {
                    let k = choose|k: int| 0 <= k < prefix.len() && prefix[k] == position;
                    assert(coordinates(positions[k]) == coordinates(position));
                }
                if before.contains(coordinates(position)) {
                    let k = choose|k: int| 0 <= k < i && #[trigger] coordinates(positions[k]) == coordinates(position);
                    assert(prefix[k] == position);
                }
            }
            if !fresh {
                proof {
                    lemma_first_issue_persists(positions, given, self.clear_min, self.clear_max, (i + 1) as nat, given.len());
                }
                return Err(PlanError::DuplicatePosition(position));
            }
            let state = match entry {
                Ok(id) => id,
                Err(e) => {
                    proof {
                        lemma_first_issue_persists(positions, given, self.clear_min, self.clear_max, (i + 1) as nat, given.len());
                    }
                    return Err(e);
                },
            };
            resolved.push((position, state));
            i = i + 1;
            proof {
                assert(positions.take(i - 1) =~= positions.take(i as int).take(i - 1));
                assert(resolved@ =~= resolved_blocks(positions, given).take(i as int));
                assert forall|t: (i32, i32, i32)|
                    position_set_contents(seen).contains(t) <==> exists|k: int|
                        0 <= k < i && #[trigger] coordinates(positions[k]) == t by {
                    if t == coordinates(position) {
                        assert(coordinates(positions[i - 1]) == t);
                    }
                }
            }
        }
        assert(resolved@ =~= resolved_blocks(positions, given));
        Ok(resolved)
    }
}

} // verus!

use steel::materialize::{MaterializeAction, Materialization};
use steel::region::PlanPosition;

fn p(x: i32, y: i32, z: i32) -> PlanPosition {
    PlanPosition { x, y, z }
}

fn run_all(
    min: PlanPosition,
    max: PlanPosition,
    blocks: Vec<(PlanPosition, u16)>,
    not_air: impl Fn(PlanPosition) -> bool,
) -> Vec<MaterializeAction<u16>> {
    let mut run = Materialization::new(min, max, blocks);
    let mut actions = Vec::new();
    loop {
        let action = run.next_action();
        actions.push(action);
        match action {
            MaterializeAction::Clear(position) => run.record(not_air(position)),
            MaterializeAction::Place(..) => run.record(false),
            MaterializeAction::Finish { .. } => return actions,
        }
    }
}

#[test]
fn clears_the_whole_region_before_placing_in_plan_order() {
    let actions = run_all(
        p(0, 0, 0),
        p(1, 0, 0),
        vec![(p(1, 0, 0), 7), (p(0, 0, 0), 9)],
        |q| q.x == 1,
    );
    assert_eq!(
        actions,
        vec![
            MaterializeAction::Clear(p(0, 0, 0)),
            MaterializeAction::Clear(p(1, 0, 0)),
            MaterializeAction::Place(p(1, 0, 0), 7),
            MaterializeAction::Place(p(0, 0, 0), 9),
            MaterializeAction::Finish { cleared: 1, placed: 2 },
        ]
    );
}

#[test]
fn run_without_blocks_only_clears() {
    let actions = run_all(p(3, 3, 3), p(3, 4, 3), Vec::new(), |_| true);
    assert_eq!(
        actions,
        vec![
            MaterializeAction::Clear(p(3, 3, 3)),
            MaterializeAction::Clear(p(3, 4, 3)),
            MaterializeAction::Finish { cleared: 2, placed: 0 },
        ]
    );
}

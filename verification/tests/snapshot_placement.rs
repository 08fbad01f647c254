use fuzzamoto::ir::{Instruction, Operation, Program};
use fuzzamoto::snapshot::{
    find_valid_snapshot_position, IncrementalSnapshotStage, SnapshotAction, SnapshotPlacementPolicy,
};

fn op(begin: bool, end: bool) -> Instruction {
    Instruction {
        inputs: vec![],
        operation: Operation {
            output_types: vec![],
            input_mutable: false,
            block_begin: begin,
            block_end: end,
        },
    }
}

fn program(flags: &[(bool, bool)]) -> Program {
    Program { instructions: flags.iter().map(|&(b, e)| op(b, e)).collect() }
}

#[test]
fn snapshot_outside_blocks() {
    // plain, begin, plain, end, plain: valid positions 0, 1, 4, 5.
    let p = program(&[(false, false), (true, false), (false, false), (false, true), (false, false)]);
    assert_eq!(find_valid_snapshot_position(&p, 0), Some(0));
    assert_eq!(find_valid_snapshot_position(&p, 2), Some(1));
    assert_eq!(find_valid_snapshot_position(&p, 3), Some(4));
    assert_eq!(find_valid_snapshot_position(&p, 5), Some(5));
    assert_eq!(find_valid_snapshot_position(&p, 100), Some(5));
}

#[test]
fn snapshot_ties_go_to_the_earlier_position() {
    let p = program(&[(true, false), (false, true)]);
    assert_eq!(find_valid_snapshot_position(&p, 1), Some(0));
    let p = program(&[(true, false), (true, false), (false, true), (false, true)]);
    assert_eq!(find_valid_snapshot_position(&p, 2), Some(0));
    assert_eq!(find_valid_snapshot_position(&p, 3), Some(4));
}

#[test]
fn snapshot_edge_cases() {
    assert_eq!(find_valid_snapshot_position(&program(&[]), 0), None);
    // A stray block end never makes the depth negative.
    let p = program(&[(false, true), (false, false)]);
    assert_eq!(find_valid_snapshot_position(&p, 1), Some(1));
    // An unclosed block leaves only the positions before it.
    let p = program(&[(false, false), (true, false), (false, false)]);
    assert_eq!(find_valid_snapshot_position(&p, 3), Some(1));
}

#[test]
fn balanced_placement_windows() {
    let stage = IncrementalSnapshotStage::new((), SnapshotPlacementPolicy::Balanced, 5);
    assert_eq!(stage.policy(), SnapshotPlacementPolicy::Balanced);
    assert_eq!(stage.max_reuse_count(), 5);
    assert_eq!(stage.choose_position(0, true, 0), None);
    assert_eq!(stage.choose_position(1, false, 0), Some(0));
    assert_eq!(stage.window_width(10, true), 5);
    assert_eq!(stage.window_width(10, false), 5);
    assert_eq!(stage.window_width(3, true), 1);
    assert_eq!(stage.window_width(3, false), 2);
    assert_eq!(stage.choose_position(10, true, 3), Some(3));
    assert_eq!(stage.choose_position(10, false, 2), Some(7));
    assert_eq!(stage.choose_position(3, false, 1), Some(2));
    assert!(!stage.is_last_reuse(4));
    assert!(stage.is_last_reuse(5));
}

#[test]
fn snapshot_rounds_end_with_one_discard() {
    let stage = IncrementalSnapshotStage::new((), SnapshotPlacementPolicy::Balanced, 3);
    let actions: Vec<SnapshotAction> = (0..5).map(|c| stage.next_snapshot_action(c)).collect();
    assert_eq!(
        actions,
        vec![
            SnapshotAction::RunInnerRound,
            SnapshotAction::RunInnerRound,
            SnapshotAction::DiscardAndRunTarget,
            SnapshotAction::Done,
            SnapshotAction::Done,
        ]
    );
    let none = IncrementalSnapshotStage::new((), SnapshotPlacementPolicy::Balanced, 0);
    assert_eq!(none.next_snapshot_action(0), SnapshotAction::Done);
}

use cmux::polling::{workspace_position, RoundRobin};

/// Each tick looks at the next workspace, wrapping around the open ones.
#[test]
fn observers_take_workspaces_in_turn() {
    let mut turn = RoundRobin::new();
    assert_eq!(turn.pick(0), None);
    assert_eq!(turn.pick(3), Some(0));
    assert_eq!(turn.pick(3), Some(1));
    assert_eq!(turn.pick(3), Some(2));
    assert_eq!(turn.pick(3), Some(0));
    assert_eq!(turn.pick(2), Some(0));
    assert_eq!(turn.pick(0), None);
    assert_eq!(turn.pick(2), Some(1));
}

/// A workspace observed earlier is found again by identity, or not once it closed.
#[test]
fn observed_workspaces_are_found_by_identity() {
    let ids = [0xa, 0xb, 0xc];
    assert_eq!(workspace_position(&ids, 0xb), Some(1));
    assert_eq!(workspace_position(&ids, 0xd), None);
    assert_eq!(workspace_position(&[], 0xa), None);
}

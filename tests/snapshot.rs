use substrate_timetravel::snapshot::{
    build_snapshot, compute_and_store_unbounded_snapshot, snapshot_data_or_force, ElectionData,
    ElectionState, SnapshotError,
};
use substrate_timetravel::types::{Snapshot, SnapshotMetadata};

fn data(max_voters: Option<u32>, max_targets: u32, desired: u32) -> ElectionData {
    ElectionData {
        voters: vec![(1, 10, vec![7]), (2, 20, vec![8]), (3, 30, vec![7, 8])],
        targets: vec![7, 8],
        desired_targets: desired,
        max_electing_voters: max_voters,
        max_electable_targets: max_targets,
    }
}

fn empty_state() -> ElectionState {
    ElectionState { snapshot: None, metadata: None, desired_targets: None }
}

#[test]
fn bounded_snapshot_takes_the_first_voters() {
    let (s, desired) = build_snapshot(&data(Some(2), 10, 1), false).unwrap();
    assert_eq!(s.voters, vec![(1, 10, vec![7]), (2, 20, vec![8])]);
    assert_eq!(s.targets, vec![7, 8]);
    assert_eq!(desired, 1);
}

#[test]
fn unbounded_snapshot_takes_every_voter() {
    let d = data(Some(2), 10, 1);
    let (bounded, _) = build_snapshot(&d, false).unwrap();
    let (unbounded, _) = build_snapshot(&d, true).unwrap();
    assert_eq!(unbounded.voters.len(), 3);
    assert!(unbounded.voters.len() >= bounded.voters.len());
}

#[test]
fn desired_targets_are_capped() {
    let (_, desired) = build_snapshot(&data(None, 10, 5), true).unwrap();
    assert_eq!(desired, 2);
}

#[test]
fn too_many_targets_is_unavailable() {
    assert_eq!(build_snapshot(&data(None, 1, 1), false).unwrap_err(), SnapshotError::ElectionDataUnavailable);
}

#[test]
fn existing_snapshot_is_reused() {
    let stored = Snapshot { voters: vec![(9, 1, vec![7])], targets: vec![7] };
    let mut state = ElectionState {
        snapshot: Some(stored),
        metadata: Some(SnapshotMetadata { voters: 1, targets: 1 }),
        desired_targets: Some(1),
    };
    let (meta, size) = snapshot_data_or_force(&mut state, &data(None, 10, 2)).unwrap();
    assert_eq!(meta, SnapshotMetadata { voters: 1, targets: 1 });
    // One voter: 1 + 4 + 8 + 1 + 4 bytes; one target: 1 + 4 bytes.
    assert_eq!(size, 23);
    assert_eq!(state.snapshot.unwrap().voters, vec![(9, 1, vec![7])]);
}

#[test]
fn missing_snapshot_is_created_and_read_back() {
    let mut state = empty_state();
    let (meta, size) = snapshot_data_or_force(&mut state, &data(Some(1), 10, 2)).unwrap();
    assert_eq!(meta, SnapshotMetadata { voters: 1, targets: 2 });
    // One voter: 1 + 4 + 8 + 1 + 4 bytes; two targets: 1 + 8 bytes.
    assert_eq!(size, 27);
    assert_eq!(state.metadata, Some(meta));
    assert_eq!(state.desired_targets, Some(2));
}

#[test]
fn unbounded_snapshot_replaces_the_stored_one() {
    let mut state = empty_state();
    snapshot_data_or_force(&mut state, &data(Some(1), 10, 9)).unwrap();
    let (meta, size) = compute_and_store_unbounded_snapshot(&mut state, &data(Some(1), 10, 9)).unwrap();
    assert_eq!(meta, SnapshotMetadata { voters: 3, targets: 2 });
    // Voters: 1 + (17 + 17 + 21) bytes; targets: 1 + 8 bytes.
    assert_eq!(size, 65);
    assert_eq!(state.snapshot.unwrap().voters.len(), 3);
    assert_eq!(state.desired_targets, Some(2));
}

#[test]
fn stored_snapshot_is_reused_with_its_metadata() {
    let stored = Snapshot { voters: vec![(9, 1, vec![7])], targets: vec![7] };
    let stale = SnapshotMetadata { voters: 5, targets: 5 };
    let mut state = ElectionState { snapshot: Some(stored.clone()), metadata: Some(stale), desired_targets: None };
    let (meta, _) = snapshot_data_or_force(&mut state, &data(None, 10, 2)).unwrap();
    assert_eq!(meta, stale);
    assert_eq!(state.desired_targets, None);

    let mut state = ElectionState { snapshot: Some(stored), metadata: None, desired_targets: Some(1) };
    let (meta, _) = snapshot_data_or_force(&mut state, &data(None, 10, 2)).unwrap();
    assert_eq!(meta, SnapshotMetadata { voters: 1, targets: 1 });
    assert_eq!(state.metadata, Some(meta));
}

#[test]
fn failed_unbounded_snapshot_leaves_nothing_stored() {
    let mut state = empty_state();
    snapshot_data_or_force(&mut state, &data(None, 10, 1)).unwrap();
    let r = compute_and_store_unbounded_snapshot(&mut state, &data(None, 1, 1));
    assert_eq!(r.unwrap_err(), SnapshotError::ElectionDataUnavailable);
    assert!(state.snapshot.is_none());
    assert!(state.metadata.is_none());
    assert_eq!(state.desired_targets, Some(1));
}

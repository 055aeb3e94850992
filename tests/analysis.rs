use substrate_timetravel::analysis::{election_analysis, nomination_count, AnalysisError};
use substrate_timetravel::report::{ElectionEntry, MinActiveStakeEntry};
use substrate_timetravel::snapshot::{ElectionData, ElectionState, SnapshotError};
use substrate_timetravel::types::{ElectionScore, SnapshotMetadata};

fn data() -> ElectionData {
    ElectionData {
        voters: vec![(1, 100, vec![7]), (2, 0, vec![8]), (3, 50, vec![8])],
        targets: vec![7, 8],
        desired_targets: 2,
        max_electing_voters: Some(1),
        max_electable_targets: 10,
    }
}

fn fresh_state() -> ElectionState {
    ElectionState { snapshot: None, metadata: None, desired_targets: None }
}

#[test]
fn analysis_scores_bounded_and_unbounded_snapshots() {
    let mut state = fresh_state();
    let a = election_analysis(&mut state, &data()).unwrap();
    assert_eq!(a.min_active_stake, Some(100));
    assert_eq!(a.metadata, SnapshotMetadata { voters: 1, targets: 2 });
    assert_eq!(a.metadata_unbounded, SnapshotMetadata { voters: 3, targets: 2 });
    assert_eq!(a.snapshot_size, 27);
    assert_eq!(a.snapshot_size_unbounded, 61);
    assert!(a.metadata_unbounded.voters >= a.metadata.voters);
    // Bounded: only voter 1, backing target 7 alone.
    assert_eq!(a.dpos, ElectionScore { minimal_stake: 100, sum_stake: 100, sum_stake_squared: 10000 });
    // Unbounded: the ranking is [8, 7]; voters 1 and 3 split their stake evenly.
    assert_eq!(a.dpos_unbounded, ElectionScore { minimal_stake: 75, sum_stake: 150, sum_stake_squared: 11250 });
    assert_eq!(a.phragmen.score.sum_stake, 100);
    assert_eq!(a.phragmen_unbounded.score.sum_stake, 150);
    assert_eq!(a.phragmen_unbounded.score.minimal_stake, 50);
}

#[test]
fn analysis_fails_without_data() {
    let mut d = data();
    d.max_electable_targets = 1;
    let r = election_analysis(&mut fresh_state(), &d);
    assert_eq!(r.unwrap_err(), AnalysisError::Snapshot(SnapshotError::ElectionDataUnavailable));
}

#[test]
fn nominations_are_counted() {
    assert_eq!(nomination_count(&data().voters), Some(3));
    assert_eq!(nomination_count(&vec![]), Some(0));
}

#[test]
fn election_row_lays_out_the_run() {
    let mut state = fresh_state();
    let a = election_analysis(&mut state, &data()).unwrap();
    let row = ElectionEntry::new(
        42,
        None,
        (&a.phragmen, &a.phragmen_unbounded),
        a.dpos,
        a.dpos_unbounded,
        a.metadata,
        17,
        a.metadata_unbounded,
        33,
        a.min_active_stake,
    );
    assert_eq!(row.block_number, 42);
    assert_eq!(row.active_era, 0);
    assert_eq!(row.dpos_unbound_min_stake, 75);
    assert_eq!(row.voters_unbound, 3);
    assert_eq!(row.snapshot_size, 17);
    assert_eq!(row.snapshot_size_unbound, 33);
    assert_eq!(row.min_active_stake, Some(100));
}

#[test]
fn min_active_stake_row_keeps_no_stake_apart() {
    assert_eq!(MinActiveStakeEntry::new(5, None).min_active_stake, None);
    assert_eq!(MinActiveStakeEntry::new(5, Some(0)).min_active_stake, Some(0));
    assert_eq!(MinActiveStakeEntry::new(5, Some(9)).min_active_stake, Some(9));
}

#[test]
fn stored_snapshot_without_desired_targets_fails() {
    let mut state = ElectionState {
        snapshot: Some(substrate_timetravel::types::Snapshot { voters: vec![], targets: vec![7] }),
        metadata: None,
        desired_targets: None,
    };
    let r = election_analysis(&mut state, &data());
    assert_eq!(r.unwrap_err(), AnalysisError::DesiredTargetsUnavailable);
}

use substrate_timetravel::ledger::{
    bonded_checks, deprecate_controller_simulation, ledger_checks, staking_ledger_checks,
    LedgerCheckError, LedgerCounts, StakingLedgers,
};

/// Stashes 1..=n bonded to controllers 101..=100+n, each holding its stash's ledger.
fn consistent(block_number: u32, n: u32) -> StakingLedgers {
    StakingLedgers {
        block_number,
        bonded: (1..=n).map(|s| (s, 100 + s)).collect(),
        ledgers: (1..=n).map(|s| (100 + s, s)).collect(),
        payees: (1..=n).collect(),
    }
}

#[test]
fn consistent_ledgers_are_clean() {
    let state = consistent(10, 5);
    assert!(ledger_checks(&state).is_empty());
    let report = bonded_checks(&state);
    assert!(report.no_ledger.is_empty());
    assert!(report.inconsistent.is_empty());
    assert_eq!(report.ok, vec![1, 2, 3, 4, 5]);
}

#[test]
fn dangling_bond_is_one_no_ledger() {
    let mut state = consistent(10, 5);
    state.bonded[2] = (3, 999);
    let report = bonded_checks(&state);
    assert_eq!(report.no_ledger, vec![(3, 999)]);
    assert!(report.inconsistent.is_empty());
    assert_eq!(report.ok, vec![1, 2, 4, 5]);
    // The ledger of stash 3 is no longer reached from its bond.
    assert_eq!(ledger_checks(&state), vec![3]);
}

#[test]
fn ledger_of_another_stash_is_inconsistent() {
    let mut state = consistent(10, 3);
    state.ledgers[1] = (102, 7);
    let report = bonded_checks(&state);
    assert_eq!(report.inconsistent, vec![(2, 7)]);
    assert_eq!(report.ok, vec![1, 3]);
    assert_eq!(ledger_checks(&state), vec![7]);
}

#[test]
fn migration_makes_stash_self_bonded() {
    let parent = consistent(9, 3);
    let m = deprecate_controller_simulation(&parent, &vec![(2, 102)]).unwrap();
    assert_eq!(m.bonded.get(&2), Some(&2));
    assert_eq!(m.ledgers.get(&2), Some(&2));
    assert_eq!(m.ledgers.get(&102), None);
    assert_eq!(m.bonded.len(), 3);
    assert_eq!(m.ledgers.len(), 3);
    assert_eq!(parent.bonded[1], (2, 102));
}

#[test]
fn migration_without_ledger_fails() {
    let parent = consistent(9, 3);
    let r = deprecate_controller_simulation(&parent, &vec![(1, 101), (3, 555)]);
    assert_eq!(r.unwrap_err(), LedgerCheckError::MissingLedger { stash: 3, controller: 555 });
}

#[test]
fn lost_ledger_round_trip() {
    let parent = consistent(9, 4);
    let mut child = consistent(10, 4);
    // The child block lost the ledger of stash 2, still bonded to controller 102.
    child.ledgers.remove(1);
    let report = staking_ledger_checks(vec![child, parent]).unwrap();
    assert_eq!(report.parent_block, 9);
    assert_eq!(report.child_block, 10);
    assert_eq!(report.child_counts, LedgerCounts { ledgers: 3, bonded: 4, payees: 4 });
    assert!(!report.child_counts.in_sync());
    assert!(report.child_bad_stashes.is_empty());
    assert_eq!(report.child_bonded.no_ledger, vec![(2, 102)]);
    assert!(report.child_bonded.inconsistent.is_empty());
    assert!(report.parent_bad_stashes.is_empty());
    assert!(report.parent_counts.in_sync());
    assert_eq!(report.migration.bonded.get(&2), Some(&2));
    assert_eq!(report.migration.ledgers.get(&2), Some(&2));
    assert_eq!(report.migrated_counts, LedgerCounts { ledgers: 4, bonded: 4, payees: 4 });
}

#[test]
fn parent_is_the_smaller_block() {
    let report = staking_ledger_checks(vec![consistent(7, 2), consistent(8, 2)]).unwrap();
    assert_eq!(report.parent_block, 7);
    assert_eq!(report.child_block, 8);
}

#[test]
fn checker_needs_two_snapshots() {
    let r = staking_ledger_checks(vec![consistent(1, 1)]);
    assert_eq!(r.unwrap_err(), LedgerCheckError::SnapshotCount(1));
    let r = staking_ledger_checks(vec![consistent(1, 1), consistent(2, 1), consistent(3, 1)]);
    assert_eq!(r.unwrap_err(), LedgerCheckError::SnapshotCount(3));
}

#[test]
fn dangling_bond_in_child_fails_the_migration() {
    let parent = consistent(9, 3);
    let mut child = consistent(10, 3);
    child.bonded[0] = (1, 999);
    let r = staking_ledger_checks(vec![parent, child]);
    assert_eq!(r.unwrap_err(), LedgerCheckError::MissingLedger { stash: 1, controller: 999 });
}

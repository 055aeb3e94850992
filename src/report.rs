//! The rows that analysis runs produce.

use vstd::prelude::*;
use crate::solvers::RawSolution;
use crate::types::{ElectionScore, SnapshotMetadata};

verus! {

/// The row of a minimum-active-stake run.
#[derive(Clone, Copy, Debug, PartialEq, Eq, Structural)]
pub struct MinActiveStakeEntry {
    pub block_number: u32,
    /// `None` when no voter has a non-zero stake.
    pub min_active_stake: Option<u128>,
}

impl MinActiveStakeEntry {
    pub fn new(block_number: u32, min_active_stake: Option<u64>) -> (r: Self)
        ensures
            r.block_number == block_number,
            r.min_active_stake == match min_active_stake {
                Some(v) => Some(v as u128),
                None => None::<u128>,
            },
    {
        let min_active_stake = match min_active_stake {
            Some(v) => Some(v as u128),
            None => None,
        };
        MinActiveStakeEntry { block_number, min_active_stake }
    }
}

/// The row of an election-analysis run.
#[derive(Clone, Copy, Debug, PartialEq, Eq, Structural)]
pub struct ElectionEntry {
    pub block_number: u32,
    pub active_era: u32,
    pub phrag_min_stake: u128,
    pub phrag_sum_stake: u128,
    pub phrag_sum_stake_squared: u128,
    pub phrag_unbound_min_stake: u128,
    pub phrag_unbound_sum_stake: u128,
    pub phrag_unbound_sum_stake_squared: u128,
    pub dpos_min_stake: u128,
    pub dpos_sum_stake: u128,
    pub dpos_sum_stake_squared: u128,
    pub dpos_unbound_min_stake: u128,
    pub dpos_unbound_sum_stake: u128,
    pub dpos_unbound_sum_stake_squared: u128,
    pub voters: u32,
    pub targets: u32,
    pub snapshot_size: usize,
    pub voters_unbound: u32,
    pub targets_unbound: u32,
    pub snapshot_size_unbound: usize,
    /// `None` when no voter has a non-zero stake.
    pub min_active_stake: Option<u128>,
}

impl ElectionEntry {
    /// Lays out the results of one run: the era is zero when none is active.
    pub fn new(
        block_number: u32,
        active_era: Option<u32>,
        phrag_solutions: (&RawSolution, &RawSolution),
        dpos_score: ElectionScore,
        dpos_unbounded_score: ElectionScore,
        snapshot_metadata: SnapshotMetadata,
        snapshot_size: usize,
        snapshot_metadata_unbound: SnapshotMetadata,
        snapshot_size_unbound: usize,
        min_active_stake: Option<u64>,
    ) -> (r: Self)
        ensures
            r.block_number == block_number,
            r.active_era == match active_era {
                Some(e) => e,
                None => 0u32,
            },
            r.phrag_min_stake == phrag_solutions.0.score.minimal_stake,
            r.phrag_sum_stake == phrag_solutions.0.score.sum_stake,
            r.phrag_sum_stake_squared == phrag_solutions.0.score.sum_stake_squared,
            r.phrag_unbound_min_stake == phrag_solutions.1.score.minimal_stake,
            r.phrag_unbound_sum_stake == phrag_solutions.1.score.sum_stake,
            r.phrag_unbound_sum_stake_squared == phrag_solutions.1.score.sum_stake_squared,
            r.dpos_min_stake == dpos_score.minimal_stake,
            r.dpos_sum_stake == dpos_score.sum_stake,
            r.dpos_sum_stake_squared == dpos_score.sum_stake_squared,
            r.dpos_unbound_min_stake == dpos_unbounded_score.minimal_stake,
            r.dpos_unbound_sum_stake == dpos_unbounded_score.sum_stake,
            r.dpos_unbound_sum_stake_squared == dpos_unbounded_score.sum_stake_squared,
            r.voters == snapshot_metadata.voters,
            r.targets == snapshot_metadata.targets,
            r.snapshot_size == snapshot_size,
            r.voters_unbound == snapshot_metadata_unbound.voters,
            r.targets_unbound == snapshot_metadata_unbound.targets,
            r.snapshot_size_unbound == snapshot_size_unbound,
            r.min_active_stake == match min_active_stake {
                Some(v) => Some(v as u128),
                None => None::<u128>,
            },
    {
        let active_era = match active_era {
            Some(era) => era,
            None => 0,
        };
        let phrag = phrag_solutions.0.score;
        let phrag_unbound = phrag_solutions.1.score;
        let min_active_stake = match min_active_stake {
            Some(v) => Some(v as u128),
            None => None,
        };
        ElectionEntry {
            block_number,
            active_era,
            phrag_min_stake: phrag.minimal_stake,
            phrag_sum_stake: phrag.sum_stake,
            phrag_sum_stake_squared: phrag.sum_stake_squared,
            phrag_unbound_min_stake: phrag_unbound.minimal_stake,
            phrag_unbound_sum_stake: phrag_unbound.sum_stake,
            phrag_unbound_sum_stake_squared: phrag_unbound.sum_stake_squared,
            dpos_min_stake: dpos_score.minimal_stake,
            dpos_sum_stake: dpos_score.sum_stake,
            dpos_sum_stake_squared: dpos_score.sum_stake_squared,
            dpos_unbound_min_stake: dpos_unbounded_score.minimal_stake,
            dpos_unbound_sum_stake: dpos_unbounded_score.sum_stake,
            dpos_unbound_sum_stake_squared: dpos_unbounded_score.sum_stake_squared,
            voters: snapshot_metadata.voters,
            targets: snapshot_metadata.targets,
            snapshot_size,
            voters_unbound: snapshot_metadata_unbound.voters,
            targets_unbound: snapshot_metadata_unbound.targets,
            snapshot_size_unbound,
            min_active_stake,
        }
    }
}

} // verus!

//! One analysis run over an election's data: the minimum active stake, and the
//! NPoS and delegated-stake scores of the bounded and of the unbounded snapshot.

use vstd::prelude::*;
use crate::dpos::{is_dpos_score, mine_dpos};
use crate::snapshot::{
    compute_and_store_unbounded_snapshot, counts_of, encodable, encoded_len_of, reused_metadata,
    snapshot_data_or_force, snapshot_of, snapshot_view, ElectionData, ElectionState, SnapshotError,
};
use crate::solvers::{mine_with, mined, solver_result, RawSolution, Solver, SolverError};
use crate::stake_scan::{min_active_stake, min_nonzero, scanned};
use crate::types::{total_edges, voters_view, ElectionScore, Snapshot, SnapshotMetadata, Voter};
use crate::utils::ShareDistribution;

verus! {

/// Balancing rounds of the NPoS solver in an analysis run.
pub const ANALYSIS_ITERATIONS: usize = 10;

/// What one analysis run finds.
#[derive(Clone, Debug)]
pub struct ElectionAnalysis {
    pub min_active_stake: Option<u64>,
    /// The bounded snapshot, as stored or as built.
    pub snapshot: Snapshot,
    pub metadata: SnapshotMetadata,
    /// Length of the bounded snapshot's encoding.
    pub snapshot_size: usize,
    pub desired_targets: u32,
    pub phragmen: RawSolution,
    pub dpos: ElectionScore,
    /// The snapshot with every listed voter.
    pub snapshot_unbounded: Snapshot,
    pub metadata_unbounded: SnapshotMetadata,
    /// Length of the unbounded snapshot's encoding.
    pub snapshot_size_unbounded: usize,
    pub desired_targets_unbounded: u32,
    pub phragmen_unbounded: RawSolution,
    pub dpos_unbounded: ElectionScore,
}

/// Why an analysis run failed.
#[derive(Clone, Copy, Debug, PartialEq, Eq, Structural)]
pub enum AnalysisError {
    Snapshot(SnapshotError),
    /// The stored snapshot has no desired number of winners.
    DesiredTargetsUnavailable,
    /// The snapshot holds more nominations than can be counted.
    TooManyNominations,
    Solver(SolverError),
}

pub open spec fn stakes_view(voters: Seq<Voter>) -> Seq<u64> {
    voters.map_values(|v: Voter| v.1)
}

pub open spec fn max_len_of(data: ElectionData) -> Option<usize> {
    match data.max_electing_voters {
        Some(m) => Some(m as usize),
        None => None,
    }
}

/// The stakes of the voters, in list order.
fn stakes(voters: &Vec<Voter>) -> (r: Vec<u64>)
    ensures
        r@ == stakes_view(voters@),
{
    let mut r: Vec<u64> = Vec::new();
    let mut i: usize = 0;
    while i < voters.len()
        invariant
            0 <= i <= voters@.len(),
            r@ == stakes_view(voters@).take(i as int),
        decreases voters@.len() - i,
    {
        r.push(voters[i].1);
        i = i + 1;
        assert(r@ =~= stakes_view(voters@).take(i as int));
    }
    assert(stakes_view(voters@).take(voters@.len() as int) =~= stakes_view(voters@));
    r
}

/// The number of nominations of `voters`, if it fits in a `u64`.
pub fn nomination_count(voters: &Vec<Voter>) -> (r: Option<u64>)
    ensures
        r matches Some(n) ==> n == total_edges(voters@),
        r is None ==> total_edges(voters@) > u64::MAX,
{
    let mut n: u64 = 0;
    let mut i: usize = 0;
    while i < voters.len()
        invariant
            0 <= i <= voters@.len(),
            n == total_edges(voters@.take(i as int)),
        decreases voters@.len() - i,
    {
        assert(voters@.take(i as int + 1).drop_last() =~= voters@.take(i as int));
        let k = voters[i].2.len();
        if k as u64 > u64::MAX - n {
            proof {
                crate::types::lemma_total_edges_prefix(voters@, i as int + 1);
            }
            return None;
        }
        n = n + k as u64;
        i = i + 1;
    }
    assert(voters@.take(voters@.len() as int) =~= voters@);
    Some(n)
}

/// The sequential-Phragmen solution and the delegated-stake score of one snapshot.
pub open spec fn scores_snapshot(
    snapshot: Snapshot,
    desired: u32,
    phragmen: RawSolution,
    dpos: ElectionScore,
) -> bool {
    &&& mined(
        snapshot,
        desired,
        false,
        solver_result(Solver::SeqPhragmen { iterations: ANALYSIS_ITERATIONS }, snapshot, desired),
        Ok(phragmen),
    )
    &&& is_dpos_score(snapshot.voters@, desired, ShareDistribution::ProRata, dpos)
}

/// Scoring `snapshot` fails with `e`: its nominations cannot be counted, or the
/// solver fails on it.
pub open spec fn fails_on(snapshot: Snapshot, desired: u32, e: AnalysisError) -> bool {
    match e {
        AnalysisError::TooManyNominations => total_edges(snapshot.voters@) > u64::MAX,
        AnalysisError::Solver(se) => mined(
            snapshot,
            desired,
            false,
            solver_result(Solver::SeqPhragmen { iterations: ANALYSIS_ITERATIONS }, snapshot, desired),
            Err(se),
        ),
        _ => false,
    }
}

/// `b` and `d` are the bounded snapshot and desired number of winners of a run
/// from `state`: the stored ones, else the ones built from `data`.
pub open spec fn bounded_input(state: ElectionState, data: ElectionData, b: Snapshot, d: u32) -> bool {
    match state.snapshot {
        Some(s) => b == s && state.desired_targets == Some(d),
        None => snapshot_of(data, false) matches Ok((v, t, dd)) && snapshot_view(b) == (v, t) && d
            == dd,
    }
}

/// `u` and `d` are the snapshot with every listed voter and its desired number
/// of winners.
pub open spec fn unbounded_input(data: ElectionData, u: Snapshot, d: u32) -> bool {
    snapshot_of(data, true) matches Ok((v, t, dd)) && snapshot_view(u) == (v, t) && d == dd
}

fn score_snapshot(snapshot: &Snapshot, desired: u32) -> (r: Result<
    (RawSolution, ElectionScore),
    AnalysisError,
>)
    ensures
        r matches Ok((p, d)) ==> scores_snapshot(*snapshot, desired, p, d),
        r matches Err(e) ==> fails_on(*snapshot, desired, e),
{
    let solver = Solver::SeqPhragmen { iterations: ANALYSIS_ITERATIONS };
    let phragmen = match mine_with(&solver, snapshot, desired, false) {
        Ok(p) => p,
        Err(e) => {
            return Err(AnalysisError::Solver(e));
        },
    };
    if nomination_count(&snapshot.voters).is_none() {
        return Err(AnalysisError::TooManyNominations);
    }
    let dpos = mine_dpos(snapshot, desired, ShareDistribution::ProRata);
    Ok((phragmen, dpos))
}

/// Runs one election analysis on `data`: the minimum active stake of the voter
/// list; the bounded snapshot (the stored one, else one built and stored) with
/// its sequential-Phragmen solution and pro-rata delegated-stake score; then the
/// same on a snapshot with every listed voter, which replaces the stored one.
pub fn election_analysis(state: &mut ElectionState, data: &ElectionData) -> (r: Result<
    ElectionAnalysis,
    AnalysisError,
>)
    requires
        encodable(voters_view(data.voters@), data.targets@),
        old(state).snapshot matches Some(s) ==> encodable(voters_view(s.voters@), s.targets@),
    ensures
        r matches Ok(a) ==> {
            &&& a.min_active_stake == min_nonzero(
                scanned(stakes_view(data.voters@), max_len_of(*data)),
            )
            &&& bounded_input(*old(state), *data, a.snapshot, a.desired_targets)
            &&& a.metadata == match old(state).snapshot {
                Some(s) => reused_metadata(*old(state), s),
                None => counts_of(a.snapshot),
            }
            &&& a.snapshot_size == encoded_len_of(voters_view(a.snapshot.voters@), a.snapshot.targets@)
            &&& scores_snapshot(a.snapshot, a.desired_targets, a.phragmen, a.dpos)
            &&& unbounded_input(*data, a.snapshot_unbounded, a.desired_targets_unbounded)
            &&& a.metadata_unbounded == counts_of(a.snapshot_unbounded)
            &&& a.snapshot_size_unbounded == encoded_len_of(
                voters_view(a.snapshot_unbounded.voters@),
                a.snapshot_unbounded.targets@,
            )
            &&& scores_snapshot(
                a.snapshot_unbounded,
                a.desired_targets_unbounded,
                a.phragmen_unbounded,
                a.dpos_unbounded,
            )
        },
        r matches Err(e) ==> match e {
            AnalysisError::Snapshot(se) => (old(state).snapshot is None && snapshot_of(*data, false)
                == Err::<(Seq<(u32, u64, Seq<u32>)>, Seq<u32>, u32), SnapshotError>(se))
                || snapshot_of(*data, true) == Err::<
                (Seq<(u32, u64, Seq<u32>)>, Seq<u32>, u32),
                SnapshotError,
            >(se),
            AnalysisError::DesiredTargetsUnavailable => old(state).snapshot is Some && old(
                state,
            ).desired_targets is None,
            _ => (exists|b: Snapshot, d: u32|
                bounded_input(*old(state), *data, b, d) && fails_on(b, d, e)) || (exists|
                u: Snapshot,
                d: u32,
            | unbounded_input(*data, u, d) && fails_on(u, d, e)),
        },
{
    let ghost before = *state;
    let (metadata, snapshot_size) = match snapshot_data_or_force(state, data) {
        Ok(m) => m,
        Err(e) => {
            return Err(AnalysisError::Snapshot(e));
        },
    };
    let weights = stakes(&data.voters);
    let max_len = match data.max_electing_voters {
        Some(m) => Some(m as usize),
        None => None,
    };
    let min_active = min_active_stake(&weights, max_len);
    let desired = match state.desired_targets {
        Some(d) => d,
        None => {
            return Err(AnalysisError::DesiredTargetsUnavailable);
        },
    };
    let snapshot = state.snapshot.take().unwrap();
    assert(bounded_input(before, *data, snapshot, desired));
    let (phragmen, dpos) = match score_snapshot(&snapshot, desired) {
        Ok(x) => x,
        Err(e) => {
            return Err(e);
        },
    };
    let (metadata_unbounded, snapshot_size_unbounded) = match compute_and_store_unbounded_snapshot(
        state,
        data,
    ) {
        Ok(m) => m,
        Err(e) => {
            return Err(AnalysisError::Snapshot(e));
        },
    };
    let desired_unbounded = state.desired_targets.unwrap();
    let snapshot_unbounded = state.snapshot.take().unwrap();
    assert(unbounded_input(*data, snapshot_unbounded, desired_unbounded));
    let (phragmen_unbounded, dpos_unbounded) = match score_snapshot(
        &snapshot_unbounded,
        desired_unbounded,
    ) {
        Ok(x) => x,
        Err(e) => {
            return Err(e);
        },
    };
    Ok(ElectionAnalysis {
        min_active_stake: min_active,
        snapshot,
        metadata,
        snapshot_size,
        desired_targets: desired,
        phragmen,
        dpos,
        snapshot_unbounded,
        metadata_unbounded,
        snapshot_size_unbounded,
        desired_targets_unbounded: desired_unbounded,
        phragmen_unbounded,
        dpos_unbounded,
    })
}

} // verus!

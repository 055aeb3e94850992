//! The NPoS solvers, sequential Phragmen and PhragMMS, and the check that a
//! solution is feasible for its snapshot.

use vstd::prelude::*;
use sp_arithmetic::{PerThing, Perbill};
use crate::score::{are_supports_of, evaluate, lemma_supports_unique, score_of, to_supports};
use crate::types::{
    assignments_view, supports_view, voters_view, AccountId, ElectionScore, Snapshot,
    StakedAssignment, Support, Voter,
};

verus! {

/// An NPoS solver and the number of balancing rounds it runs.
#[derive(Clone, Copy, Debug, PartialEq, Eq, Structural)]
pub enum Solver {
    SeqPhragmen { iterations: usize },
    PhragMMS { iterations: usize },
}

/// A voter's stake spread over targets in parts per billion.
#[derive(Clone, Debug)]
pub struct RatioAssignment {
    pub who: AccountId,
    pub distribution: Vec<(AccountId, u32)>,
}

impl View for RatioAssignment {
    type V = (AccountId, Seq<(AccountId, u32)>);

    open spec fn view(&self) -> Self::V {
        (self.who, self.distribution@)
    }
}

pub open spec fn ratios_view(s: Seq<RatioAssignment>) -> Seq<(AccountId, Seq<(AccountId, u32)>)> {
    s.map_values(|a: RatioAssignment| a@)
}

/// What a solver returns: the winners with their backing, and each voter's
/// stake spread over the winners in parts per billion.
#[derive(Clone, Debug)]
pub struct ElectionOutcome {
    pub winners: Vec<(AccountId, u128)>,
    pub assignments: Vec<RatioAssignment>,
}

/// A solution with its staked assignments and its score.
#[derive(Clone, Debug)]
pub struct RawSolution {
    pub winners: Vec<(AccountId, u128)>,
    pub assignments: Vec<StakedAssignment>,
    pub score: ElectionScore,
}

/// Why a solution is not feasible for its snapshot.
#[derive(Clone, Copy, Debug, PartialEq, Eq, Structural)]
pub enum Infeasibility {
    /// The number of winners is not the desired number.
    WrongWinnerCount,
    /// A winner is not a target of the snapshot.
    UnknownWinner,
    /// An assignment's voter is not in the snapshot, backs a target that it does
    /// not nominate or that did not win, or spends more than its stake.
    InvalidAssignment,
}

/// Why mining a solution failed.
#[derive(Clone, Copy, Debug, PartialEq, Eq, Structural)]
pub enum SolverError {
    /// The solver reported an error.
    Mining,
    /// The ratios could not be turned into normalized stakes.
    Normalization,
    /// The solution failed its feasibility check.
    Infeasible(Infeasibility),
}

/// Outcome of sequential Phragmen on these arguments, as winners and ratio assignments.
pub uninterp spec fn seq_phragmen_result(
    to_elect: nat,
    candidates: Seq<AccountId>,
    voters: Seq<(AccountId, u64, Seq<AccountId>)>,
    iterations: nat,
) -> Option<(Seq<(AccountId, u128)>, Seq<(AccountId, Seq<(AccountId, u32)>)>)>;

/// Outcome of PhragMMS on these arguments, as winners and ratio assignments.
pub uninterp spec fn phragmms_result(
    to_elect: nat,
    candidates: Seq<AccountId>,
    voters: Seq<(AccountId, u64, Seq<AccountId>)>,
    iterations: nat,
) -> Option<(Seq<(AccountId, u128)>, Seq<(AccountId, Seq<(AccountId, u32)>)>)>;

/// Normalized staked assignments of these ratio assignments, each voter's stake
/// taken from `voters`.
pub uninterp spec fn staked_normalized(
    ratios: Seq<(AccountId, Seq<(AccountId, u32)>)>,
    voters: Seq<(AccountId, u64, Seq<AccountId>)>,
) -> Option<Seq<(AccountId, Seq<(AccountId, u128)>)>>;

pub open spec fn outcome_view(o: ElectionOutcome) -> (
    Seq<(AccountId, u128)>,
    Seq<(AccountId, Seq<(AccountId, u32)>)>,
) {
    (o.winners@, ratios_view(o.assignments@))
}

/// Relies on sp_npos_elections::seq_phragmen, at Perbill accuracy with
/// `iterations` balancing rounds of zero tolerance: its result depends on its
/// arguments alone, it fails only when it cannot normalize, and it keeps at
/// most `to_elect` winners.
#[verifier::external_body]
fn run_seq_phragmen(
    to_elect: usize,
    candidates: &Vec<AccountId>,
    voters: &Vec<Voter>,
    iterations: usize,
) -> (r: Option<ElectionOutcome>)
    ensures
        r matches Some(o) ==> seq_phragmen_result(
            to_elect as nat,
            candidates@,
            voters_view(voters@),
            iterations as nat,
        ) == Some(outcome_view(o)),
        r is None ==> seq_phragmen_result(
            to_elect as nat,
            candidates@,
            voters_view(voters@),
            iterations as nat,
        ) is None,
        r matches Some(o) ==> o.winners@.len() <= to_elect,
{
    let balancing = Some(sp_npos_elections::BalancingConfig { iterations, tolerance: 0 });
    sp_npos_elections::seq_phragmen::<AccountId, Perbill>(to_elect, candidates.clone(), voters.clone(), balancing)
        .ok()
        .map(|res| ElectionOutcome {
            winners: res.winners,
            assignments: res.assignments.into_iter().map(|a| RatioAssignment {
                who: a.who,
                distribution: a.distribution.into_iter().map(|(t, p)| (t, p.deconstruct())).collect(),
            }).collect(),
        })
}

/// Relies on sp_npos_elections::phragmms, at Perbill accuracy with `iterations`
/// balancing rounds of zero tolerance: its result depends on its arguments
/// alone, it fails only when it cannot normalize, and it elects at most one
/// winner per round of `to_elect`.
#[verifier::external_body]
fn run_phragmms(
    to_elect: usize,
    candidates: &Vec<AccountId>,
    voters: &Vec<Voter>,
    iterations: usize,
) -> (r: Option<ElectionOutcome>)
    ensures
        r matches Some(o) ==> phragmms_result(
            to_elect as nat,
            candidates@,
            voters_view(voters@),
            iterations as nat,
        ) == Some(outcome_view(o)),
        r is None ==> phragmms_result(
            to_elect as nat,
            candidates@,
            voters_view(voters@),
            iterations as nat,
        ) is None,
        r matches Some(o) ==> o.winners@.len() <= to_elect,
{
    let balancing = Some(sp_npos_elections::BalancingConfig { iterations, tolerance: 0 });
    sp_npos_elections::phragmms::<AccountId, Perbill>(to_elect, candidates.clone(), voters.clone(), balancing)
        .ok()
        .map(|res| ElectionOutcome {
            winners: res.winners,
            assignments: res.assignments.into_iter().map(|a| RatioAssignment {
                who: a.who,
                distribution: a.distribution.into_iter().map(|(t, p)| (t, p.deconstruct())).collect(),
            }).collect(),
        })
}

/// Stake of the first voter with identifier `who`; zero when there is none.
pub open spec fn stake_in(voters: Seq<(AccountId, u64, Seq<AccountId>)>, who: AccountId) -> u64
    decreases voters.len(),
{
    if voters.len() == 0 {
        0
    } else if voters[0].0 == who {
        voters[0].1
    } else {
        stake_in(voters.drop_first(), who)
    }
}

/// Stake of the first voter with identifier `who`; zero when there is none.
pub fn stake_of(voters: &Vec<Voter>, who: AccountId) -> (r: u64)
    ensures
        r == stake_in(voters_view(voters@), who),
{
    let ghost vv = voters_view(voters@);
    let mut i: usize = 0;
    assert(vv.subrange(0, vv.len() as int) =~= vv);
    while i < voters.len()
        invariant
            0 <= i <= voters@.len(),
            vv == voters_view(voters@),
            stake_in(vv, who) == stake_in(vv.subrange(i as int, vv.len() as int), who),
        decreases voters@.len() - i,
    {
        let ghost rest = vv.subrange(i as int, vv.len() as int);
        assert(rest.drop_first() =~= vv.subrange(i as int + 1, vv.len() as int));
        assert(rest[0] == vv[i as int]);
        if voters[i].0 == who {
            return voters[i].1;
        }
        i = i + 1;
    }
    assert(vv.subrange(i as int, vv.len() as int) =~= Seq::<(AccountId, u64, Seq<AccountId>)>::empty());
    0
}

/// Relies on sp_npos_elections::assignment_ratio_to_staked_normalized, each
/// voter's stake given by `stake_of`: its result depends on its arguments alone.
#[verifier::external_body]
fn to_staked(ratios: &Vec<RatioAssignment>, voters: &Vec<Voter>) -> (r: Option<Vec<StakedAssignment>>)
    ensures
        r matches Some(s) ==> staked_normalized(ratios_view(ratios@), voters_view(voters@)) == Some(
            assignments_view(s@),
        ),
        r is None ==> staked_normalized(ratios_view(ratios@), voters_view(voters@)) is None,
{
    let ratio: Vec<sp_npos_elections::Assignment<AccountId, Perbill>> = ratios.iter().map(|a| sp_npos_elections::Assignment {
        who: a.who,
        distribution: a.distribution.iter().map(|(t, p)| (*t, Perbill::from_parts(*p))).collect(),
    }).collect();
    sp_npos_elections::assignment_ratio_to_staked_normalized(ratio, |who: &AccountId| stake_of(voters, *who))
        .ok()
        .map(|s| s.into_iter().map(|a| StakedAssignment { who: a.who, distribution: a.distribution }).collect())
}

/// `t` is among the winners.
pub open spec fn wins(winners: Seq<(AccountId, u128)>, t: AccountId) -> bool {
    exists|i: int| 0 <= i < winners.len() && winners[i].0 == t
}

/// Sum of the amounts.
pub open spec fn amount_sum(dist: Seq<(AccountId, u128)>) -> int
    decreases dist.len(),
{
    if dist.len() == 0 {
        0
    } else {
        amount_sum(dist.drop_last()) + dist.last().1
    }
}

/// Every edge goes to a target the voter nominates and that won, and the
/// amounts sum to at most the voter's stake.
pub open spec fn fits(
    dist: Seq<(AccountId, u128)>,
    voter: (AccountId, u64, Seq<AccountId>),
    winners: Seq<(AccountId, u128)>,
) -> bool {
    &&& forall|j: int|
        0 <= j < dist.len() ==> voter.2.contains(#[trigger] dist[j].0) && wins(winners, dist[j].0)
    &&& amount_sum(dist) <= voter.1
}

/// Some voter of the snapshot with the assignment's identifier can give it.
pub open spec fn assignment_valid(
    a: (AccountId, Seq<(AccountId, u128)>),
    voters: Seq<(AccountId, u64, Seq<AccountId>)>,
    winners: Seq<(AccountId, u128)>,
) -> bool {
    exists|i: int| 0 <= i < voters.len() && voters[i].0 == a.0 && fits(a.1, voters[i], winners)
}

/// The verdict of the feasibility check.
pub open spec fn feasibility(
    voters: Seq<(AccountId, u64, Seq<AccountId>)>,
    targets: Seq<AccountId>,
    desired_targets: int,
    winners: Seq<(AccountId, u128)>,
    assignments: Seq<(AccountId, Seq<(AccountId, u128)>)>,
) -> Result<(), Infeasibility> {
    if winners.len() != desired_targets {
        Err(Infeasibility::WrongWinnerCount)
    } else if exists|i: int| 0 <= i < winners.len() && !targets.contains(#[trigger] winners[i].0) {
        Err(Infeasibility::UnknownWinner)
    } else if exists|i: int|
        0 <= i < assignments.len() && !assignment_valid(#[trigger] assignments[i], voters, winners) {
        Err(Infeasibility::InvalidAssignment)
    } else {
        Ok(())
    }
}

fn contains_id(s: &Vec<AccountId>, t: AccountId) -> (r: bool)
    ensures
        r == s@.contains(t),
{
    let mut i: usize = 0;
    while i < s.len()
        invariant
            0 <= i <= s@.len(),
            forall|k: int| 0 <= k < i ==> s@[k] != t,
        decreases s@.len() - i,
    {
        if s[i] == t {
            assert(s@[i as int] == t);
            return true;
        }
        i = i + 1;
    }
    false
}

fn is_winner(winners: &Vec<(AccountId, u128)>, t: AccountId) -> (r: bool)
    ensures
        r == wins(winners@, t),
{
    let mut i: usize = 0;
    while i < winners.len()
        invariant
            0 <= i <= winners@.len(),
            forall|k: int| 0 <= k < i ==> winners@[k].0 != t,
        decreases winners@.len() - i,
    {
        if winners[i].0 == t {
            return true;
        }
        i = i + 1;
    }
    false
}

proof fn lemma_amount_sum_prefix(dist: Seq<(AccountId, u128)>, j: int)
    requires
        0 <= j <= dist.len(),
    ensures
        amount_sum(dist.take(j)) <= amount_sum(dist),
        0 <= amount_sum(dist.take(j)),
    decreases dist.len(),
{
    if j < dist.len() {
        assert(dist.drop_last().take(j) =~= dist.take(j));
        lemma_amount_sum_prefix(dist.drop_last(), j);
    } else {
        assert(dist.take(j) =~= dist);
    }
    if dist.len() > 0 {
        lemma_amount_sum_prefix(dist.drop_last(), dist.len() - 1);
        assert(dist.drop_last().take(dist.len() - 1) =~= dist.drop_last());
    }
}

fn fits_voter(dist: &Vec<(AccountId, u128)>, voter: &Voter, winners: &Vec<(AccountId, u128)>) -> (r:
    bool)
    ensures
        r == fits(dist@, (voter.0, voter.1, voter.2@), winners@),
{
    let ghost v = (voter.0, voter.1, voter.2@);
    let stake = voter.1 as u128;
    let mut total: u128 = 0;
    let mut j: usize = 0;
    assert(dist@.take(0) =~= Seq::<(AccountId, u128)>::empty());
    while j < dist.len()
        invariant
            0 <= j <= dist@.len(),
            v == (voter.0, voter.1, voter.2@),
            stake == voter.1,
            total == amount_sum(dist@.take(j as int)),
            total <= stake,
            forall|k: int|
                0 <= k < j ==> v.2.contains(#[trigger] dist@[k].0) && wins(winners@, dist@[k].0),
        decreases dist@.len() - j,
    {
        let (t, amount) = dist[j];
        assert(dist@.take(j as int + 1).drop_last() =~= dist@.take(j as int));
        if !contains_id(&voter.2, t) || !is_winner(winners, t) {
            return false;
        }
        if amount > stake - total {
            proof {
                lemma_amount_sum_prefix(dist@, j as int + 1);
            }
            return false;
        }
        total = total + amount;
        j = j + 1;
    }
    assert(dist@.take(dist@.len() as int) =~= dist@);
    true
}

fn assignment_is_valid(a: &StakedAssignment, voters: &Vec<Voter>, winners: &Vec<(AccountId, u128)>) -> (r:
    bool)
    ensures
        r == assignment_valid(a@, voters_view(voters@), winners@),
{
    let ghost vv = voters_view(voters@);
    let mut i: usize = 0;
    while i < voters.len()
        invariant
            0 <= i <= voters@.len(),
            vv == voters_view(voters@),
            forall|k: int| 0 <= k < i ==> !(vv[k].0 == a.who && fits(a.distribution@, vv[k], winners@)),
        decreases voters@.len() - i,
    {
        if voters[i].0 == a.who && fits_voter(&a.distribution, &voters[i], winners) {
            assert(vv[i as int] == (voters@[i as int].0, voters@[i as int].1, voters@[i as int].2@));
            return true;
        }
        assert(vv[i as int] == (voters@[i as int].0, voters@[i as int].1, voters@[i as int].2@));
        i = i + 1;
    }
    false
}

/// Checks a solution against its snapshot: there are exactly `desired_targets`
/// winners, every winner is a target of the snapshot, and every assignment can
/// be given by a voter of the snapshot: it backs only winners that the voter
/// nominates, with at most the voter's stake.
pub fn feasibility_check(
    snapshot: &Snapshot,
    desired_targets: u32,
    winners: &Vec<(AccountId, u128)>,
    assignments: &Vec<StakedAssignment>,
) -> (r: Result<(), Infeasibility>)
    ensures
        r == feasibility(
            voters_view(snapshot.voters@),
            snapshot.targets@,
            desired_targets as int,
            winners@,
            assignments_view(assignments@),
        ),
{
    if winners.len() != desired_targets as usize {
        return Err(Infeasibility::WrongWinnerCount);
    }
    let mut i: usize = 0;
    while i < winners.len()
        invariant
            0 <= i <= winners@.len(),
            winners@.len() == desired_targets,
            forall|k: int| 0 <= k < i ==> snapshot.targets@.contains(#[trigger] winners@[k].0),
        decreases winners@.len() - i,
    {
        if !contains_id(&snapshot.targets, winners[i].0) {
            assert(!snapshot.targets@.contains(winners@[i as int].0));
            return Err(Infeasibility::UnknownWinner);
        }
        i = i + 1;
    }
    let ghost av = assignments_view(assignments@);
    let mut k: usize = 0;
    while k < assignments.len()
        invariant
            0 <= k <= assignments@.len(),
            av == assignments_view(assignments@),
            winners@.len() == desired_targets,
            forall|q: int| 0 <= q < winners@.len() ==> snapshot.targets@.contains(#[trigger] winners@[q].0),
            forall|q: int|
                0 <= q < k ==> assignment_valid(#[trigger] av[q], voters_view(snapshot.voters@), winners@),
        decreases assignments@.len() - k,
    {
        if !assignment_is_valid(&assignments[k], &snapshot.voters, winners) {
            assert(av[k as int] == assignments@[k as int]@);
            assert(!assignment_valid(av[k as int], voters_view(snapshot.voters@), winners@));
            return Err(Infeasibility::InvalidAssignment);
        }
        assert(av[k as int] == assignments@[k as int]@);
        k = k + 1;
    }
    Ok(())
}

/// The outcome of `solver` on `snapshot`.
pub open spec fn solver_result(solver: Solver, snapshot: Snapshot, desired_targets: u32) -> Option<
    (Seq<(AccountId, u128)>, Seq<(AccountId, Seq<(AccountId, u32)>)>),
> {
    match solver {
        Solver::SeqPhragmen { iterations } => seq_phragmen_result(
            desired_targets as nat,
            snapshot.targets@,
            voters_view(snapshot.voters@),
            iterations as nat,
        ),
        Solver::PhragMMS { iterations } => phragmms_result(
            desired_targets as nat,
            snapshot.targets@,
            voters_view(snapshot.voters@),
            iterations as nat,
        ),
    }
}

/// What mining returns, given the solver's outcome and its staked assignments.
pub open spec fn mined(
    snapshot: Snapshot,
    desired_targets: u32,
    do_feasibility: bool,
    outcome: Option<(Seq<(AccountId, u128)>, Seq<(AccountId, Seq<(AccountId, u32)>)>)>,
    r: Result<RawSolution, SolverError>,
) -> bool {
    match outcome {
        None => r == Err::<RawSolution, SolverError>(SolverError::Mining),
        Some((winners, ratios)) => match staked_normalized(ratios, voters_view(snapshot.voters@)) {
            None => r == Err::<RawSolution, SolverError>(SolverError::Normalization),
            Some(staked) => {
                let verdict = feasibility(
                    voters_view(snapshot.voters@),
                    snapshot.targets@,
                    desired_targets as int,
                    winners,
                    staked,
                );
                if do_feasibility && verdict is Err {
                    r == Err::<RawSolution, SolverError>(SolverError::Infeasible(verdict->Err_0))
                } else {
                    r matches Ok(sol) && sol.winners@ == winners && winners.len() <= desired_targets
                        && assignments_view(sol.assignments@)
                        == staked && exists|s: Seq<Support>|
                        are_supports_of(supports_view(s), staked) && sol.score == score_of(
                            supports_view(s),
                        )
                }
            },
        },
    }
}

/// Mines a solution of `snapshot` with `solver`, electing `desired_targets`, and
/// scores it. With `do_feasibility` the solution is checked against the
/// snapshot first, and an infeasible one is an error.
pub fn mine_with(solver: &Solver, snapshot: &Snapshot, desired_targets: u32, do_feasibility: bool) -> (r:
    Result<RawSolution, SolverError>)
    ensures
        mined(
            *snapshot,
            desired_targets,
            do_feasibility,
            solver_result(*solver, *snapshot, desired_targets),
            r,
        ),
{
    let outcome = match solver {
        Solver::SeqPhragmen { iterations } => run_seq_phragmen(
            desired_targets as usize,
            &snapshot.targets,
            &snapshot.voters,
            *iterations,
        ),
        Solver::PhragMMS { iterations } => run_phragmms(
            desired_targets as usize,
            &snapshot.targets,
            &snapshot.voters,
            *iterations,
        ),
    };
    let outcome = match outcome {
        Some(o) => o,
        None => {
            return Err(SolverError::Mining);
        },
    };
    let staked = match to_staked(&outcome.assignments, &snapshot.voters) {
        Some(s) => s,
        None => {
            return Err(SolverError::Normalization);
        },
    };
    if do_feasibility {
        match feasibility_check(snapshot, desired_targets, &outcome.winners, &staked) {
            Ok(()) => {},
            Err(e) => {
                return Err(SolverError::Infeasible(e));
            },
        }
    }
    let supports = to_supports(&staked);
    let score = evaluate(&supports);
    Ok(RawSolution { winners: outcome.winners, assignments: staked, score })
}

/// Mining is deterministic: two runs of the same solver, with the same
/// balancing iterations, on the same snapshot and desired number of winners,
/// fail alike or return the same winners, assignments and score.
pub proof fn lemma_mining_is_deterministic(
    solver: Solver,
    snapshot: Snapshot,
    desired_targets: u32,
    do_feasibility: bool,
    r1: Result<RawSolution, SolverError>,
    r2: Result<RawSolution, SolverError>,
)
    requires
        mined(snapshot, desired_targets, do_feasibility, solver_result(solver, snapshot, desired_targets), r1),
        mined(snapshot, desired_targets, do_feasibility, solver_result(solver, snapshot, desired_targets), r2),
    ensures
        r1 is Err ==> r1 == r2,
        r1 matches Ok(a) ==> r2 matches Ok(b) && a.winners@ == b.winners@ && assignments_view(
            a.assignments@,
        ) == assignments_view(b.assignments@) && a.score == b.score,
{
    let outcome = solver_result(solver, snapshot, desired_targets);
    if let Some((winners, ratios)) = outcome {
        if let Some(staked) = staked_normalized(ratios, voters_view(snapshot.voters@)) {
            if r1 is Ok {
                let a = r1->Ok_0;
                let b = r2->Ok_0;
                let s1 = choose|s: Seq<Support>|
                    are_supports_of(supports_view(s), staked) && a.score == score_of(
                        supports_view(s),
                    );
                let s2 = choose|s: Seq<Support>|
                    are_supports_of(supports_view(s), staked) && b.score == score_of(
                        supports_view(s),
                    );
                lemma_supports_unique(supports_view(s1), supports_view(s2), staked);
            }
        }
    }
}

} // verus!

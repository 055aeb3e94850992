use substrate_timetravel::solvers::{
    feasibility_check, mine_with, stake_of, Infeasibility, Solver, SolverError,
};
use substrate_timetravel::types::{ElectionScore, Snapshot, StakedAssignment};

fn single_voter() -> Snapshot {
    Snapshot { voters: vec![(1, 100, vec![5])], targets: vec![5] }
}

fn two_voters() -> Snapshot {
    Snapshot { voters: vec![(10, 10, vec![1, 2]), (20, 20, vec![2, 3])], targets: vec![1, 2, 3] }
}

#[test]
fn seq_phragmen_single_voter() {
    let sol = mine_with(&Solver::SeqPhragmen { iterations: 10 }, &single_voter(), 1, true).unwrap();
    assert_eq!(sol.winners.iter().map(|w| w.0).collect::<Vec<_>>(), vec![5]);
    assert_eq!(sol.score, ElectionScore { minimal_stake: 100, sum_stake: 100, sum_stake_squared: 10000 });
}

#[test]
fn phragmms_single_voter() {
    let sol = mine_with(&Solver::PhragMMS { iterations: 10 }, &single_voter(), 1, true).unwrap();
    assert_eq!(sol.score, ElectionScore { minimal_stake: 100, sum_stake: 100, sum_stake_squared: 10000 });
    assert_eq!(sol.assignments.len(), 1);
    assert_eq!(sol.assignments[0].who, 1);
    assert_eq!(sol.assignments[0].distribution, vec![(5, 100)]);
}

#[test]
fn solvers_are_deterministic() {
    for solver in [Solver::SeqPhragmen { iterations: 10 }, Solver::PhragMMS { iterations: 10 }] {
        let a = mine_with(&solver, &two_voters(), 2, true).unwrap();
        let b = mine_with(&solver, &two_voters(), 2, true).unwrap();
        assert_eq!(a.score, b.score);
        assert_eq!(a.winners, b.winners);
        assert_eq!(a.winners.len(), 2);
        // Every voter backs an elected target, so all stake is distributed.
        assert_eq!(a.score.sum_stake, 30);
    }
}

#[test]
fn balancing_keeps_the_minimal_stake() {
    let base = mine_with(&Solver::SeqPhragmen { iterations: 0 }, &two_voters(), 2, false).unwrap();
    let balanced = mine_with(&Solver::SeqPhragmen { iterations: 10 }, &two_voters(), 2, false).unwrap();
    assert!(balanced.score.minimal_stake >= base.score.minimal_stake);
}

#[test]
fn too_few_winners_is_infeasible() {
    let r = mine_with(&Solver::SeqPhragmen { iterations: 10 }, &single_voter(), 2, true);
    assert_eq!(r.unwrap_err(), SolverError::Infeasible(Infeasibility::WrongWinnerCount));
    let unchecked = mine_with(&Solver::SeqPhragmen { iterations: 10 }, &single_voter(), 2, false);
    assert_eq!(unchecked.unwrap().winners.len(), 1);
}

#[test]
fn winner_outside_the_snapshot_is_infeasible() {
    let r = feasibility_check(&single_voter(), 1, &vec![(9, 0)], &vec![]);
    assert_eq!(r, Err(Infeasibility::UnknownWinner));
}

#[test]
fn overspending_assignment_is_infeasible() {
    let overspent = vec![StakedAssignment { who: 1, distribution: vec![(5, 101)] }];
    let r = feasibility_check(&single_voter(), 1, &vec![(5, 101)], &overspent);
    assert_eq!(r, Err(Infeasibility::InvalidAssignment));
    let exact = vec![StakedAssignment { who: 1, distribution: vec![(5, 100)] }];
    assert_eq!(feasibility_check(&single_voter(), 1, &vec![(5, 100)], &exact), Ok(()));
    let unknown_voter = vec![StakedAssignment { who: 2, distribution: vec![(5, 1)] }];
    assert_eq!(
        feasibility_check(&single_voter(), 1, &vec![(5, 1)], &unknown_voter),
        Err(Infeasibility::InvalidAssignment)
    );
}

#[test]
fn stake_lookup() {
    let s = two_voters();
    assert_eq!(stake_of(&s.voters, 20), 20);
    assert_eq!(stake_of(&s.voters, 30), 0);
}

#[test]
fn unchecked_solution_keeps_at_most_desired_winners() {
    for solver in [Solver::SeqPhragmen { iterations: 2 }, Solver::PhragMMS { iterations: 2 }] {
        let sol = mine_with(&solver, &two_voters(), 1, false).unwrap();
        assert_eq!(sol.winners.len(), 1);
    }
}

use substrate_timetravel::dpos::{mine_dpos, select_winners};
use substrate_timetravel::score::evaluate;
use substrate_timetravel::types::{ElectionScore, Snapshot, Support};
use substrate_timetravel::utils::ShareDistribution;

fn support(target: u32, total: u128) -> Support {
    Support { target, total, voters: vec![(100 + target, total)] }
}

fn example_snapshot() -> Snapshot {
    Snapshot {
        voters: vec![
            (1, 20, vec![1, 2]),
            (2, 10, vec![3]),
            (3, 10, vec![1, 3]),
            (4, 10, vec![4, 3]),
            (5, 10, vec![1, 3]),
        ],
        targets: vec![1, 2, 3, 4],
    }
}

#[test]
fn empty_winners_score_zero() {
    let score = evaluate(&vec![]);
    assert_eq!(score, ElectionScore { minimal_stake: 0, sum_stake: 0, sum_stake_squared: 0 });
}

#[test]
fn score_of_winners() {
    let score = evaluate(&vec![support(1, 10), support(2, 3), support(3, 7)]);
    assert_eq!(score, ElectionScore { minimal_stake: 3, sum_stake: 20, sum_stake_squared: 158 });
}

#[test]
fn score_saturates() {
    let big = u128::MAX / 2 + 1;
    let score = evaluate(&vec![support(1, big), support(2, big)]);
    assert_eq!(score.minimal_stake, big);
    assert_eq!(score.sum_stake, u128::MAX);
    assert_eq!(score.sum_stake_squared, u128::MAX);
}

#[test]
fn winners_are_the_best_backed() {
    let supports = vec![support(1, 5), support(2, 9), support(3, 5), support(4, 1)];
    let winners = select_winners(supports, 3);
    let picked: Vec<(u32, u128)> = winners.iter().map(|s| (s.target, s.total)).collect();
    assert_eq!(picked, vec![(2, 9), (3, 5), (1, 5)]);
}

#[test]
fn fewer_supports_than_desired_keeps_all() {
    let winners = select_winners(vec![support(1, 5), support(2, 9)], 10);
    let picked: Vec<u32> = winners.iter().map(|s| s.target).collect();
    assert_eq!(picked, vec![2, 1]);
    assert!(select_winners(vec![support(1, 5)], 0).is_empty());
}

#[test]
fn dpos_pro_rata_example() {
    // Every voter gives 1/4 of its stake to each of the four ranked targets:
    // targets 4, 2, 1 and 3 each receive 5 + 2 + 2 + 2 + 2 = 13.
    let score = mine_dpos(&example_snapshot(), 2, ShareDistribution::ProRata);
    assert_eq!(score, ElectionScore { minimal_stake: 13, sum_stake: 26, sum_stake_squared: 338 });
}

#[test]
fn dpos_pareto_example() {
    // Target 3 is the top fifth: 16 + 8 * 4 = 48; the others get 1 + 0 * 4 = 1 each.
    let score = mine_dpos(&example_snapshot(), 2, ShareDistribution::Pareto);
    assert_eq!(score, ElectionScore { minimal_stake: 1, sum_stake: 49, sum_stake_squared: 2305 });
}

#[test]
fn dpos_skips_voters_without_stake_or_targets() {
    let snapshot = Snapshot {
        voters: vec![(1, 0, vec![1]), (2, 10, vec![]), (3, 8, vec![2])],
        targets: vec![1, 2],
    };
    // The ranking holds targets 1 and 2; only voter 3 spreads its stake: 4 each.
    let score = mine_dpos(&snapshot, 5, ShareDistribution::ProRata);
    assert_eq!(score, ElectionScore { minimal_stake: 4, sum_stake: 8, sum_stake_squared: 32 });
}

#[test]
fn dpos_winners_never_exceed_desired() {
    let one = mine_dpos(&example_snapshot(), 1, ShareDistribution::ProRata);
    assert_eq!(one, ElectionScore { minimal_stake: 13, sum_stake: 13, sum_stake_squared: 169 });
    let none = mine_dpos(&example_snapshot(), 0, ShareDistribution::ProRata);
    assert_eq!(none, ElectionScore { minimal_stake: 0, sum_stake: 0, sum_stake_squared: 0 });
}

use substrate_timetravel::utils::{share_distribution, ShareDistribution, SortedTargets};

fn example_voters() -> Vec<(u32, u64, Vec<u32>)> {
    vec![
        (1, 20, vec![1, 2]),
        (2, 10, vec![3]),
        (3, 10, vec![1, 3]),
        (4, 10, vec![4, 3]),
        (5, 10, vec![1, 3]),
    ]
}

#[test]
fn target_votes_works() {
    let v: Vec<(u32, u64, Vec<u32>)> = vec![
        (1, 20, vec![1, 2]),
        (2, 10, vec![3]),
        (3, 10, vec![1, 3]),
        (4, 10, vec![4, 3]),
        (5, 10, vec![1, 3]),
    ];

    let sorted_targets = SortedTargets::from_voters(v);
    assert_eq!(sorted_targets.0, vec![4, 2, 1, 3]);
}

#[test]
fn distributions_work() {
    let v: Vec<(u32, u64, Vec<u32>)> = vec![
        (1, 20, vec![1, 2]),
        (2, 10, vec![3]),
        (3, 10, vec![1, 3]),
        (4, 10, vec![4, 3]),
        (5, 10, vec![1, 3]),
    ];

    let sorted_targets = SortedTargets::from_voters(v);

    let prorata_distribution = share_distribution(&sorted_targets, 100, ShareDistribution::ProRata);
    let pareto_distribution = share_distribution(&sorted_targets, 100, ShareDistribution::Pareto);

    assert_eq!(prorata_distribution, vec![(4, 25), (2, 25), (1, 25), (3, 25)]);
    assert_eq!(pareto_distribution, vec![(4, 6), (2, 6), (1, 6), (3, 80)]);
}

#[test]
fn equal_approval_ranks_by_identifier() {
    let v: Vec<(u32, u64, Vec<u32>)> = vec![(1, 5, vec![9, 7]), (2, 5, vec![8])];
    let sorted = SortedTargets::from_voters(v);
    assert_eq!(sorted.0, vec![7, 8, 9]);
}

#[test]
fn zero_stake_nominations_are_ranked_first() {
    let v: Vec<(u32, u64, Vec<u32>)> = vec![(1, 0, vec![5]), (2, 3, vec![4])];
    let sorted = SortedTargets::from_voters(v);
    assert_eq!(sorted.0, vec![5, 4]);
}

#[test]
fn repeated_nomination_counts_twice() {
    let v: Vec<(u32, u64, Vec<u32>)> = vec![(1, 3, vec![1, 1]), (2, 5, vec![2])];
    let sorted = SortedTargets::from_voters(v);
    assert_eq!(sorted.0, vec![2, 1]);
}

#[test]
fn no_voters_rank_no_target() {
    let sorted = SortedTargets::from_voters(vec![]);
    assert!(sorted.0.is_empty());
    assert!(share_distribution(&sorted, 100, ShareDistribution::ProRata).is_empty());
    assert!(share_distribution(&sorted, 100, ShareDistribution::Pareto).is_empty());
}

#[test]
fn pareto_with_one_target_gives_it_four_fifths() {
    let sorted = SortedTargets(vec![7]);
    assert_eq!(share_distribution(&sorted, 100, ShareDistribution::Pareto), vec![(7, 80)]);
    assert_eq!(share_distribution(&sorted, 100, ShareDistribution::ProRata), vec![(7, 100)]);
}

#[test]
fn pareto_with_five_targets_splits_four_and_one() {
    let sorted = SortedTargets(vec![1, 2, 3, 4, 5]);
    assert_eq!(
        share_distribution(&sorted, 1000, ShareDistribution::Pareto),
        vec![(1, 50), (2, 50), (3, 50), (4, 50), (5, 800)]
    );
}

#[test]
fn pro_rata_rounds_down() {
    let sorted = SortedTargets::from_voters(example_voters());
    assert_eq!(
        share_distribution(&sorted, 10, ShareDistribution::ProRata),
        vec![(4, 2), (2, 2), (1, 2), (3, 2)]
    );
}

#[test]
fn shares_of_the_largest_stake() {
    let sorted = SortedTargets(vec![1, 2]);
    let max = u64::MAX;
    assert_eq!(
        share_distribution(&sorted, max, ShareDistribution::ProRata),
        vec![(1, max / 2), (2, max / 2)]
    );
    let eighty = ((max as u128) * 4 / 5) as u64;
    assert_eq!(
        share_distribution(&sorted, max, ShareDistribution::Pareto),
        vec![(1, max / 5), (2, eighty)]
    );
}

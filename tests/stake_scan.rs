use substrate_timetravel::stake_scan::min_active_stake;

#[test]
fn all_zero_weights_have_no_active_stake() {
    assert_eq!(min_active_stake(&vec![0, 0, 0], None), None);
    assert_eq!(min_active_stake(&vec![], None), None);
}

#[test]
fn smallest_non_zero_weight() {
    assert_eq!(min_active_stake(&vec![9, 0, 4, 7], None), Some(4));
}

#[test]
fn scan_takes_at_most_max_len_voters() {
    assert_eq!(min_active_stake(&vec![9, 8, 1], Some(2)), Some(8));
    assert_eq!(min_active_stake(&vec![9, 8, 1], Some(0)), None);
}

#[test]
fn scan_gives_up_after_twice_max_len_entries() {
    // Two voters allowed: the scan looks at four entries at most.
    assert_eq!(min_active_stake(&vec![0, 0, 0, 5, 1], Some(2)), Some(5));
    assert_eq!(min_active_stake(&vec![0, 0, 0, 0, 1], Some(2)), None);
}

#[test]
fn largest_weight_is_a_real_stake() {
    assert_eq!(min_active_stake(&vec![u64::MAX], None), Some(u64::MAX));
}

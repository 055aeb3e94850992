use substrate_timetravel::profile::RuntimeProfile;

#[test]
fn any_runtime_works() {
    let polkadot = RuntimeProfile::Polkadot;
    let kusama = RuntimeProfile::Kusama;

    assert_eq!(polkadot.spec_name(), "polkadot");
    assert_eq!(kusama.spec_name(), "kusama");
}

#[test]
fn chain_names_select_profiles() {
    assert_eq!(RuntimeProfile::from_chain("Polkadot"), Some(RuntimeProfile::Polkadot));
    assert_eq!(RuntimeProfile::from_chain("Development"), Some(RuntimeProfile::Polkadot));
    assert_eq!(RuntimeProfile::from_chain("KUSAMA"), Some(RuntimeProfile::Kusama));
    assert_eq!(RuntimeProfile::from_chain("kusama-dev"), Some(RuntimeProfile::Kusama));
    assert_eq!(RuntimeProfile::from_chain("Westend"), Some(RuntimeProfile::Westend));
    assert_eq!(RuntimeProfile::from_chain("rococo"), None);
}

#[test]
fn profile_settings() {
    assert_eq!(RuntimeProfile::Polkadot.token_symbol(), "DOT");
    assert_eq!(RuntimeProfile::Kusama.token_unit(), 1_000_000_000_000);
    assert_eq!(RuntimeProfile::Polkadot.token_unit(), 10_000_000_000);
    assert_eq!(RuntimeProfile::Kusama.ss58_prefix(), 2);
    assert_eq!(RuntimeProfile::Westend.ss58_prefix(), 0);
    assert_eq!(RuntimeProfile::Westend.token_symbol(), "WND");
}

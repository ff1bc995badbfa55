use nft_staking::errors::StakingError;
use nft_staking::instructions::claim_rewards::claim_rewards;
use nft_staking::instructions::create_collection::collection_attributes;
use nft_staking::instructions::initialize::initialize;
use nft_staking::instructions::stake::{stake, StakePlan};
use nft_staking::state::{Attribute, Config};

fn attr(key: &str, value: &str) -> Attribute {
    Attribute::new(key.to_string(), value.to_string())
}

fn pairs(attrs: &[Attribute]) -> Vec<(String, String)> {
    attrs.iter().map(|a| (a.key.clone(), a.value.clone())).collect()
}

fn expect(list: &[(&str, &str)]) -> Vec<(String, String)> {
    list.iter().map(|(k, v)| (k.to_string(), v.to_string())).collect()
}

fn config(rate: u64, freeze: u16) -> Config {
    initialize(rate, freeze, 1, 2).unwrap()
}

fn plan_attributes(plan: &StakePlan) -> Vec<(String, String)> {
    match plan {
        StakePlan::UpdateAttributes(v) => pairs(v),
        StakePlan::AddAttributes(v) => pairs(v),
    }
}

#[test]
fn initialize_keeps_the_settings() {
    let c = initialize(2_000_000, 60, 254, 253).unwrap();
    assert_eq!(
        c,
        Config { reward_rate_per_sec: 2_000_000, freeze_period: 60, rewards_bump: 254, config_bump: 253 }
    );
}

#[test]
fn initialize_refuses_fractional_rate() {
    assert_eq!(initialize(1_500_000, 60, 1, 2), Err(StakingError::InvalidRewardRate));
}

#[test]
fn new_collection_counts_no_staked_assets() {
    assert_eq!(pairs(&collection_attributes()), expect(&[("staked_nfts", "0")]));
}

#[test]
fn stake_without_attributes_adds_them() {
    let plan = stake(None, 1_700_000_000).unwrap();
    assert!(matches!(plan, StakePlan::AddAttributes(_)));
    assert_eq!(
        plan_attributes(&plan),
        expect(&[
            ("staked", "1700000000"),
            ("staked_time", "0"),
            ("last_claimed_at", "1700000000")
        ])
    );
}

#[test]
fn stake_resets_an_unstaked_asset() {
    let existing = vec![
        attr("staked", "0"),
        attr("color", "blue"),
        attr("last_claimed_at", "5"),
        attr("staked_time", "40"),
    ];
    let plan = stake(Some(&existing), 1_000).unwrap();
    assert!(matches!(plan, StakePlan::UpdateAttributes(_)));
    assert_eq!(
        plan_attributes(&plan),
        expect(&[
            ("staked", "1000"),
            ("color", "blue"),
            ("staked_time", "40"),
            ("last_claimed_at", "1000")
        ])
    );
}

#[test]
fn stake_adds_missing_stake_attributes() {
    let existing = vec![attr("color", "blue")];
    let plan = stake(Some(&existing), 77).unwrap();
    assert_eq!(
        plan_attributes(&plan),
        expect(&[
            ("color", "blue"),
            ("staked", "77"),
            ("staked_time", "0"),
            ("last_claimed_at", "77")
        ])
    );
}

#[test]
fn stake_writes_negative_times() {
    let plan = stake(None, -42).unwrap();
    assert_eq!(plan_attributes(&plan)[0], ("staked".to_string(), "-42".to_string()));
}

#[test]
fn stake_refuses_staked_asset() {
    let existing = vec![attr("color", "blue"), attr("staked", "100")];
    assert!(matches!(stake(Some(&existing), 200), Err(StakingError::AlreadyStaked)));
    let padded = vec![attr("staked", "00")];
    assert!(matches!(stake(Some(&padded), 200), Err(StakingError::AlreadyStaked)));
}

#[test]
fn claim_pays_since_last_claim() {
    let attrs = vec![
        attr("staked", "100"),
        attr("last_claimed_at", "150"),
        attr("color", "blue"),
    ];
    let outcome = claim_rewards(&attrs, 200, &config(1_000_000, 10)).unwrap();
    assert_eq!(outcome.amount, 50_000_000);
    assert_eq!(
        pairs(&outcome.attributes),
        expect(&[("staked", "100"), ("color", "blue"), ("last_claimed_at", "200")])
    );
}

#[test]
fn claim_without_record_pays_since_stake() {
    let attrs = vec![attr("staked", "100")];
    let outcome = claim_rewards(&attrs, 130, &config(2_000_000, 10)).unwrap();
    assert_eq!(outcome.amount, 60_000_000);
    let zero_record = vec![attr("staked", "100"), attr("last_claimed_at", "0")];
    let outcome = claim_rewards(&zero_record, 130, &config(2_000_000, 10)).unwrap();
    assert_eq!(outcome.amount, 60_000_000);
}

#[test]
fn claim_reads_signed_timestamps() {
    let attrs = vec![attr("staked", "+100"), attr("last_claimed_at", "-0")];
    let outcome = claim_rewards(&attrs, 101, &config(1_000_000, 0)).unwrap();
    assert_eq!(outcome.amount, 1_000_000);
}

#[test]
fn claim_refuses_malformed_timestamps() {
    let cfg = config(1_000_000, 0);
    for bad in [" 100", "100 ", "1_000", "abc", "", "-", "+", "9223372036854775808"] {
        let attrs = vec![attr("staked", bad)];
        assert!(matches!(claim_rewards(&attrs, 200, &cfg), Err(StakingError::InvalidTimestamp)));
    }
    let attrs = vec![attr("staked", "100"), attr("last_claimed_at", "x")];
    assert!(matches!(claim_rewards(&attrs, 200, &cfg), Err(StakingError::InvalidTimestamp)));
}

#[test]
fn claim_errors_follow_attribute_order() {
    let cfg = config(1_000_000, 0);
    let attrs = vec![attr("last_claimed_at", "x"), attr("staked", "0")];
    assert!(matches!(claim_rewards(&attrs, 200, &cfg), Err(StakingError::InvalidTimestamp)));
    let attrs = vec![attr("staked", "0"), attr("last_claimed_at", "x")];
    assert!(matches!(claim_rewards(&attrs, 200, &cfg), Err(StakingError::NotStaked)));
}

#[test]
fn claim_requires_stake() {
    let cfg = config(1_000_000, 0);
    let attrs = vec![attr("color", "blue")];
    assert!(matches!(claim_rewards(&attrs, 200, &cfg), Err(StakingError::StakingNotInitialized)));
    let attrs = vec![attr("staked", "0")];
    assert!(matches!(claim_rewards(&attrs, 200, &cfg), Err(StakingError::NotStaked)));
}

#[test]
fn claim_waits_for_freeze_period() {
    let attrs = vec![attr("staked", "100")];
    let cfg = config(1_000_000, 60);
    assert!(matches!(
        claim_rewards(&attrs, 159, &cfg),
        Err(StakingError::FreezePeriodNotElapsed)
    ));
    assert!(claim_rewards(&attrs, 160, &cfg).is_ok());
}

#[test]
fn claim_refuses_record_before_stake() {
    let attrs = vec![attr("staked", "100"), attr("last_claimed_at", "50")];
    let cfg = config(1_000_000, 0);
    assert!(matches!(claim_rewards(&attrs, 200, &cfg), Err(StakingError::InvalidTimestamp)));
}

#[test]
fn claim_after_stake_pays_from_stake() {
    let cfg = config(3_000_000, 30);
    let plan = stake(None, 1_000).unwrap();
    let attrs = match plan {
        StakePlan::AddAttributes(v) => v,
        StakePlan::UpdateAttributes(v) => v,
    };
    assert!(matches!(
        claim_rewards(&attrs, 1_029, &cfg),
        Err(StakingError::FreezePeriodNotElapsed)
    ));
    assert_eq!(claim_rewards(&attrs, 1_100, &cfg).unwrap().amount, 300_000_000);
}

#[test]
fn second_claim_reads_back_first() {
    let cfg = config(1_000_000, 0);
    let attrs = vec![attr("staked", "100"), attr("color", "blue")];
    let first = claim_rewards(&attrs, 250, &cfg).unwrap();
    assert_eq!(first.amount, 150_000_000);
    assert!(matches!(
        claim_rewards(&first.attributes, 250, &cfg),
        Err(StakingError::NoRewardsToClaim)
    ));
    let second = claim_rewards(&first.attributes, 300, &cfg).unwrap();
    assert_eq!(second.amount, 50_000_000);
    assert_eq!(
        pairs(&second.attributes),
        expect(&[("staked", "100"), ("color", "blue"), ("last_claimed_at", "300")])
    );
}

#[test]
fn stake_twice_is_refused() {
    let first = stake(None, 500).unwrap();
    let attrs = match first {
        StakePlan::AddAttributes(v) => v,
        StakePlan::UpdateAttributes(v) => v,
    };
    assert!(matches!(stake(Some(&attrs), 900), Err(StakingError::AlreadyStaked)));
}

#[test]
fn attribute_duplicate_is_equal() {
    let a = attr("k", "v");
    assert_eq!(a.duplicate(), a);
}

#[test]
fn claim_record_at_time_zero_is_read_as_no_claim() {
    let cfg = config(1_000_000, 0);
    let attrs = vec![attr("staked", "-100")];
    let first = claim_rewards(&attrs, 0, &cfg).unwrap();
    assert_eq!(first.amount, 100_000_000);
    assert_eq!(
        pairs(&first.attributes),
        expect(&[("staked", "-100"), ("last_claimed_at", "0")])
    );
    let second = claim_rewards(&first.attributes, 0, &cfg).unwrap();
    assert_eq!(second.amount, 100_000_000);
}

#[test]
fn stake_at_time_zero_reads_as_not_staked() {
    let plan = stake(None, 0).unwrap();
    let attrs = match plan {
        StakePlan::AddAttributes(v) => v,
        StakePlan::UpdateAttributes(v) => v,
    };
    assert!(matches!(
        claim_rewards(&attrs, 10, &config(1_000_000, 0)),
        Err(StakingError::NotStaked)
    ));
    assert!(stake(Some(&attrs), 10).is_ok());
}

#[test]
fn create_collection() {
    let attrs = collection_attributes();
    assert_eq!(attrs.len(), 1);
    assert_eq!(attrs[0].key, "staked_nfts");
    assert_eq!(attrs[0].value, "0");
}

#[test]
fn stake_refused_after_claim_and_edits() {
    let cfg = config(1_000_000, 0);
    let attrs = match stake(None, 1_000).unwrap() {
        StakePlan::AddAttributes(v) => v,
        StakePlan::UpdateAttributes(v) => v,
    };
    let claimed = claim_rewards(&attrs, 1_200, &cfg).unwrap().attributes;
    assert!(matches!(stake(Some(&claimed), 1_300), Err(StakingError::AlreadyStaked)));
    let mut edited = claimed;
    edited.insert(0, attr("staked", "0"));
    edited.push(attr("color", "red"));
    assert!(matches!(stake(Some(&edited), 1_300), Err(StakingError::AlreadyStaked)));
}

#[test]
fn stake_accepted_once_stake_time_is_reset() {
    let existing = vec![attr("staked", "0"), attr("last_claimed_at", "1200"), attr("staked", "0")];
    let plan = stake(Some(&existing), 1_300).unwrap();
    assert_eq!(
        plan_attributes(&plan),
        expect(&[("staked", "1300"), ("staked", "1300"), ("last_claimed_at", "1300")])
    );
}

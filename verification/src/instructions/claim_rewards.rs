//! Claiming the rewards of a staked asset: read the stake and last-claim times
//! from its attributes, check the freeze period, compute the amount owed, and
//! record the claim time.

use vstd::prelude::*;

use crate::decimal::{decimal_text, i64_to_string, parse_i64, parsed_i64};
use crate::errors::StakingError;
use crate::rewards::{
    compute_reward_amount, freeze_check, require_freeze_period_elapsed, resolve_claim_from,
    resolve_claim_from_result, reward_amount,
};
use crate::state::{
    attribute, attributes_view, last_claimed_key, last_claimed_key_string, staked_key,
    staked_key_string, Attribute, AttributeView, Config,
};

verus! {

/// What a claim hands back: the amount to mint and the asset's new attributes.
pub struct ClaimOutcome {
    pub amount: u64,
    pub attributes: Vec<Attribute>,
}

/// What reading an asset's attributes has found so far.
pub struct ClaimScan {
    pub staked_at: Option<i64>,
    pub last_claimed_at: Option<i64>,
    /// The attributes kept, in order: all but the last-claim times.
    pub kept: Seq<AttributeView>,
}

/// Reading one attribute. The stake time must parse and be non-zero, and is
/// kept; the last-claim time must parse, and is dropped; others are kept.
pub open spec fn claim_scan_step(st: ClaimScan, a: AttributeView) -> Result<ClaimScan, StakingError> {
    if a.key == staked_key() {
        match parsed_i64(a.value) {
            None => Err(StakingError::InvalidTimestamp),
            Some(ts) => if ts == 0 {
                Err(StakingError::NotStaked)
            } else {
                Ok(ClaimScan { staked_at: Some(ts), kept: st.kept.push(a), ..st })
            },
        }
    } else if a.key == last_claimed_key() {
        match parsed_i64(a.value) {
            None => Err(StakingError::InvalidTimestamp),
            Some(ts) => Ok(ClaimScan { last_claimed_at: Some(ts), ..st }),
        }
    } else {
        Ok(ClaimScan { kept: st.kept.push(a), ..st })
    }
}

/// Reading attributes in order; the first error stops the reading.
pub open spec fn claim_scan(attrs: Seq<AttributeView>) -> Result<ClaimScan, StakingError>
    decreases attrs.len(),
{
    if attrs.len() == 0 {
        Ok(ClaimScan { staked_at: None, last_claimed_at: None, kept: Seq::empty() })
    } else {
        match claim_scan(attrs.drop_last()) {
            Err(e) => Err(e),
            Ok(st) => claim_scan_step(st, attrs.last()),
        }
    }
}

/// The amount owed at `now` for an asset staked at `staked_at` whose rewards
/// were last claimed at `last_claimed_at`: the freeze period must have passed,
/// then rewards accrue from the claim start.
pub open spec fn claim_amount_for(
    staked_at: i64,
    last_claimed_at: Option<i64>,
    now: i64,
    config: Config,
) -> Result<u64, StakingError> {
    match freeze_check(staked_at, config.freeze_period, now) {
        Err(e) => Err(e),
        Ok(_) => match resolve_claim_from_result(staked_at, last_claimed_at) {
            Err(e) => Err(e),
            Ok(from) => reward_amount(now, from, config.reward_rate_per_sec),
        },
    }
}

/// The attribute that records a claim made at `now`.
pub open spec fn claim_record(now: i64) -> AttributeView {
    attribute(last_claimed_key(), decimal_text(now as int))
}

/// What a claim at `now` on an asset with attributes `attrs` gives: the amount
/// owed and the new attributes, or the first check that failed.
pub open spec fn claim_result(attrs: Seq<AttributeView>, now: i64, config: Config) -> Result<
    (u64, Seq<AttributeView>),
    StakingError,
> {
    match claim_scan(attrs) {
        Err(e) => Err(e),
        Ok(st) => match st.staked_at {
            None => Err(StakingError::StakingNotInitialized),
            Some(staked_at) => match claim_amount_for(staked_at, st.last_claimed_at, now, config) {
                Err(e) => Err(e),
                Ok(amount) => Ok((amount, st.kept.push(claim_record(now)))),
            },
        },
    }
}

/// Once reading a prefix has failed, reading the whole list fails the same way.
proof fn lemma_claim_scan_error_sticks(attrs: Seq<AttributeView>, i: int)
    requires
        0 <= i <= attrs.len(),
        claim_scan(attrs.take(i)) is Err,
    ensures
        claim_scan(attrs) == claim_scan(attrs.take(i)),
    decreases attrs.len() - i,
{
    if i == attrs.len() {
        assert(attrs.take(i) =~= attrs);
    } else {
        assert(attrs.take(i + 1).drop_last() =~= attrs.take(i));
        lemma_claim_scan_error_sticks(attrs, i + 1);
    }
}

/// Claims the rewards of an asset with attributes `attributes` at time `now`.
pub fn claim_rewards(attributes: &Vec<Attribute>, now: i64, config: &Config) -> (res: Result<
    ClaimOutcome,
    StakingError,
>)
    ensures
        match res {
            Ok(outcome) => claim_result(attributes_view(attributes@), now, *config) == Ok::<
                (u64, Seq<AttributeView>),
                StakingError,
            >((outcome.amount, attributes_view(outcome.attributes@))),
            Err(e) => claim_result(attributes_view(attributes@), now, *config) == Err::<
                (u64, Seq<AttributeView>),
                StakingError,
            >(e),
        },
{
    let ghost attrs = attributes_view(attributes@);
    let staked = staked_key_string();
    let last_claimed = last_claimed_key_string();
    let mut staked_at: Option<i64> = None;
    let mut last_claimed_at: Option<i64> = None;
    let mut kept: Vec<Attribute> = Vec::new();
    let mut i: usize = 0;
    assert(attrs.take(0) =~= Seq::<AttributeView>::empty());
    assert(attributes_view(kept@) =~= Seq::<AttributeView>::empty());
    while i < attributes.len()
        invariant
            i <= attributes.len(),
            attrs == attributes_view(attributes@),
            staked@ == staked_key(),
            last_claimed@ == last_claimed_key(),
            claim_scan(attrs.take(i as int)) == Ok::<ClaimScan, StakingError>(
                ClaimScan { staked_at, last_claimed_at, kept: attributes_view(kept@) },
            ),
        decreases attributes.len() - i,
    {
        let a = &attributes[i];
        assert(attrs.take(i + 1).drop_last() =~= attrs.take(i as int));
        assert(attrs.take(i + 1).last() == a@);
        if a.key == staked {
            let ts = match parse_i64(a.value.as_str()) {
                Some(ts) => ts,
                None => {
                    proof {
                        lemma_claim_scan_error_sticks(attrs, i + 1);
                    }
                    return Err(StakingError::InvalidTimestamp);
                },
            };
            if ts == 0 {
                proof {
                    lemma_claim_scan_error_sticks(attrs, i + 1);
                }
                return Err(StakingError::NotStaked);
            }
            staked_at = Some(ts);
            kept.push(a.duplicate());
        } else if a.key == last_claimed {
            let ts = match parse_i64(a.value.as_str()) {
                Some(ts) => ts,
                None => {
                    proof {
                        lemma_claim_scan_error_sticks(attrs, i + 1);
                    }
                    return Err(StakingError::InvalidTimestamp);
                },
            };
            last_claimed_at = Some(ts);
        } else {
            kept.push(a.duplicate());
        }
        assert(attributes_view(kept@) =~= claim_scan(attrs.take(i + 1))->Ok_0.kept);
        i = i + 1;
    }
    assert(attrs.take(i as int) =~= attrs);
    let staked_at = match staked_at {
        Some(t) => t,
        None => {
            return Err(StakingError::StakingNotInitialized);
        },
    };
    require_freeze_period_elapsed(staked_at, config.freeze_period, now)?;
    let claim_from = resolve_claim_from(staked_at, last_claimed_at)?;
    let amount = compute_reward_amount(now, claim_from, config.reward_rate_per_sec)?;
    let ghost before = attributes_view(kept@);
    kept.push(Attribute::new(last_claimed, i64_to_string(now)));
    assert(attributes_view(kept@) =~= before.push(claim_record(now)));
    Ok(ClaimOutcome { amount, attributes: kept })
}

} // verus!

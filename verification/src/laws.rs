//! Properties of the staking logic that span several calls or hold of every input.

use vstd::prelude::*;

use crate::decimal::{
    decimal_text, lemma_decimal_text_zero, lemma_parse_decimal_roundtrip, parsed_i64,
};
use crate::errors::StakingError;
use crate::instructions::claim_rewards::{
    claim_amount_for, claim_record, claim_result, claim_scan, claim_scan_step, ClaimScan,
};
use crate::instructions::stake::{stake_result, stake_scan, StakePlanView, StakeScan};
use crate::rewards::{
    claim_start, freeze_check, is_whole_token_rate, resolve_claim_from_result, reward_amount,
    reward_amount_if_any, reward_for, REWARD_TOKEN_UNIT,
};
use crate::state::{
    attribute, last_claimed_key, lemma_key_texts, staked_key, staked_time_key, zero_text,
    AttributeView, Config,
};

verus! {

/// The attributes a claim keeps: all but the records of earlier claims.
pub open spec fn kept_on_claim() -> spec_fn(AttributeView) -> bool {
    |a: AttributeView| a.key != last_claimed_key()
}

/// The amount of a claim's result, or its error.
pub open spec fn claimed_amount(r: Result<(u64, Seq<AttributeView>), StakingError>) -> Result<
    u64,
    StakingError,
> {
    match r {
        Ok(p) => Ok(p.0),
        Err(e) => Err(e),
    }
}

/// Reading attributes keeps, in order, every one that does not record a claim;
/// reading those again finds the same stake time and no claim record.
proof fn lemma_claim_scan_kept(attrs: Seq<AttributeView>)
    requires
        claim_scan(attrs) is Ok,
    ensures
        claim_scan(attrs)->Ok_0.kept == attrs.filter(kept_on_claim()),
        claim_scan(claim_scan(attrs)->Ok_0.kept) == Ok::<ClaimScan, StakingError>(
            ClaimScan {
                staked_at: claim_scan(attrs)->Ok_0.staked_at,
                last_claimed_at: None,
                kept: claim_scan(attrs)->Ok_0.kept,
            },
        ),
    decreases attrs.len(),
{
    reveal(Seq::filter);
    lemma_key_texts();
    if attrs.len() == 0 {
        assert(claim_scan(attrs)->Ok_0.kept =~= Seq::<AttributeView>::empty());
        assert(claim_scan(Seq::<AttributeView>::empty()) == Ok::<ClaimScan, StakingError>(
            ClaimScan { staked_at: None, last_claimed_at: None, kept: Seq::empty() },
        ));
    } else {
        let prev = attrs.drop_last();
        let a = attrs.last();
        lemma_claim_scan_kept(prev);
        let st0 = claim_scan(prev)->Ok_0;
        let st = claim_scan(attrs)->Ok_0;
        if a.key == staked_key() || a.key != last_claimed_key() {
            assert(st.kept == st0.kept.push(a));
            assert(st.kept.drop_last() =~= st0.kept);
        } else {
            assert(st.kept == st0.kept);
        }
    }
}

/// A claim records its time, and a later claim reads that record back: it pays
/// from the earlier claim onwards, for the same stake, keeping the same attributes.
pub proof fn law_claim_reads_back_its_record(
    attrs: Seq<AttributeView>,
    first: i64,
    second: i64,
    config: Config,
)
    requires
        claim_result(attrs, first, config) is Ok,
    ensures
        ({
            let st = claim_scan(attrs)->Ok_0;
            let next = claim_result(attrs, first, config)->Ok_0.1;
            claim_result(next, second, config) == match claim_amount_for(
                st.staked_at->Some_0,
                Some(first),
                second,
                config,
            ) {
                Err(e) => Err(e),
                Ok(amount) => Ok((amount, st.kept.push(claim_record(second)))),
            }
        }),
{
    lemma_key_texts();
    lemma_claim_scan_kept(attrs);
    lemma_parse_decimal_roundtrip(first);
    let st = claim_scan(attrs)->Ok_0;
    let next = st.kept.push(claim_record(first));
    assert(next.drop_last() =~= st.kept);
    assert(claim_scan(next) == claim_scan_step(
        ClaimScan { staked_at: st.staked_at, last_claimed_at: None, kept: st.kept },
        claim_record(first),
    ));
}

/// A claim keeps every other attribute, in order, and ends the list with the
/// record of its own time.
pub proof fn law_claim_keeps_other_attributes(attrs: Seq<AttributeView>, now: i64, config: Config)
    requires
        claim_result(attrs, now, config) is Ok,
    ensures
        claim_result(attrs, now, config)->Ok_0.1 == attrs.filter(kept_on_claim()).push(
            claim_record(now),
        ),
{
    lemma_claim_scan_kept(attrs);
}

/// Rewards cannot be claimed twice for the same instant: right after a claim at
/// a non-zero time `now`, claiming again at `now` finds nothing to claim.
pub proof fn law_no_second_claim_at_same_time(attrs: Seq<AttributeView>, now: i64, config: Config)
    requires
        claim_result(attrs, now, config) is Ok,
        now != 0,
    ensures
        claim_result(claim_result(attrs, now, config)->Ok_0.1, now, config) == Err::<
            (u64, Seq<AttributeView>),
            StakingError,
        >(StakingError::NoRewardsToClaim),
{
    law_claim_reads_back_its_record(attrs, now, now, config);
}

/// A successful claim pays exactly the reward rate times the seconds since the
/// claim start, and only once the freeze period has passed.
pub proof fn law_claim_pays_rate_times_elapsed(attrs: Seq<AttributeView>, now: i64, config: Config)
    requires
        claim_result(attrs, now, config) is Ok,
    ensures
        ({
            let st = claim_scan(attrs)->Ok_0;
            let staked_at = st.staked_at->Some_0;
            let from = claim_start(staked_at, st.last_claimed_at);
            &&& st.staked_at is Some
            &&& now >= staked_at + config.freeze_period
            &&& staked_at <= from < now
            &&& claim_result(attrs, now, config)->Ok_0.0 == (now - from) * config.reward_rate_per_sec
        }),
{
}

/// With a rate of whole tokens per second, every reward is a whole number of tokens.
pub proof fn law_rewards_are_whole_tokens(elapsed: int, reward_rate_per_sec: u64)
    requires
        elapsed >= 0,
        is_whole_token_rate(reward_rate_per_sec),
        reward_for(elapsed, reward_rate_per_sec) is Ok,
    ensures
        reward_for(elapsed, reward_rate_per_sec)->Ok_0 % REWARD_TOKEN_UNIT == 0,
{
    let u = REWARD_TOKEN_UNIT as int;
    let k = reward_rate_per_sec / REWARD_TOKEN_UNIT;
    assert(reward_rate_per_sec == k * u);
    assert(elapsed * reward_rate_per_sec == (elapsed * k) * u) by (nonlinear_arith)
        requires
            reward_rate_per_sec == k * u,
    ;
    assert(elapsed * k >= 0) by (nonlinear_arith)
        requires
            elapsed >= 0,
            k >= 0,
    ;
    vstd::arithmetic::div_mod::lemma_mod_multiples_basic(elapsed * k, u);
    assert(elapsed * reward_rate_per_sec >= 0);
    assert(reward_for(elapsed, reward_rate_per_sec)->Ok_0 == elapsed * reward_rate_per_sec);
}

/// A claim under a well-formed configuration pays a whole number of tokens.
pub proof fn law_claims_pay_whole_tokens(attrs: Seq<AttributeView>, now: i64, config: Config)
    requires
        config.well_formed(),
        claim_result(attrs, now, config) is Ok,
    ensures
        claim_result(attrs, now, config)->Ok_0.0 % REWARD_TOKEN_UNIT == 0,
{
    let st = claim_scan(attrs)->Ok_0;
    let from = claim_start(st.staked_at->Some_0, st.last_claimed_at);
    law_rewards_are_whole_tokens(now - from, config.reward_rate_per_sec);
}

/// Claiming in two steps pays what claiming once would: the reward from `a` to
/// `c` is the sum of those from `a` to `b` and from `b` to `c`, unless the whole
/// span or its reward is too large to represent.
pub proof fn law_rewards_add_up(a: i64, b: i64, c: i64, reward_rate_per_sec: u64)
    requires
        reward_amount(b, a, reward_rate_per_sec) is Ok,
        reward_amount(c, b, reward_rate_per_sec) is Ok,
    ensures
        ({
            let x = reward_amount(b, a, reward_rate_per_sec)->Ok_0;
            let y = reward_amount(c, b, reward_rate_per_sec)->Ok_0;
            &&& reward_amount(c, a, reward_rate_per_sec) matches Ok(z) ==> z == x + y
            &&& reward_amount(c, a, reward_rate_per_sec) matches Err(e) ==> (e
                == StakingError::Underflow || e == StakingError::Overflow)
            &&& (c - a <= i64::MAX && x + y <= u64::MAX) ==> reward_amount(
                c,
                a,
                reward_rate_per_sec,
            ) == Ok::<u64, StakingError>((x + y) as u64)
        }),
{
    let r = reward_rate_per_sec as int;
    assert((c - a) * r == (b - a) * r + (c - b) * r) by (nonlinear_arith);
}

/// The reward owed never decreases as time passes.
pub proof fn law_rewards_grow_with_time(
    claim_from: i64,
    earlier: i64,
    later: i64,
    reward_rate_per_sec: u64,
)
    requires
        earlier <= later,
        reward_amount(earlier, claim_from, reward_rate_per_sec) is Ok,
        reward_amount(later, claim_from, reward_rate_per_sec) is Ok,
    ensures
        reward_amount(earlier, claim_from, reward_rate_per_sec)->Ok_0 <= reward_amount(
            later,
            claim_from,
            reward_rate_per_sec,
        )->Ok_0,
{
    let r = reward_rate_per_sec as int;
    assert((earlier - claim_from) * r <= (later - claim_from) * r) by (nonlinear_arith)
        requires
            earlier <= later,
            r >= 0,
    ;
}

/// Computing the reward on unstake agrees with computing it on claim, except that
/// nothing accrued is a reward of zero rather than an error.
pub proof fn law_reward_if_any_agrees(now: i64, claim_from: i64, reward_rate_per_sec: u64)
    ensures
        reward_amount(now, claim_from, reward_rate_per_sec) == Err::<u64, StakingError>(
            StakingError::NoRewardsToClaim,
        ) ==> reward_amount_if_any(now, claim_from, reward_rate_per_sec) == Ok::<
            u64,
            StakingError,
        >(0),
        reward_amount(now, claim_from, reward_rate_per_sec) != Err::<u64, StakingError>(
            StakingError::NoRewardsToClaim,
        ) ==> reward_amount_if_any(now, claim_from, reward_rate_per_sec) == reward_amount(
            now,
            claim_from,
            reward_rate_per_sec,
        ),
{
}

/// Some attribute of `attrs` has key `key`.
pub open spec fn has_key(attrs: Seq<AttributeView>, key: Seq<char>) -> bool
    decreases attrs.len(),
{
    attrs.len() > 0 && (attrs.last().key == key || has_key(attrs.drop_last(), key))
}

/// Every stake-time attribute of `attrs` holds `stake_text`, and none records a claim.
spec fn written_by_stake(attrs: Seq<AttributeView>, stake_text: Seq<char>) -> bool {
    forall|i: int|
        0 <= i < attrs.len() ==> ((#[trigger] attrs[i]).key == staked_key() ==> attrs[i].value
            == stake_text) && attrs[i].key != last_claimed_key()
}

proof fn lemma_written_prefix(attrs: Seq<AttributeView>, stake_text: Seq<char>)
    requires
        attrs.len() > 0,
        written_by_stake(attrs, stake_text),
    ensures
        written_by_stake(attrs.drop_last(), stake_text),
        attrs.last().key == staked_key() ==> attrs.last().value == stake_text,
        attrs.last().key != last_claimed_key(),
{
    assert forall|i: int| 0 <= i < attrs.drop_last().len() implies ((
    #[trigger] attrs.drop_last()[i]).key == staked_key() ==> attrs.drop_last()[i].value
        == stake_text) && attrs.drop_last()[i].key != last_claimed_key() by {
        assert(attrs.drop_last()[i] == attrs[i]);
    }
    assert(attrs.last() == attrs[attrs.len() - 1]);
}

/// What staking keeps is written by the stake: stake times are the new one and
/// claim records are gone; and once a stake time was reset, one is kept.
proof fn lemma_stake_scan_written(attrs: Seq<AttributeView>, stake_text: Seq<char>)
    requires
        stake_scan(attrs, stake_text) is Ok,
    ensures
        written_by_stake(stake_scan(attrs, stake_text)->Ok_0.kept, stake_text),
        stake_scan(attrs, stake_text)->Ok_0.initialized ==> has_key(
            stake_scan(attrs, stake_text)->Ok_0.kept,
            staked_key(),
        ),
    decreases attrs.len(),
{
    lemma_key_texts();
    if attrs.len() > 0 {
        let prev = attrs.drop_last();
        lemma_stake_scan_written(prev, stake_text);
        let st0 = stake_scan(prev, stake_text)->Ok_0;
        let st = stake_scan(attrs, stake_text)->Ok_0;
        if st.kept != st0.kept {
            assert(st.kept.drop_last() =~= st0.kept);
            assert forall|i: int| 0 <= i < st.kept.len() implies ((#[trigger] st.kept[i]).key
                == staked_key() ==> st.kept[i].value == stake_text) && st.kept[i].key
                != last_claimed_key() by {
                if i < st0.kept.len() {
                    assert(st.kept[i] == st0.kept[i]);
                }
            }
        }
    }
}

/// Reading attributes written by a stake at a non-zero time finds that time,
/// if a stake-time attribute is present, no claim record, and keeps them all.
proof fn lemma_claim_scan_written(attrs: Seq<AttributeView>, staked_at: i64)
    requires
        staked_at != 0,
        written_by_stake(attrs, decimal_text(staked_at as int)),
    ensures
        claim_scan(attrs) == Ok::<ClaimScan, StakingError>(
            ClaimScan {
                staked_at: if has_key(attrs, staked_key()) {
                    Some(staked_at)
                } else {
                    None
                },
                last_claimed_at: None,
                kept: attrs,
            },
        ),
    decreases attrs.len(),
{
    if attrs.len() == 0 {
        assert(attrs =~= Seq::<AttributeView>::empty());
    } else {
        let prev = attrs.drop_last();
        lemma_written_prefix(attrs, decimal_text(staked_at as int));
        lemma_claim_scan_written(prev, staked_at);
        lemma_parse_decimal_roundtrip(staked_at);
        assert(prev.push(attrs.last()) =~= attrs);
    }
}

/// Staking again refuses attributes written by a stake at a non-zero time, as
/// soon as they hold a stake time.
proof fn lemma_stake_scan_rejects_written(
    attrs: Seq<AttributeView>,
    staked_at: i64,
    later_text: Seq<char>,
)
    requires
        staked_at != 0,
        written_by_stake(attrs, decimal_text(staked_at as int)),
    ensures
        has_key(attrs, staked_key()) ==> stake_scan(attrs, later_text) == Err::<
            StakeScan,
            StakingError,
        >(StakingError::AlreadyStaked),
        !has_key(attrs, staked_key()) ==> stake_scan(attrs, later_text) is Ok,
    decreases attrs.len(),
{
    lemma_key_texts();
    lemma_decimal_text_zero(staked_at as int);
    if attrs.len() > 0 {
        lemma_written_prefix(attrs, decimal_text(staked_at as int));
        lemma_stake_scan_rejects_written(attrs.drop_last(), staked_at, later_text);
    }
}

/// The attributes a stake writes, before the claim record at their end, are
/// written by the stake and hold a stake time; the last one records the stake time
/// as a claim time.
proof fn lemma_stake_output(existing: Option<Seq<AttributeView>>, staked_at: i64)
    requires
        stake_result(existing, staked_at) is Ok,
    ensures
        ({
            let out = stake_result(existing, staked_at)->Ok_0.attributes();
            &&& out.len() > 0
            &&& out.last() == claim_record(staked_at)
            &&& written_by_stake(out.drop_last(), decimal_text(staked_at as int))
            &&& has_key(out.drop_last(), staked_key())
        }),
{
    lemma_key_texts();
    let t = decimal_text(staked_at as int);
    let out = stake_result(existing, staked_at)->Ok_0.attributes();
    match existing {
        None => {
            let list = out.drop_last();
            assert(list =~= seq![
                attribute(staked_key(), t),
                attribute(staked_time_key(), zero_text()),
            ]);
            assert(list.drop_last().last() == attribute(staked_key(), t));
            assert(has_key(list.drop_last(), staked_key()));
            assert(list.last().key == staked_time_key());
            assert(has_key(list, staked_key()));
            assert forall|i: int| 0 <= i < list.len() implies ((#[trigger] list[i]).key
                == staked_key() ==> list[i].value == t) && list[i].key != last_claimed_key() by {
                if i == 0 {
                    assert(list[i] == attribute(staked_key(), t));
                } else {
                    assert(list[i] == attribute(staked_time_key(), zero_text()));
                }
            }
        },
        Some(attrs) => {
            lemma_stake_scan_written(attrs, t);
            let st = stake_scan(attrs, t)->Ok_0;
            let list = out.drop_last();
            assert(list =~= (if st.initialized {
                st.kept
            } else {
                st.kept.push(attribute(staked_key(), t)).push(
                    attribute(staked_time_key(), zero_text()),
                )
            }));
            if !st.initialized {
                let with_stake = st.kept.push(attribute(staked_key(), t));
                assert(with_stake.drop_last() =~= st.kept);
                assert(list.drop_last() =~= with_stake);
                assert(has_key(with_stake, staked_key()));
                assert(list.last().key == staked_time_key());
                assert(has_key(list, staked_key()));
                assert forall|i: int| 0 <= i < list.len() implies ((#[trigger] list[i]).key
                    == staked_key() ==> list[i].value == t) && list[i].key
                    != last_claimed_key() by {
                    if i < st.kept.len() {
                        assert(list[i] == st.kept[i]);
                    }
                }
            }
        },
    }
}

/// Claiming after a stake at a non-zero time pays from the stake onwards, once
/// the freeze period has passed.
pub proof fn law_claim_after_stake(
    existing: Option<Seq<AttributeView>>,
    staked_at: i64,
    now: i64,
    config: Config,
)
    requires
        staked_at != 0,
        stake_result(existing, staked_at) is Ok,
    ensures
        claimed_amount(
            claim_result(stake_result(existing, staked_at)->Ok_0.attributes(), now, config),
        ) == match freeze_check(staked_at, config.freeze_period, now) {
            Err(e) => Err(e),
            Ok(_) => reward_amount(now, staked_at, config.reward_rate_per_sec),
        },
{
    lemma_key_texts();
    lemma_stake_output(existing, staked_at);
    let out = stake_result(existing, staked_at)->Ok_0.attributes();
    let list = out.drop_last();
    lemma_claim_scan_written(list, staked_at);
    lemma_parse_decimal_roundtrip(staked_at);
    assert(list.push(out.last()) =~= out);
    assert(claim_scan(out) == claim_scan_step(claim_scan(list)->Ok_0, claim_record(staked_at)));
}

/// An asset staked at a non-zero time cannot be staked again.
pub proof fn law_no_second_stake(
    existing: Option<Seq<AttributeView>>,
    staked_at: i64,
    later: i64,
)
    requires
        staked_at != 0,
        stake_result(existing, staked_at) is Ok,
    ensures
        stake_result(Some(stake_result(existing, staked_at)->Ok_0.attributes()), later) == Err::<
            StakePlanView,
            StakingError,
        >(StakingError::AlreadyStaked),
{
    lemma_stake_output(existing, staked_at);
    let out = stake_result(existing, staked_at)->Ok_0.attributes();
    let list = out.drop_last();
    lemma_stake_scan_rejects_written(list, staked_at, decimal_text(later as int));
    assert(out.drop_last() =~= list);
}

/// Some attribute of `attrs` records a stake time other than `0`: the asset is staked.
pub open spec fn holds_active_stake(attrs: Seq<AttributeView>) -> bool {
    exists|i: int|
        0 <= i < attrs.len() && (#[trigger] attrs[i]).key == staked_key() && attrs[i].value
            != zero_text()
}

/// Some attribute has key `key`, in the form of a witness.
proof fn lemma_has_key_witness(attrs: Seq<AttributeView>, key: Seq<char>)
    requires
        has_key(attrs, key),
    ensures
        exists|i: int| 0 <= i < attrs.len() && (#[trigger] attrs[i]).key == key,
    decreases attrs.len(),
{
    if attrs.last().key == key {
        assert(attrs[attrs.len() - 1].key == key);
    } else {
        lemma_has_key_witness(attrs.drop_last(), key);
        let i = choose|i: int|
            0 <= i < attrs.drop_last().len() && (#[trigger] attrs.drop_last()[i]).key == key;
        assert(attrs[i] == attrs.drop_last()[i]);
    }
}

/// Rewriting attributes for a stake fails exactly when they hold an active stake,
/// and then because the asset is already staked.
proof fn lemma_stake_scan_refuses_active(attrs: Seq<AttributeView>, now_text: Seq<char>)
    ensures
        holds_active_stake(attrs) ==> stake_scan(attrs, now_text) == Err::<StakeScan, StakingError>(
            StakingError::AlreadyStaked,
        ),
        !holds_active_stake(attrs) ==> stake_scan(attrs, now_text) is Ok,
    decreases attrs.len(),
{
    if attrs.len() > 0 {
        let prev = attrs.drop_last();
        let a = attrs.last();
        lemma_stake_scan_refuses_active(prev, now_text);
        if holds_active_stake(prev) {
            let i = choose|i: int|
                0 <= i < prev.len() && (#[trigger] prev[i]).key == staked_key() && prev[i].value
                    != zero_text();
            assert(attrs[i] == prev[i]);
        }
        if holds_active_stake(attrs) && !holds_active_stake(prev) {
            let i = choose|i: int|
                0 <= i < attrs.len() && (#[trigger] attrs[i]).key == staked_key() && attrs[i].value
                    != zero_text();
            if i < prev.len() {
                assert(prev[i] == attrs[i]);
            }
            assert(i == attrs.len() - 1);
        }
        if !holds_active_stake(attrs) {
            assert(!(a.key == staked_key() && a.value != zero_text())) by {
                if a.key == staked_key() && a.value != zero_text() {
                    assert(attrs[attrs.len() - 1] == a);
                }
            }
            assert forall|i: int|
                0 <= i < prev.len() && (#[trigger] prev[i]).key == staked_key() implies prev[i].value
                == zero_text() by {
                assert(attrs[i] == prev[i]);
            }
        }
    }
}

/// Staking is refused, with `AlreadyStaked`, exactly when the asset's attributes
/// hold a stake time other than `0`; whatever else happened to the asset since it
/// was staked (claims, other edits), it cannot be staked again until that stake
/// time is set back to `0`.
pub proof fn law_stake_refused_while_staked(attrs: Seq<AttributeView>, now: i64)
    ensures
        holds_active_stake(attrs) ==> stake_result(Some(attrs), now) == Err::<
            StakePlanView,
            StakingError,
        >(StakingError::AlreadyStaked),
        !holds_active_stake(attrs) ==> stake_result(Some(attrs), now) is Ok,
{
    lemma_stake_scan_refuses_active(attrs, decimal_text(now as int));
}

/// A stake at a non-zero time leaves the asset staked.
pub proof fn law_stake_marks_asset_staked(
    existing: Option<Seq<AttributeView>>,
    staked_at: i64,
)
    requires
        staked_at != 0,
        stake_result(existing, staked_at) is Ok,
    ensures
        holds_active_stake(stake_result(existing, staked_at)->Ok_0.attributes()),
{
    lemma_stake_output(existing, staked_at);
    lemma_decimal_text_zero(staked_at as int);
    lemma_key_texts();
    let out = stake_result(existing, staked_at)->Ok_0.attributes();
    let list = out.drop_last();
    lemma_has_key_witness(list, staked_key());
    let i = choose|i: int| 0 <= i < list.len() && (#[trigger] list[i]).key == staked_key();
    assert(list[i].value == decimal_text(staked_at as int));
    assert(out[i] == list[i]);
}

/// A claim leaves a staked asset staked: every stake time it holds is kept.
pub proof fn law_claim_keeps_asset_staked(attrs: Seq<AttributeView>, now: i64, config: Config)
    requires
        holds_active_stake(attrs),
        claim_result(attrs, now, config) is Ok,
    ensures
        holds_active_stake(claim_result(attrs, now, config)->Ok_0.1),
{
    lemma_claim_scan_kept(attrs);
    lemma_key_texts();
    broadcast use vstd::seq_lib::group_filter_ensures;

    let i = choose|i: int|
        0 <= i < attrs.len() && (#[trigger] attrs[i]).key == staked_key() && attrs[i].value
            != zero_text();
    let kept = attrs.filter(kept_on_claim());
    assert(kept_on_claim()(attrs[i]));
    assert(kept.contains(attrs[i]));
    let j = choose|j: int| 0 <= j < kept.len() && kept[j] == attrs[i];
    let out = claim_result(attrs, now, config)->Ok_0.1;
    assert(out[j] == kept[j]);
}

/// An asset staked at a non-zero time and then claimed on cannot be staked again.
pub proof fn law_no_stake_after_stake_and_claim(
    existing: Option<Seq<AttributeView>>,
    staked_at: i64,
    claimed_at: i64,
    later: i64,
    config: Config,
)
    requires
        staked_at != 0,
        stake_result(existing, staked_at) is Ok,
        claim_result(stake_result(existing, staked_at)->Ok_0.attributes(), claimed_at, config) is Ok,
    ensures
        stake_result(
            Some(
                claim_result(
                    stake_result(existing, staked_at)->Ok_0.attributes(),
                    claimed_at,
                    config,
                )->Ok_0.1,
            ),
            later,
        ) == Err::<StakePlanView, StakingError>(StakingError::AlreadyStaked),
{
    let staked = stake_result(existing, staked_at)->Ok_0.attributes();
    law_stake_marks_asset_staked(existing, staked_at);
    law_claim_keeps_asset_staked(staked, claimed_at, config);
    law_stake_refused_while_staked(claim_result(staked, claimed_at, config)->Ok_0.1, later);
}

/// A reward rate is accepted exactly when it is a multiple of one whole token,
/// `1_000_000` base units, however large.
pub proof fn law_whole_token_rates_are_exactly_multiples_of_a_token(reward_rate_per_sec: u64)
    ensures
        is_whole_token_rate(reward_rate_per_sec) <==> reward_rate_per_sec % 1_000_000 == 0,
{
}

/// The freeze period ends `freeze_period` seconds after the stake and not before;
/// only an unlock time beyond `i64::MAX` is an overflow.
pub proof fn law_freeze_period_ends_after_freeze_period(
    staked_at: i64,
    freeze_period: u16,
    now: i64,
)
    ensures
        staked_at + freeze_period <= i64::MAX && now >= staked_at + freeze_period ==> freeze_check(
            staked_at,
            freeze_period,
            now,
        ) == Ok::<(), StakingError>(()),
        staked_at + freeze_period <= i64::MAX && now < staked_at + freeze_period ==> freeze_check(
            staked_at,
            freeze_period,
            now,
        ) == Err::<(), StakingError>(StakingError::FreezePeriodNotElapsed),
        staked_at + freeze_period > i64::MAX ==> freeze_check(staked_at, freeze_period, now)
            == Err::<(), StakingError>(StakingError::Overflow),
{
}

/// Rewards are owed from the last claim, or from the stake when no claim (or a
/// claim at time zero) is recorded; a last claim before the stake is refused.
pub proof fn law_claim_starts_at_last_claim_or_stake(staked_at: i64, t: i64)
    ensures
        resolve_claim_from_result(staked_at, None) == Ok::<i64, StakingError>(staked_at),
        resolve_claim_from_result(staked_at, Some(0)) == Ok::<i64, StakingError>(staked_at),
        t != 0 && t >= staked_at ==> resolve_claim_from_result(staked_at, Some(t)) == Ok::<
            i64,
            StakingError,
        >(t),
        t != 0 && t < staked_at ==> resolve_claim_from_result(staked_at, Some(t)) == Err::<
            i64,
            StakingError,
        >(StakingError::InvalidTimestamp),
{
}

/// The reward is the rate times the seconds elapsed, whenever time has passed
/// and neither the span nor the product overflows; each refusal comes only from
/// its own cause.
pub proof fn law_reward_is_rate_times_elapsed(now: i64, claim_from: i64, reward_rate_per_sec: u64)
    ensures
        claim_from < now && now - claim_from <= i64::MAX && (now - claim_from) * reward_rate_per_sec
            <= u64::MAX ==> reward_amount(now, claim_from, reward_rate_per_sec) == Ok::<
            u64,
            StakingError,
        >(((now - claim_from) * reward_rate_per_sec) as u64),
        claim_from < now && now - claim_from <= i64::MAX && (now - claim_from) * reward_rate_per_sec
            > u64::MAX ==> reward_amount(now, claim_from, reward_rate_per_sec) == Err::<
            u64,
            StakingError,
        >(StakingError::Overflow),
        claim_from < now && now - claim_from > i64::MAX ==> reward_amount(
            now,
            claim_from,
            reward_rate_per_sec,
        ) == Err::<u64, StakingError>(StakingError::Underflow),
        claim_from == now ==> reward_amount(now, claim_from, reward_rate_per_sec) == Err::<
            u64,
            StakingError,
        >(StakingError::NoRewardsToClaim),
        claim_from > now ==> reward_amount(now, claim_from, reward_rate_per_sec) == Err::<
            u64,
            StakingError,
        >(StakingError::InvalidTimestamp),
        claim_from <= now && now - claim_from <= i64::MAX && (now - claim_from) * reward_rate_per_sec
            <= u64::MAX ==> reward_amount_if_any(now, claim_from, reward_rate_per_sec) == Ok::<
            u64,
            StakingError,
        >(((now - claim_from) * reward_rate_per_sec) as u64),
        claim_from > now ==> reward_amount_if_any(now, claim_from, reward_rate_per_sec) == Err::<
            u64,
            StakingError,
        >(StakingError::InvalidTimestamp),
{
}

/// The only freeze condition on a claim is the freeze period counted from the
/// stake: once it has passed, a claim whose start lies between the stake and now
/// pays the rate times the seconds since that start and records the claim time;
/// before it has passed, the claim is refused.
pub proof fn law_claim_succeeds_once_unfrozen(attrs: Seq<AttributeView>, now: i64, config: Config)
    requires
        claim_scan(attrs) is Ok,
        claim_scan(attrs)->Ok_0.staked_at is Some,
    ensures
        ({
            let st = claim_scan(attrs)->Ok_0;
            let staked_at = st.staked_at->Some_0;
            let from = match st.last_claimed_at {
                Some(t) => if t != 0 {
                    t
                } else {
                    staked_at
                },
                None => staked_at,
            };
            let rate = config.reward_rate_per_sec;
            &&& (staked_at + config.freeze_period <= now && staked_at <= from && from < now && now
                - from <= i64::MAX && (now - from) * rate <= u64::MAX) ==> claim_result(
                attrs,
                now,
                config,
            ) == Ok::<(u64, Seq<AttributeView>), StakingError>(
                (((now - from) * rate) as u64, st.kept.push(claim_record(now))),
            )
            &&& (staked_at + config.freeze_period <= i64::MAX && now < staked_at
                + config.freeze_period) ==> claim_result(attrs, now, config) == Err::<
                (u64, Seq<AttributeView>),
                StakingError,
            >(StakingError::FreezePeriodNotElapsed)
        }),
{
}

/// Attributes that record neither a stake time nor a claim are read without error
/// and all kept.
proof fn lemma_claim_scan_plain(others: Seq<AttributeView>)
    requires
        forall|i: int|
            0 <= i < others.len() ==> (#[trigger] others[i]).key != staked_key() && others[i].key
                != last_claimed_key(),
    ensures
        claim_scan(others) == Ok::<ClaimScan, StakingError>(
            ClaimScan { staked_at: None, last_claimed_at: None, kept: others },
        ),
    decreases others.len(),
{
    if others.len() == 0 {
        assert(others =~= Seq::<AttributeView>::empty());
    } else {
        let prev = others.drop_last();
        assert forall|i: int| 0 <= i < prev.len() implies (#[trigger] prev[i]).key != staked_key()
            && prev[i].key != last_claimed_key() by {
            assert(prev[i] == others[i]);
        }
        lemma_claim_scan_plain(prev);
        assert(others.last() == others[others.len() - 1]);
        assert(prev.push(others.last()) =~= others);
    }
}

/// Attributes that record neither a stake time nor a claim are kept by a stake,
/// which finds no stake time.
proof fn lemma_stake_scan_plain(others: Seq<AttributeView>, now_text: Seq<char>)
    requires
        forall|i: int|
            0 <= i < others.len() ==> (#[trigger] others[i]).key != staked_key() && others[i].key
                != last_claimed_key(),
    ensures
        stake_scan(others, now_text) == Ok::<StakeScan, StakingError>(
            StakeScan { initialized: false, kept: others },
        ),
    decreases others.len(),
{
    if others.len() == 0 {
        assert(others =~= Seq::<AttributeView>::empty());
    } else {
        let prev = others.drop_last();
        assert forall|i: int| 0 <= i < prev.len() implies (#[trigger] prev[i]).key != staked_key()
            && prev[i].key != last_claimed_key() by {
            assert(prev[i] == others[i]);
        }
        lemma_stake_scan_plain(prev, now_text);
        assert(others.last() == others[others.len() - 1]);
        assert(prev.push(others.last()) =~= others);
    }
}

/// A claim on an asset whose attributes are any others, then its stake time
/// `staked_at` and its last claim time `last`, both written in decimal: once
/// the freeze period from the stake has passed and `staked_at <= last < now`, it
/// pays the rate times `now - last` and keeps the others and the stake time, with
/// the new claim time last.
pub proof fn law_claim_on_recorded_times(
    others: Seq<AttributeView>,
    staked_at: i64,
    last: i64,
    now: i64,
    config: Config,
)
    requires
        forall|i: int|
            0 <= i < others.len() ==> (#[trigger] others[i]).key != staked_key() && others[i].key
                != last_claimed_key(),
        staked_at != 0,
        last != 0,
        staked_at + config.freeze_period <= now,
        staked_at <= last < now,
        now - last <= i64::MAX,
        (now - last) * config.reward_rate_per_sec <= u64::MAX,
    ensures
        ({
            let stake_record = attribute(staked_key(), decimal_text(staked_at as int));
            let attrs = others.push(stake_record).push(claim_record(last));
            claim_result(attrs, now, config) == Ok::<(u64, Seq<AttributeView>), StakingError>(
                (
                    ((now - last) * config.reward_rate_per_sec) as u64,
                    others.push(stake_record).push(claim_record(now)),
                ),
            )
        }),
{
    lemma_key_texts();
    lemma_claim_scan_plain(others);
    lemma_parse_decimal_roundtrip(staked_at);
    lemma_parse_decimal_roundtrip(last);
    let stake_record = attribute(staked_key(), decimal_text(staked_at as int));
    let with_stake = others.push(stake_record);
    let attrs = with_stake.push(claim_record(last));
    assert(with_stake.drop_last() =~= others);
    assert(attrs.drop_last() =~= with_stake);
    assert(claim_scan(with_stake) == Ok::<ClaimScan, StakingError>(
        ClaimScan { staked_at: Some(staked_at), last_claimed_at: None, kept: with_stake },
    ));
    law_claim_succeeds_once_unfrozen(attrs, now, config);
}

/// Staking an asset that already has attributes always rewrites them in place;
/// attributes are added only to an asset that has none.
pub proof fn law_stake_updates_existing_attributes(attrs: Seq<AttributeView>, now: i64)
    ensures
        stake_result(Some(attrs), now) matches Ok(plan) ==> plan is UpdateAttributes,
        stake_result(None, now) matches Ok(plan) && plan is AddAttributes,
{
}

/// Staking at `now` an asset whose attributes record neither a stake nor a
/// claim keeps them and appends the stake time, a zero staked time and the stake
/// time as the last claim; an asset with no attributes gets just those three.
pub proof fn law_stake_on_unstaked_attributes(others: Seq<AttributeView>, now: i64)
    requires
        forall|i: int|
            0 <= i < others.len() ==> (#[trigger] others[i]).key != staked_key() && others[i].key
                != last_claimed_key(),
    ensures
        ({
            let t = decimal_text(now as int);
            let written = seq![
                attribute(staked_key(), t),
                attribute(staked_time_key(), zero_text()),
                attribute(last_claimed_key(), t),
            ];
            &&& stake_result(Some(others), now) == Ok::<StakePlanView, StakingError>(
                StakePlanView::UpdateAttributes(others + written),
            )
            &&& stake_result(None, now) == Ok::<StakePlanView, StakingError>(
                StakePlanView::AddAttributes(written),
            )
        }),
{
    let t = decimal_text(now as int);
    lemma_stake_scan_plain(others, t);
    let written = seq![
        attribute(staked_key(), t),
        attribute(staked_time_key(), zero_text()),
        attribute(last_claimed_key(), t),
    ];
    assert(others.push(attribute(staked_key(), t)).push(attribute(staked_time_key(), zero_text())).push(
        attribute(last_claimed_key(), t),
    ) =~= others + written);
}

/// A claim on an asset with no stake time is refused as not initialized; one
/// whose stake time does not read as a number is refused as an invalid
/// timestamp; one whose stake time reads as zero is refused as not staked.
pub proof fn law_claim_refuses_missing_or_bad_stake_time(
    others: Seq<AttributeView>,
    value: Seq<char>,
    now: i64,
    config: Config,
)
    requires
        forall|i: int|
            0 <= i < others.len() ==> (#[trigger] others[i]).key != staked_key() && others[i].key
                != last_claimed_key(),
    ensures
        claim_result(others, now, config) == Err::<(u64, Seq<AttributeView>), StakingError>(
            StakingError::StakingNotInitialized,
        ),
        parsed_i64(value) is None ==> claim_result(
            others.push(attribute(staked_key(), value)),
            now,
            config,
        ) == Err::<(u64, Seq<AttributeView>), StakingError>(StakingError::InvalidTimestamp),
        parsed_i64(value) == Some(0i64) ==> claim_result(
            others.push(attribute(staked_key(), value)),
            now,
            config,
        ) == Err::<(u64, Seq<AttributeView>), StakingError>(StakingError::NotStaked),
{
    lemma_claim_scan_plain(others);
    assert(others.push(attribute(staked_key(), value)).drop_last() =~= others);
}

/// Staking at `now` an unstaked asset (stake time `0`) that recorded a claim
/// resets the stake time to `now`, drops the old claim record and records `now`
/// as the last claim, keeping the other attributes.
pub proof fn law_stake_resets_unstaked_asset(others: Seq<AttributeView>, old_claim: Seq<char>, now: i64)
    requires
        forall|i: int|
            0 <= i < others.len() ==> (#[trigger] others[i]).key != staked_key() && others[i].key
                != last_claimed_key(),
    ensures
        ({
            let t = decimal_text(now as int);
            let attrs = others.push(attribute(staked_key(), zero_text())).push(
                attribute(last_claimed_key(), old_claim),
            );
            stake_result(Some(attrs), now) == Ok::<StakePlanView, StakingError>(
                StakePlanView::UpdateAttributes(
                    others.push(attribute(staked_key(), t)).push(attribute(last_claimed_key(), t)),
                ),
            )
        }),
{
    lemma_key_texts();
    let t = decimal_text(now as int);
    lemma_stake_scan_plain(others, t);
    let with_stake = others.push(attribute(staked_key(), zero_text()));
    let attrs = with_stake.push(attribute(last_claimed_key(), old_claim));
    assert(with_stake.drop_last() =~= others);
    assert(attrs.drop_last() =~= with_stake);
    let kept = others.push(attribute(staked_key(), t));
    assert(stake_scan(with_stake, t) == Ok::<StakeScan, StakingError>(
        StakeScan { initialized: true, kept },
    ));
    assert(stake_scan(attrs, t) == Ok::<StakeScan, StakingError>(
        StakeScan { initialized: true, kept },
    ));
}

} // verus!

//! Staking an asset: record the stake time in its attributes, or create the
//! attributes when the asset has none yet.

use vstd::prelude::*;

use crate::decimal::{decimal_text, i64_to_string};
use crate::errors::StakingError;
use crate::state::{
    attribute, attributes_view, last_claimed_key, last_claimed_key_string, staked_key,
    staked_key_string, staked_time_key, staked_time_key_string, zero_string, zero_text,
    Attribute, AttributeView,
};

verus! {

/// How the asset's attributes change when it is staked.
pub enum StakePlan {
    /// The asset had attributes: replace them with these.
    UpdateAttributes(Vec<Attribute>),
    /// The asset had no attributes: add these.
    AddAttributes(Vec<Attribute>),
}

/// The text of a `StakePlan`.
pub enum StakePlanView {
    UpdateAttributes(Seq<AttributeView>),
    AddAttributes(Seq<AttributeView>),
}

impl View for StakePlan {
    type V = StakePlanView;

    open spec fn view(&self) -> StakePlanView {
        match self {
            StakePlan::UpdateAttributes(v) => StakePlanView::UpdateAttributes(attributes_view(v@)),
            StakePlan::AddAttributes(v) => StakePlanView::AddAttributes(attributes_view(v@)),
        }
    }
}

impl StakePlanView {
    /// The attributes the asset has after staking.
    pub open spec fn attributes(self) -> Seq<AttributeView> {
        match self {
            StakePlanView::UpdateAttributes(v) => v,
            StakePlanView::AddAttributes(v) => v,
        }
    }
}

/// What rewriting an asset's attributes has produced so far.
pub struct StakeScan {
    /// A stake-time attribute was found (and reset to the new stake time).
    pub initialized: bool,
    pub kept: Seq<AttributeView>,
}

/// Rewriting one attribute: a stake time must be `0` (not staked) and becomes
/// `now_text`; a last-claim time is dropped; others are kept.
pub open spec fn stake_scan_step(st: StakeScan, a: AttributeView, now_text: Seq<char>) -> Result<
    StakeScan,
    StakingError,
> {
    if a.key == staked_key() {
        if a.value == zero_text() {
            Ok(StakeScan { initialized: true, kept: st.kept.push(attribute(staked_key(), now_text)) })
        } else {
            Err(StakingError::AlreadyStaked)
        }
    } else if a.key != last_claimed_key() {
        Ok(StakeScan { kept: st.kept.push(a), ..st })
    } else {
        Ok(st)
    }
}

/// Rewriting attributes in order; the first error stops it.
pub open spec fn stake_scan(attrs: Seq<AttributeView>, now_text: Seq<char>) -> Result<
    StakeScan,
    StakingError,
>
    decreases attrs.len(),
{
    if attrs.len() == 0 {
        Ok(StakeScan { initialized: false, kept: Seq::empty() })
    } else {
        match stake_scan(attrs.drop_last(), now_text) {
            Err(e) => Err(e),
            Ok(st) => stake_scan_step(st, attrs.last(), now_text),
        }
    }
}

/// The attributes of an asset staked at `now` that had none.
pub open spec fn fresh_stake_attributes(now: i64) -> Seq<AttributeView> {
    let t = decimal_text(now as int);
    seq![
        attribute(staked_key(), t),
        attribute(staked_time_key(), zero_text()),
        attribute(last_claimed_key(), t),
    ]
}

/// What staking at `now` gives, for an asset whose attributes are `existing`
/// (`None` when it has none).
pub open spec fn stake_result(existing: Option<Seq<AttributeView>>, now: i64) -> Result<
    StakePlanView,
    StakingError,
> {
    let t = decimal_text(now as int);
    match existing {
        None => Ok(StakePlanView::AddAttributes(fresh_stake_attributes(now))),
        Some(attrs) => match stake_scan(attrs, t) {
            Err(e) => Err(e),
            Ok(st) => {
                let list = if st.initialized {
                    st.kept
                } else {
                    st.kept.push(attribute(staked_key(), t)).push(
                        attribute(staked_time_key(), zero_text()),
                    )
                };
                Ok(StakePlanView::UpdateAttributes(list.push(attribute(last_claimed_key(), t))))
            },
        },
    }
}

proof fn lemma_stake_scan_error_sticks(attrs: Seq<AttributeView>, now_text: Seq<char>, i: int)
    requires
        0 <= i <= attrs.len(),
        stake_scan(attrs.take(i), now_text) is Err,
    ensures
        stake_scan(attrs, now_text) == stake_scan(attrs.take(i), now_text),
    decreases attrs.len() - i,
{
    if i == attrs.len() {
        assert(attrs.take(i) =~= attrs);
    } else {
        assert(attrs.take(i + 1).drop_last() =~= attrs.take(i));
        lemma_stake_scan_error_sticks(attrs, now_text, i + 1);
    }
}

/// The attributes of an asset staked at `now` that had none.
fn fresh_attributes(now: i64) -> (v: Vec<Attribute>)
    ensures
        attributes_view(v@) == fresh_stake_attributes(now),
{
    let mut v: Vec<Attribute> = Vec::new();
    v.push(Attribute::new(staked_key_string(), i64_to_string(now)));
    v.push(Attribute::new(staked_time_key_string(), zero_string()));
    v.push(Attribute::new(last_claimed_key_string(), i64_to_string(now)));
    assert(attributes_view(v@) =~= fresh_stake_attributes(now));
    v
}

/// The text of the attributes an asset may already have.
pub open spec fn existing_view(existing: Option<&Vec<Attribute>>) -> Option<Seq<AttributeView>> {
    match existing {
        Some(v) => Some(attributes_view(v@)),
        None => None,
    }
}

/// Stakes an asset at time `now`. `existing` holds its attributes, or `None`
/// when it has none yet.
pub fn stake(existing: Option<&Vec<Attribute>>, now: i64) -> (res: Result<StakePlan, StakingError>)
    ensures
        match res {
            Ok(plan) => stake_result(existing_view(existing), now) == Ok::<
                StakePlanView,
                StakingError,
            >(plan@),
            Err(e) => stake_result(existing_view(existing), now) == Err::<StakePlanView, StakingError>(
                e,
            ),
        },
{
    let attributes = match existing {
        None => {
            return Ok(StakePlan::AddAttributes(fresh_attributes(now)));
        },
        Some(v) => v,
    };
    let ghost attrs = attributes_view(attributes@);
    assert(existing_view(existing) == Some(attrs));
    let ghost t = decimal_text(now as int);
    let now_str = i64_to_string(now);
    let staked = staked_key_string();
    let last_claimed = last_claimed_key_string();
    let zero = zero_string();
    let mut attribute_list: Vec<Attribute> = Vec::new();
    let mut is_initialized = false;
    let mut i: usize = 0;
    assert(attrs.take(0) =~= Seq::<AttributeView>::empty());
    assert(attributes_view(attribute_list@) =~= Seq::<AttributeView>::empty());
    while i < attributes.len()
        invariant
            i <= attributes.len(),
            attrs == attributes_view(attributes@),
            existing_view(existing) == Some(attrs),
            t == decimal_text(now as int),
            now_str@ == t,
            staked@ == staked_key(),
            last_claimed@ == last_claimed_key(),
            zero@ == zero_text(),
            stake_scan(attrs.take(i as int), t) == Ok::<StakeScan, StakingError>(
                StakeScan { initialized: is_initialized, kept: attributes_view(attribute_list@) },
            ),
        decreases attributes.len() - i,
    {
        let a = &attributes[i];
        assert(attrs.take(i + 1).drop_last() =~= attrs.take(i as int));
        assert(attrs.take(i + 1).last() == a@);
        if a.key == staked {
            if !(a.value == zero) {
                proof {
                    lemma_stake_scan_error_sticks(attrs, t, i + 1);
                }
                return Err(StakingError::AlreadyStaked);
            }
            attribute_list.push(Attribute::new(staked.clone(), now_str.clone()));
            is_initialized = true;
        } else if !(a.key == last_claimed) {
            attribute_list.push(a.duplicate());
        }
        assert(attributes_view(attribute_list@) =~= stake_scan(attrs.take(i + 1), t)->Ok_0.kept);
        i = i + 1;
    }
    assert(attrs.take(i as int) =~= attrs);
    let ghost kept = attributes_view(attribute_list@);
    if !is_initialized {
        attribute_list.push(Attribute::new(staked, now_str.clone()));
        attribute_list.push(Attribute::new(staked_time_key_string(), zero_string()));
    }
    let ghost middle = attributes_view(attribute_list@);
    assert(middle =~= (if is_initialized {
        kept
    } else {
        kept.push(attribute(staked_key(), t)).push(attribute(staked_time_key(), zero_text()))
    }));
    attribute_list.push(Attribute::new(last_claimed, now_str));
    assert(attributes_view(attribute_list@) =~= middle.push(attribute(last_claimed_key(), t)));
    Ok(StakePlan::UpdateAttributes(attribute_list))
}

} // verus!

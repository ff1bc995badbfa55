//! The program's configuration account and the attributes kept on each asset.

use vstd::prelude::*;

use crate::rewards::is_whole_token_rate;

verus! {

/// Staking configuration of one collection.
#[derive(Clone, Copy, Debug, PartialEq, Eq, Structural)]
pub struct Config {
    /// Whole tokens per second in base units (6 decimals). Must be a multiple of
    /// 1_000_000 (e.g. 1_000_000 = 1 token/sec).
    pub reward_rate_per_sec: u64,
    /// Seconds an asset stays frozen after it is staked.
    pub freeze_period: u16,
    pub rewards_bump: u8,
    pub config_bump: u8,
}

impl Config {
    /// A configuration whose reward rate pays whole tokens per second.
    pub open spec fn well_formed(&self) -> bool {
        is_whole_token_rate(self.reward_rate_per_sec)
    }
}

/// A key/value attribute stored on an asset.
#[derive(Debug, PartialEq, Eq)]
pub struct Attribute {
    pub key: String,
    pub value: String,
}

/// The text of an attribute.
pub struct AttributeView {
    pub key: Seq<char>,
    pub value: Seq<char>,
}

impl View for Attribute {
    type V = AttributeView;

    open spec fn view(&self) -> AttributeView {
        AttributeView { key: self.key@, value: self.value@ }
    }
}

/// The text of a list of attributes.
pub open spec fn attributes_view(attrs: Seq<Attribute>) -> Seq<AttributeView> {
    attrs.map_values(|a: Attribute| a@)
}

/// An attribute with the given key and value.
pub open spec fn attribute(key: Seq<char>, value: Seq<char>) -> AttributeView {
    AttributeView { key, value }
}

/// Key of the attribute that holds the time an asset was staked ("0" when it is not).
pub open spec fn staked_key() -> Seq<char> {
    "staked"@
}

/// Key of the attribute that holds the time rewards were last claimed.
pub open spec fn last_claimed_key() -> Seq<char> {
    "last_claimed_at"@
}

/// Key of the attribute that accumulates staked time.
pub open spec fn staked_time_key() -> Seq<char> {
    "staked_time"@
}

/// Key of the collection attribute that counts staked assets.
pub open spec fn staked_nfts_key() -> Seq<char> {
    "staked_nfts"@
}

/// The text `0`.
pub open spec fn zero_text() -> Seq<char> {
    "0"@
}

/// The attribute keys are distinct texts, and `zero_text` is the digit zero.
pub proof fn lemma_key_texts()
    ensures
        staked_key() != last_claimed_key(),
        staked_key() != staked_time_key(),
        last_claimed_key() != staked_time_key(),
        zero_text() == seq!['0'],
{
    reveal_strlit("staked");
    reveal_strlit("last_claimed_at");
    reveal_strlit("staked_time");
    reveal_strlit("0");
    assert(staked_key().len() != last_claimed_key().len());
    assert(staked_key().len() != staked_time_key().len());
    assert(last_claimed_key().len() != staked_time_key().len());
    assert(zero_text() =~= seq!['0']);
}

impl Attribute {
    /// An attribute with the given key and value.
    pub fn new(key: String, value: String) -> (a: Attribute)
        ensures
            a@ == attribute(key@, value@),
    {
        Attribute { key, value }
    }

    /// A copy of this attribute.
    pub fn duplicate(&self) -> (a: Attribute)
        ensures
            a@ == self@,
    {
        Attribute { key: self.key.clone(), value: self.value.clone() }
    }
}

pub(crate) fn staked_key_string() -> (s: String)
    ensures
        s@ == staked_key(),
{
    String::from_str("staked")
}

pub(crate) fn last_claimed_key_string() -> (s: String)
    ensures
        s@ == last_claimed_key(),
{
    String::from_str("last_claimed_at")
}

pub(crate) fn staked_time_key_string() -> (s: String)
    ensures
        s@ == staked_time_key(),
{
    String::from_str("staked_time")
}

pub(crate) fn staked_nfts_key_string() -> (s: String)
    ensures
        s@ == staked_nfts_key(),
{
    String::from_str("staked_nfts")
}

pub(crate) fn zero_string() -> (s: String)
    ensures
        s@ == zero_text(),
{
    String::from_str("0")
}

} // verus!

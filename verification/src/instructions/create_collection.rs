//! Creating a collection: it starts with an attribute counting its staked assets.

use vstd::prelude::*;

use crate::state::{
    attribute, attributes_view, staked_nfts_key, staked_nfts_key_string, zero_string, zero_text,
    Attribute,
};

verus! {

/// The attributes a new collection is created with: no asset staked yet.
pub fn collection_attributes() -> (v: Vec<Attribute>)
    ensures
        attributes_view(v@) == seq![attribute(staked_nfts_key(), zero_text())],
{
    let mut v: Vec<Attribute> = Vec::new();
    v.push(Attribute::new(staked_nfts_key_string(), zero_string()));
    assert(attributes_view(v@) =~= seq![attribute(staked_nfts_key(), zero_text())]);
    v
}

} // verus!

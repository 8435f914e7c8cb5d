//! Instantiation: a fresh, empty, well-formed marketplace.

use vstd::prelude::*;
use crate::model::wf;
use crate::msg::InitMsg;
use crate::state::Marketplace;

verus! {

/// Instantiates the marketplace: no listings, no commitments, no
/// credentials.
pub fn init(_msg: InitMsg) -> (r: Marketplace)
    ensures
        wf(r),
        r.items@.len() == 0,
        r.group_sizes@.len() == 0,
        r.user_quantities@.len() == 0,
        r.user_details@.len() == 0,
        r.viewing_keys@.len() == 0,
{
    let m = Marketplace::new();
    proof {
        crate::model::lemma_new_marketplace_wf(m);
    }
    m
}

} // verus!

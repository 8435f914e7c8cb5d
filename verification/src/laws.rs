//! The cross-record laws of the marketplace, stated on their own. Every
//! mutating entry point requires a well-formed marketplace and ensures one,
//! so each of these holds at every point between invocations.

use vstd::prelude::*;
use crate::model::{agg_recs, aggregate_of, commitment_count, details_count, has_item, qty_in, qty_in_details, quantities_of, details_of, total_quantity, wf};
use crate::state::{known_category, Marketplace};

verus! {

/// The aggregate invariant: for every live item, the stored aggregate
/// equals the sum, over all accounts, of the quantities committed to it.
pub proof fn law_aggregate_is_sum_of_commitments(
    m: Marketplace,
    c: Seq<char>,
    u: Seq<char>,
    v: u32,
)
    requires
        wf(m),
        known_category(c),
        aggregate_of(m, c, u) == Some(v),
    ensures
        v as int == total_quantity(m, c, u),
{
    crate::model::lemma_wf_cat_of(m, c);
    assert(agg_recs(m, c, u).len() <= 1);
    assert(agg_recs(m, c, u).len() == 1);
}

/// Dual-index agreement: for every item and account, a by-item detail
/// record exists exactly when the matching by-account record exists, and
/// the two record the same positive quantity.
pub proof fn law_dual_index_agreement(m: Marketplace, c: Seq<char>, a: Seq<char>, u: Seq<char>)
    requires
        wf(m),
        known_category(c),
    ensures
        commitment_count(m, c, a, u) == details_count(m, c, u, a),
        commitment_count(m, c, a, u) == 1 ==> qty_in(quantities_of(m, c, a), u)
            == qty_in_details(details_of(m, c, u), a) && qty_in(quantities_of(m, c, a), u) >= 1,
{
    crate::model::lemma_wf_cat_of(m, c);
    if commitment_count(m, c, a, u) == 1 {
        let pu = crate::model::upq_url_is(u);
        crate::seq_facts::lemma_match_index_valid(quantities_of(m, c, a), pu);
    }
}

/// No double-join: an account never holds more than one by-account record
/// for one item, so a second join must be routed through an update.
pub proof fn law_no_duplicate_commitment(m: Marketplace, c: Seq<char>, a: Seq<char>, u: Seq<char>)
    requires
        wf(m),
        known_category(c),
    ensures
        commitment_count(m, c, a, u) <= 1,
{
    crate::model::lemma_wf_cat_of(m, c);
}

/// Commitments exist only against live items: once an item is finalized or
/// removed, no account holds a record for it.
pub proof fn law_commitments_only_for_live_items(
    m: Marketplace,
    c: Seq<char>,
    a: Seq<char>,
    u: Seq<char>,
)
    requires
        wf(m),
        known_category(c),
        !has_item(m, c, u),
    ensures
        commitment_count(m, c, a, u) == 0,
        details_of(m, c, u).len() == 0,
{
    crate::model::lemma_wf_cat_of(m, c);
    let q = quantities_of(m, c, a);
    let pu = crate::model::upq_url_is(u);
    crate::seq_facts::lemma_count_nonneg(q, pu);
    if commitment_count(m, c, a, u) > 0 {
        let i = crate::seq_facts::lemma_count_pos_witness(q, pu);
        assert(has_item(m, c, (quantities_of(m, c, a)[i]).url@));
        assert(false);
    }
    if details_of(m, c, u).len() > 0 {
        assert(has_item(m, c, u));
        assert(false);
    }
}

} // verus!

//! The mathematical model of the marketplace state: per-category views of
//! the catalog, the aggregate tracker and the participant ledger, and the
//! cross-record invariants that every invocation preserves — the aggregate
//! of an item always equals the sum of its participants' quantities, and
//! the two denormalized ledger views always agree record for record.

use vstd::prelude::*;
use crate::msg::{StaticItemData, UserItemDetails, UserProductQuantity};
use crate::seq_facts::{count_matching, lemma_count_at_least_one, lemma_match_index_valid, lemma_seq_sum_at_least_element, match_index, seq_sum};
use crate::state::{dynamic_prefix, known_category, static_prefix, stores_wf, users_prefix, Marketplace};
use crate::store::{has_region, lemma_regions_sum_at_least_region, recs, region_index, regions_sum};

verus! {

/// Matches a by-account commitment record for item `u`.
pub open spec fn upq_url_is(u: Seq<char>) -> spec_fn(UserProductQuantity) -> bool {
    |r: UserProductQuantity| r.url@ == u
}

/// The quantity a by-account record contributes to item `u`.
pub open spec fn upq_qty_for(u: Seq<char>) -> spec_fn(UserProductQuantity) -> int {
    |r: UserProductQuantity|
        if r.url@ == u {
            r.quantity as int
        } else {
            0
        }
}

/// Matches a by-item details record of account `a`.
pub open spec fn details_acct_is(a: Seq<char>) -> spec_fn(UserItemDetails) -> bool {
    |r: UserItemDetails| r.account_address@ == a
}

/// Matches a catalog entry for item `u`.
pub open spec fn item_url_is(u: Seq<char>) -> spec_fn(StaticItemData) -> bool {
    |r: StaticItemData| r.url@ == u
}

/// The catalog of category `c`.
pub open spec fn catalog_of(m: Marketplace, c: Seq<char>) -> Seq<StaticItemData> {
    recs(m.items@, static_prefix(c), ""@)
}

/// The one-slot aggregate region of item `u` in category `c`.
pub open spec fn agg_recs(m: Marketplace, c: Seq<char>, u: Seq<char>) -> Seq<u32> {
    recs(m.group_sizes@, dynamic_prefix(c), u)
}

/// The item's current aggregate, or `None` when the item no longer exists.
pub open spec fn aggregate_of(m: Marketplace, c: Seq<char>, u: Seq<char>) -> Option<u32> {
    if agg_recs(m, c, u).len() > 0 {
        Some(agg_recs(m, c, u)[0])
    } else {
        None
    }
}

/// Account `a`'s by-account commitment records in category `c`.
pub open spec fn quantities_of(m: Marketplace, c: Seq<char>, a: Seq<char>) -> Seq<
    UserProductQuantity,
> {
    recs(m.user_quantities@, dynamic_prefix(c), a)
}

/// Item `u`'s by-item participant details records in category `c`.
pub open spec fn details_of(m: Marketplace, c: Seq<char>, u: Seq<char>) -> Seq<UserItemDetails> {
    recs(m.user_details@, users_prefix(c), u)
}

/// Whether category `c` lists an item with url `u`.
pub open spec fn has_item(m: Marketplace, c: Seq<char>, u: Seq<char>) -> bool {
    exists|i: int|
        0 <= i < catalog_of(m, c).len() && #[trigger] catalog_of(m, c)[i].url@ == u
}

/// The listing of item `u`; meaningful only when `has_item` holds.
pub open spec fn item_of(m: Marketplace, c: Seq<char>, u: Seq<char>) -> StaticItemData {
    catalog_of(m, c)[match_index(catalog_of(m, c), item_url_is(u))]
}

/// How many by-account records account `a` holds for item `u`.
pub open spec fn commitment_count(m: Marketplace, c: Seq<char>, a: Seq<char>, u: Seq<char>) -> int {
    count_matching(quantities_of(m, c, a), upq_url_is(u))
}

/// How many by-item details records item `u` holds for account `a`.
pub open spec fn details_count(m: Marketplace, c: Seq<char>, u: Seq<char>, a: Seq<char>) -> int {
    count_matching(details_of(m, c, u), details_acct_is(a))
}

/// The quantity of the by-account record for `u`; meaningful when exactly
/// one exists.
pub open spec fn qty_in(q: Seq<UserProductQuantity>, u: Seq<char>) -> int {
    q[match_index(q, upq_url_is(u))].quantity as int
}

/// The quantity of the by-item details record of `a`; meaningful when
/// exactly one exists.
pub open spec fn qty_in_details(d: Seq<UserItemDetails>, a: Seq<char>) -> int {
    d[match_index(d, details_acct_is(a))].quantity as int
}

/// The committed quantity of account `a` for item `u`, as the by-account
/// ledger view records it.
pub open spec fn commitment_qty(m: Marketplace, c: Seq<char>, a: Seq<char>, u: Seq<char>) -> int {
    qty_in(quantities_of(m, c, a), u)
}

/// The sum, over every account, of the quantity committed to item `u` in
/// category `c`.
pub open spec fn total_quantity(m: Marketplace, c: Seq<char>, u: Seq<char>) -> int {
    regions_sum(m.user_quantities@, dynamic_prefix(c), upq_qty_for(u))
}

/// The cross-record invariants of one category.
pub open spec fn wf_cat(m: Marketplace, c: Seq<char>) -> bool {
    // Catalog urls are pairwise distinct.
    &&& (forall|i: int, j: int|
        #![trigger catalog_of(m, c)[i], catalog_of(m, c)[j]]
        0 <= i < j < catalog_of(m, c).len() ==> catalog_of(m, c)[i].url@ != catalog_of(
            m,
            c,
        )[j].url@)
    // An aggregate slot holds at most one value.
    &&& (forall|u: Seq<char>| #[trigger] agg_recs(m, c, u).len() <= 1)
    // An item is listed exactly while its aggregate slot is filled.
    &&& (forall|u: Seq<char>| #[trigger] has_item(m, c, u) <==> agg_recs(m, c, u).len() == 1)
    // The aggregate of every live item equals the sum of its participants'
    // committed quantities.
    &&& (forall|u: Seq<char>|
        #[trigger] agg_recs(m, c, u).len() == 1 ==> agg_recs(m, c, u)[0] == total_quantity(
            m,
            c,
            u,
        ))
    // Both ledger views hold the same number of records for every account
    // and item, and never more than one.
    &&& (forall|a: Seq<char>, u: Seq<char>|
        #![trigger commitment_count(m, c, a, u)]
        #![trigger details_count(m, c, u, a)]
        commitment_count(m, c, a, u) == details_count(m, c, u, a) && commitment_count(
            m,
            c,
            a,
            u,
        ) <= 1)
    // Where both views hold a record, the recorded quantities agree and are
    // positive.
    &&& (forall|a: Seq<char>, u: Seq<char>|
        #[trigger] commitment_count(m, c, a, u) == 1 ==> qty_in(quantities_of(m, c, a), u)
            == qty_in_details(details_of(m, c, u), a))
    // Every stored quantity is positive, in both views.
    &&& (forall|a: Seq<char>, i: int|
        0 <= i < quantities_of(m, c, a).len() ==> (#[trigger] quantities_of(m, c, a)[i]).quantity
            >= 1)
    &&& (forall|u: Seq<char>, j: int|
        0 <= j < details_of(m, c, u).len() ==> (#[trigger] details_of(m, c, u)[j]).quantity >= 1)
    // Commitments exist only for listed items.
    &&& (forall|a: Seq<char>, i: int|
        0 <= i < quantities_of(m, c, a).len() ==> has_item(
            m,
            c,
            (#[trigger] quantities_of(m, c, a)[i]).url@,
        ))
    &&& (forall|u: Seq<char>| #[trigger] details_of(m, c, u).len() > 0 ==> has_item(m, c, u))
}

/// The full well-formedness of the marketplace: distinct namespaces in
/// every store, and the cross-record invariants in every category.
pub open spec fn wf(m: Marketplace) -> bool {
    &&& stores_wf(m)
    &&& wf_cat(m, "laptops"@)
    &&& wf_cat(m, "keyboards"@)
    &&& wf_cat(m, "mouses"@)
    &&& wf_cat(m, "mouse-pads"@)
}

/// Nothing outside category `c`'s namespaces differs between `m0` and
/// `m1`, credentials included.
pub open spec fn untouched_outside_category(
    m0: Marketplace,
    m1: Marketplace,
    c: Seq<char>,
) -> bool {
    &&& m1.viewing_keys@ == m0.viewing_keys@
    &&& (forall|p2: Seq<char>, k2: Seq<char>|
        p2 != static_prefix(c) ==> #[trigger] recs(m1.items@, p2, k2) == recs(m0.items@, p2, k2))
    &&& (forall|p2: Seq<char>, k2: Seq<char>|
        p2 != dynamic_prefix(c) ==> #[trigger] recs(m1.group_sizes@, p2, k2) == recs(
            m0.group_sizes@,
            p2,
            k2,
        ))
    &&& (forall|p2: Seq<char>, k2: Seq<char>|
        p2 != dynamic_prefix(c) ==> #[trigger] recs(m1.user_quantities@, p2, k2) == recs(
            m0.user_quantities@,
            p2,
            k2,
        ))
    &&& (forall|p2: Seq<char>, k2: Seq<char>|
        p2 != users_prefix(c) ==> #[trigger] recs(m1.user_details@, p2, k2) == recs(
            m0.user_details@,
            p2,
            k2,
        ))
}

/// The by-account records with the unique record for item `u` swap-removed.
pub open spec fn minus_url(q: Seq<UserProductQuantity>, u: Seq<char>) -> Seq<UserProductQuantity> {
    q.update(match_index(q, upq_url_is(u)), q.last()).drop_last()
}

/// Some of the first `t` details records belongs to account `a2`.
pub open spec fn appears_before(d: Seq<UserItemDetails>, t: int, a2: Seq<char>) -> bool {
    exists|k: int| 0 <= k < t && #[trigger] d[k].account_address@ == a2
}

/// Item `u` of category `c` is fully gone in `m1`: its catalog entry was
/// swap-removed, its aggregate slot emptied, its by-item details region
/// emptied, and every account's by-account record for it swap-removed.
pub open spec fn item_torn_down(m0: Marketplace, m1: Marketplace, c: Seq<char>, u: Seq<char>) -> bool {
    &&& ({
        let cat0 = catalog_of(m0, c);
        let ci = match_index(cat0, item_url_is(u));
        &&& 0 <= ci < cat0.len()
        &&& cat0[ci].url@ == u
        &&& catalog_of(m1, c) == cat0.update(ci, cat0.last()).drop_last()
    })
    &&& agg_recs(m1, c, u).len() == 0
    &&& (forall|u2: Seq<char>| u2 != u ==> #[trigger] agg_recs(m1, c, u2) == agg_recs(m0, c, u2))
    &&& details_of(m1, c, u).len() == 0
    &&& (forall|u2: Seq<char>| u2 != u ==> #[trigger] details_of(m1, c, u2) == details_of(m0, c, u2))
    &&& (forall|a2: Seq<char>|
        #![trigger quantities_of(m1, c, a2)]
        {
            let q0 = quantities_of(m0, c, a2);
            let q1 = quantities_of(m1, c, a2);
            if count_matching(q0, upq_url_is(u)) == 1 {
                q1 == minus_url(q0, u)
            } else {
                q1 == q0
            }
        })
}

/// Under the invariants, an account's committed quantity never exceeds the
/// item's aggregate: the aggregate is the sum of all accounts' non-negative
/// contributions, of which this commitment is one.
pub proof fn lemma_commitment_le_aggregate(m: Marketplace, c: Seq<char>, a: Seq<char>, u: Seq<char>)
    requires
        wf(m),
        known_category(c),
        wf_cat(m, c),
        agg_recs(m, c, u).len() == 1,
        commitment_count(m, c, a, u) == 1,
    ensures
        commitment_qty(m, c, a, u) <= agg_recs(m, c, u)[0],
        commitment_qty(m, c, a, u) >= 1,
{
    let q = quantities_of(m, c, a);
    let f = upq_qty_for(u);
    lemma_match_index_valid(q, upq_url_is(u));
    let mi = match_index(q, upq_url_is(u));
    assert(f(q[mi]) == q[mi].quantity as int);
    assert(forall|t: UserProductQuantity| #[trigger] f(t) >= 0);
    assert(forall|j: int| 0 <= j < q.len() ==> #[trigger] f(q[j]) >= 0);
    lemma_seq_sum_at_least_element(q, f, mi);
    assert(q.len() > 0);
    assert(has_region(m.user_quantities@, dynamic_prefix(c), a));
    let ri = region_index(m.user_quantities@, dynamic_prefix(c), a);
    assert(0 <= ri < m.user_quantities@.len());
    assert(m.user_quantities@[ri].prefix == dynamic_prefix(c));
    assert(m.user_quantities@[ri].records == q);
    lemma_regions_sum_at_least_region(m.user_quantities@, dynamic_prefix(c), f, ri);
    assert(total_quantity(m, c, u) >= seq_sum(q, f));
    assert(agg_recs(m, c, u)[0] == total_quantity(m, c, u));
}

/// What appending one by-account record does to every committed-quantity
/// sum: only the pushed record's own contribution moves, and only under its
/// own prefix.
pub proof fn lemma_sums_after_push(
    v0: Seq<crate::store::RegionModel<UserProductQuantity>>,
    v1: Seq<crate::store::RegionModel<UserProductQuantity>>,
    p: Seq<char>,
    k: Seq<char>,
    rec: UserProductQuantity,
)
    requires
        crate::store::store_wf(v0),
        v1 == crate::store::with_region_records(v0, p, k, recs(v0, p, k).push(rec)),
    ensures
        forall|pf: Seq<char>, u2: Seq<char>|
            pf != p ==> #[trigger] regions_sum(v1, pf, upq_qty_for(u2)) == regions_sum(
                v0,
                pf,
                upq_qty_for(u2),
            ),
        forall|u2: Seq<char>|
            regions_sum(v1, p, #[trigger] upq_qty_for(u2)) == regions_sum(v0, p, upq_qty_for(u2))
                + (if rec.url@ == u2 {
                rec.quantity as int
            } else {
                0
            }),
{
    assert forall|pf: Seq<char>, u2: Seq<char>| pf != p implies #[trigger] regions_sum(
        v1,
        pf,
        upq_qty_for(u2),
    ) == regions_sum(v0, pf, upq_qty_for(u2)) by {
        crate::store::lemma_regions_sum_with_records(
            v0,
            p,
            k,
            recs(v0, p, k).push(rec),
            pf,
            upq_qty_for(u2),
        );
    }
    assert forall|u2: Seq<char>|
        regions_sum(v1, p, #[trigger] upq_qty_for(u2)) == regions_sum(v0, p, upq_qty_for(u2)) + (
        if rec.url@ == u2 {
            rec.quantity as int
        } else {
            0
        }) by {
        crate::store::lemma_regions_sum_with_records(
            v0,
            p,
            k,
            recs(v0, p, k).push(rec),
            p,
            upq_qty_for(u2),
        );
        crate::seq_facts::lemma_seq_sum_push(recs(v0, p, k), upq_qty_for(u2), rec);
    }
}

/// What overwriting one by-account record does to every committed-quantity
/// sum.
pub proof fn lemma_sums_after_update(
    v0: Seq<crate::store::RegionModel<UserProductQuantity>>,
    v1: Seq<crate::store::RegionModel<UserProductQuantity>>,
    p: Seq<char>,
    k: Seq<char>,
    i: int,
    rec: UserProductQuantity,
)
    requires
        crate::store::store_wf(v0),
        0 <= i < recs(v0, p, k).len(),
        v1 == crate::store::with_region_records(v0, p, k, recs(v0, p, k).update(i, rec)),
    ensures
        forall|pf: Seq<char>, u2: Seq<char>|
            pf != p ==> #[trigger] regions_sum(v1, pf, upq_qty_for(u2)) == regions_sum(
                v0,
                pf,
                upq_qty_for(u2),
            ),
        forall|u2: Seq<char>|
            regions_sum(v1, p, #[trigger] upq_qty_for(u2)) == regions_sum(v0, p, upq_qty_for(u2))
                - upq_qty_for(u2)(recs(v0, p, k)[i]) + upq_qty_for(u2)(rec),
{
    assert forall|pf: Seq<char>, u2: Seq<char>| pf != p implies #[trigger] regions_sum(
        v1,
        pf,
        upq_qty_for(u2),
    ) == regions_sum(v0, pf, upq_qty_for(u2)) by {
        crate::store::lemma_regions_sum_with_records(
            v0,
            p,
            k,
            recs(v0, p, k).update(i, rec),
            pf,
            upq_qty_for(u2),
        );
    }
    assert forall|u2: Seq<char>|
        regions_sum(v1, p, #[trigger] upq_qty_for(u2)) == regions_sum(v0, p, upq_qty_for(u2))
            - upq_qty_for(u2)(recs(v0, p, k)[i]) + upq_qty_for(u2)(rec) by {
        crate::store::lemma_regions_sum_with_records(
            v0,
            p,
            k,
            recs(v0, p, k).update(i, rec),
            p,
            upq_qty_for(u2),
        );
        crate::seq_facts::lemma_seq_sum_update(recs(v0, p, k), upq_qty_for(u2), i, rec);
    }
}

/// What swap-removing one by-account record does to every
/// committed-quantity sum: only the removed record's contribution moves.
pub proof fn lemma_sums_after_swap_remove(
    v0: Seq<crate::store::RegionModel<UserProductQuantity>>,
    v1: Seq<crate::store::RegionModel<UserProductQuantity>>,
    p: Seq<char>,
    k: Seq<char>,
    i: int,
)
    requires
        crate::store::store_wf(v0),
        0 <= i < recs(v0, p, k).len(),
        v1 == crate::store::with_region_records(
            v0,
            p,
            k,
            recs(v0, p, k).update(i, recs(v0, p, k).last()).drop_last(),
        ),
    ensures
        forall|pf: Seq<char>, u2: Seq<char>|
            pf != p ==> #[trigger] regions_sum(v1, pf, upq_qty_for(u2)) == regions_sum(
                v0,
                pf,
                upq_qty_for(u2),
            ),
        forall|u2: Seq<char>|
            regions_sum(v1, p, #[trigger] upq_qty_for(u2)) == regions_sum(v0, p, upq_qty_for(u2))
                - upq_qty_for(u2)(recs(v0, p, k)[i]),
{
    let s = recs(v0, p, k);
    let rs = s.update(i, s.last()).drop_last();
    assert forall|pf: Seq<char>, u2: Seq<char>| pf != p implies #[trigger] regions_sum(
        v1,
        pf,
        upq_qty_for(u2),
    ) == regions_sum(v0, pf, upq_qty_for(u2)) by {
        crate::store::lemma_regions_sum_with_records(v0, p, k, rs, pf, upq_qty_for(u2));
    }
    assert forall|u2: Seq<char>|
        regions_sum(v1, p, #[trigger] upq_qty_for(u2)) == regions_sum(v0, p, upq_qty_for(u2))
            - upq_qty_for(u2)(s[i]) by {
        crate::store::lemma_regions_sum_with_records(v0, p, k, rs, p, upq_qty_for(u2));
        crate::seq_facts::lemma_seq_sum_swap_remove(s, upq_qty_for(u2), i);
    }
}

/// A category whose namespaces and committed-quantity sums are untouched
/// keeps its invariants.
pub proof fn lemma_wf_cat_preserved(m0: Marketplace, m1: Marketplace, c: Seq<char>)
    requires
        wf_cat(m0, c),
        forall|k2: Seq<char>|
            #[trigger] recs(m1.items@, static_prefix(c), k2) == recs(
                m0.items@,
                static_prefix(c),
                k2,
            ),
        forall|k2: Seq<char>|
            #[trigger] recs(m1.group_sizes@, dynamic_prefix(c), k2) == recs(
                m0.group_sizes@,
                dynamic_prefix(c),
                k2,
            ),
        forall|k2: Seq<char>|
            #[trigger] recs(m1.user_quantities@, dynamic_prefix(c), k2) == recs(
                m0.user_quantities@,
                dynamic_prefix(c),
                k2,
            ),
        forall|k2: Seq<char>|
            #[trigger] recs(m1.user_details@, users_prefix(c), k2) == recs(
                m0.user_details@,
                users_prefix(c),
                k2,
            ),
        forall|u2: Seq<char>|
            regions_sum(m1.user_quantities@, dynamic_prefix(c), #[trigger] upq_qty_for(u2))
                == regions_sum(m0.user_quantities@, dynamic_prefix(c), upq_qty_for(u2)),
    ensures
        wf_cat(m1, c),
{
    assert(catalog_of(m1, c) == catalog_of(m0, c));
    assert(forall|u2: Seq<char>| #[trigger] agg_recs(m1, c, u2) == agg_recs(m0, c, u2));
    assert(forall|a2: Seq<char>| #[trigger] quantities_of(m1, c, a2) == quantities_of(m0, c, a2));
    assert(forall|u2: Seq<char>| #[trigger] details_of(m1, c, u2) == details_of(m0, c, u2));
    assert forall|u2: Seq<char>| #[trigger] has_item(m1, c, u2) == has_item(m0, c, u2) by {
        if has_item(m0, c, u2) {
            let i = choose|i: int|
                0 <= i < catalog_of(m0, c).len() && #[trigger] catalog_of(m0, c)[i].url@ == u2;
            assert(catalog_of(m1, c)[i].url@ == u2);
        }
        if has_item(m1, c, u2) {
            let i = choose|i: int|
                0 <= i < catalog_of(m1, c).len() && #[trigger] catalog_of(m1, c)[i].url@ == u2;
            assert(catalog_of(m0, c)[i].url@ == u2);
        }
    }
    assert forall|u2: Seq<char>|
        #[trigger] agg_recs(m1, c, u2).len() == 1 implies agg_recs(m1, c, u2)[0]
        == total_quantity(m1, c, u2) by {
        assert(total_quantity(m1, c, u2) == total_quantity(m0, c, u2));
    }
    assert forall|a2: Seq<char>, u2: Seq<char>|
        #![trigger commitment_count(m1, c, a2, u2)]
        #![trigger details_count(m1, c, u2, a2)]
        commitment_count(m1, c, a2, u2) == details_count(m1, c, u2, a2) && commitment_count(
        m1,
        c,
        a2,
        u2,
    ) <= 1 by {
        assert(commitment_count(m1, c, a2, u2) == commitment_count(m0, c, a2, u2));
        assert(details_count(m1, c, u2, a2) == details_count(m0, c, u2, a2));
    }
    assert forall|a2: Seq<char>, u2: Seq<char>|
        #[trigger] commitment_count(m1, c, a2, u2) == 1 implies qty_in(
        quantities_of(m1, c, a2),
        u2,
    ) == qty_in_details(details_of(m1, c, u2), a2) by {
        assert(commitment_count(m0, c, a2, u2) == commitment_count(m1, c, a2, u2));
    }
}

/// After an invocation that only touched category `c`'s namespaces, every
/// other category keeps its invariants.
pub proof fn lemma_wf_preserved_others(m0: Marketplace, m1: Marketplace, c: Seq<char>)
    requires
        wf(m0),
        known_category(c),
        forall|p2: Seq<char>, k2: Seq<char>|
            p2 != static_prefix(c) ==> #[trigger] recs(m1.items@, p2, k2) == recs(
                m0.items@,
                p2,
                k2,
            ),
        forall|p2: Seq<char>, k2: Seq<char>|
            p2 != dynamic_prefix(c) ==> #[trigger] recs(m1.group_sizes@, p2, k2) == recs(
                m0.group_sizes@,
                p2,
                k2,
            ),
        forall|p2: Seq<char>, k2: Seq<char>|
            p2 != dynamic_prefix(c) ==> #[trigger] recs(m1.user_quantities@, p2, k2) == recs(
                m0.user_quantities@,
                p2,
                k2,
            ),
        forall|p2: Seq<char>, k2: Seq<char>|
            p2 != users_prefix(c) ==> #[trigger] recs(m1.user_details@, p2, k2) == recs(
                m0.user_details@,
                p2,
                k2,
            ),
        forall|pf: Seq<char>, u2: Seq<char>|
            pf != dynamic_prefix(c) ==> #[trigger] regions_sum(
                m1.user_quantities@,
                pf,
                upq_qty_for(u2),
            ) == regions_sum(m0.user_quantities@, pf, upq_qty_for(u2)),
    ensures
        forall|c2: Seq<char>|
            known_category(c2) && c2 != c ==> #[trigger] wf_cat(m1, c2),
{
    assert forall|c2: Seq<char>| known_category(c2) && c2 != c implies #[trigger] wf_cat(
        m1,
        c2,
    ) by {
        crate::state::lemma_prefixes_distinct(c, c2);
        lemma_wf_cat_preserved(m0, m1, c2);
    }
}

/// An unlisted item has no committed quantity at all: under the invariants
/// every stored commitment belongs to a listed item.
pub proof fn lemma_total_zero_when_unlisted(m: Marketplace, c: Seq<char>, u: Seq<char>)
    requires
        stores_wf(m),
        wf_cat(m, c),
        !has_item(m, c, u),
    ensures
        total_quantity(m, c, u) == 0,
{
    let v = m.user_quantities@;
    let dpv = dynamic_prefix(c);
    assert forall|j: int, l: int|
        0 <= j < v.len() && v[j].prefix == dpv && 0 <= l < v[j].records.len() implies #[trigger]
        upq_qty_for(u)(v[j].records[l]) == 0 by {
        crate::store::lemma_region_index_unique(v, v[j].prefix, v[j].key, j);
        assert(quantities_of(m, c, v[j].key) == v[j].records);
        let r = v[j].records[l];
        if r.url@ == u {
            assert(has_item(m, c, (quantities_of(m, c, v[j].key)[l]).url@));
            assert(false);
        }
    }
    crate::store::lemma_regions_sum_zero(v, dpv, upq_qty_for(u));
}

/// Changing only the credentials leaves the marketplace well formed.
pub proof fn lemma_wf_same_stores(m0: Marketplace, m1: Marketplace)
    requires
        wf(m0),
        m1.items == m0.items,
        m1.group_sizes == m0.group_sizes,
        m1.user_quantities == m0.user_quantities,
        m1.user_details == m0.user_details,
        crate::viewing_key::cred_wf(m1.viewing_keys@),
    ensures
        wf(m1),
{
    lemma_wf_cat_preserved(m0, m1, "laptops"@);
    lemma_wf_cat_preserved(m0, m1, "keyboards"@);
    lemma_wf_cat_preserved(m0, m1, "mouses"@);
    lemma_wf_cat_preserved(m0, m1, "mouse-pads"@);
}

/// A well-formed marketplace satisfies the per-category invariants of any
/// known category.
pub proof fn lemma_wf_cat_of(m: Marketplace, c: Seq<char>)
    requires
        wf(m),
        known_category(c),
    ensures
        wf_cat(m, c),
{
    if c == "laptops"@ {
        assert(wf_cat(m, "laptops"@));
    } else if c == "keyboards"@ {
        assert(wf_cat(m, "keyboards"@));
    } else if c == "mouses"@ {
        assert(wf_cat(m, "mouses"@));
    } else {
        assert(wf_cat(m, "mouse-pads"@));
    }
}

/// Well-formedness of the whole marketplace from the touched category's
/// invariants and every other category's.
pub proof fn lemma_wf_assemble(m1: Marketplace, c: Seq<char>)
    requires
        known_category(c),
        stores_wf(m1),
        wf_cat(m1, c),
        forall|c2: Seq<char>| known_category(c2) && c2 != c ==> #[trigger] wf_cat(m1, c2),
    ensures
        wf(m1),
{
    assert(wf_cat(m1, "laptops"@)) by {
        if c != "laptops"@ {
            assert(known_category("laptops"@));
        }
    }
    assert(wf_cat(m1, "keyboards"@)) by {
        if c != "keyboards"@ {
            assert(known_category("keyboards"@));
        }
    }
    assert(wf_cat(m1, "mouses"@)) by {
        if c != "mouses"@ {
            assert(known_category("mouses"@));
        }
    }
    assert(wf_cat(m1, "mouse-pads"@)) by {
        if c != "mouse-pads"@ {
            assert(known_category("mouse-pads"@));
        }
    }
}

/// A freshly created marketplace is well formed.
pub proof fn lemma_new_marketplace_wf(m: Marketplace)
    requires
        stores_wf(m),
        m.items@.len() == 0,
        m.group_sizes@.len() == 0,
        m.user_quantities@.len() == 0,
        m.user_details@.len() == 0,
    ensures
        wf(m),
{
    assert forall|c: Seq<char>| known_category(c) implies wf_cat(m, c) by {
        lemma_wf_cat_empty(m, c);
    }
    assert(known_category("laptops"@));
    assert(known_category("keyboards"@));
    assert(known_category("mouses"@));
    assert(known_category("mouse-pads"@));
}

proof fn lemma_wf_cat_empty(m: Marketplace, c: Seq<char>)
    requires
        m.items@.len() == 0,
        m.group_sizes@.len() == 0,
        m.user_quantities@.len() == 0,
        m.user_details@.len() == 0,
    ensures
        wf_cat(m, c),
{
    assert(forall|p2: Seq<char>, k2: Seq<char>| !#[trigger] has_region(m.items@, p2, k2));
    assert(forall|p2: Seq<char>, k2: Seq<char>| !#[trigger] has_region(m.group_sizes@, p2, k2));
    assert(forall|p2: Seq<char>, k2: Seq<char>|
        !#[trigger] has_region(m.user_quantities@, p2, k2));
    assert(forall|p2: Seq<char>, k2: Seq<char>| !#[trigger] has_region(m.user_details@, p2, k2));
    assert(catalog_of(m, c) =~= Seq::<StaticItemData>::empty());
    assert forall|u: Seq<char>| #[trigger] agg_recs(m, c, u).len() <= 1 by {
        assert(agg_recs(m, c, u) =~= Seq::<u32>::empty());
    }
    assert forall|u: Seq<char>| !(#[trigger] has_item(m, c, u)) by {}
    assert forall|u: Seq<char>| #[trigger] agg_recs(m, c, u).len() != 1 by {
        assert(agg_recs(m, c, u) =~= Seq::<u32>::empty());
    }
    assert forall|a: Seq<char>, u: Seq<char>|
        #![trigger commitment_count(m, c, a, u)]
        #![trigger details_count(m, c, u, a)]
        commitment_count(m, c, a, u) == 0 && details_count(m, c, u, a) == 0 by {
        assert(quantities_of(m, c, a) =~= Seq::<UserProductQuantity>::empty());
        assert(details_of(m, c, u) =~= Seq::<UserItemDetails>::empty());
    }
    assert forall|a: Seq<char>| #[trigger] quantities_of(m, c, a).len() == 0 by {
        assert(quantities_of(m, c, a) =~= Seq::<UserProductQuantity>::empty());
    }
    assert forall|u: Seq<char>| #[trigger] details_of(m, c, u).len() == 0 by {
        assert(details_of(m, c, u) =~= Seq::<UserItemDetails>::empty());
    }
}

} // verus!

//! The settlement engine's commitment transitions: joining an item,
//! changing an existing commitment, and withdrawing it, each preserving the
//! aggregate and dual-index invariants.

use vstd::prelude::*;
use crate::msg::{ContractError, Env, HandleResponse, StaticItemData, UpdateItemData, UserItemDetails, UserProductQuantity};
use crate::model::{agg_recs, commitment_count, item_torn_down, minus_url, details_acct_is, details_count, details_of, has_item, item_of, qty_in, qty_in_details, quantities_of, total_quantity, untouched_outside_category, upq_qty_for, upq_url_is, wf, wf_cat, lemma_sums_after_push, lemma_sums_after_update, lemma_sums_after_swap_remove, lemma_wf_preserved_others};
use crate::seq_facts::{count_matching, lemma_count_push, lemma_match_push_new, lemma_unique_match_push};
use crate::state::{dynamic_prefix, get_category_prefixes, known_category, save_category_element_user, save_category_element_user_item_details, static_prefix, update_current_group_size, users_prefix, Marketplace};
use crate::store::recs;

verus! {

/// Persists a brand-new commitment of the sender: appends one record to
/// each ledger view and raises the item's aggregate to `new_size`.
fn apply_join(
    m: &mut Marketplace,
    category: &str,
    url: &str,
    sender: &str,
    details: &UserItemDetails,
    new_size: u32,
)
    requires
        wf(*old(m)),
        known_category(category@),
        agg_recs(*old(m), category@, url@).len() == 1,
        commitment_count(*old(m), category@, sender@, url@) == 0,
        details.account_address@ == sender@,
        details.quantity >= 1,
        new_size as int == agg_recs(*old(m), category@, url@)[0] + details.quantity,
    ensures
        wf(*final(m)),
        untouched_outside_category(*old(m), *final(m), category@),
        final(m).items == old(m).items,
        final(m).viewing_keys == old(m).viewing_keys,
        agg_recs(*final(m), category@, url@) == seq![new_size],
        forall|u2: Seq<char>|
            u2 != url@ ==> #[trigger] agg_recs(*final(m), category@, u2) == agg_recs(
                *old(m),
                category@,
                u2,
            ),
        ({
            let q0 = quantities_of(*old(m), category@, sender@);
            let q1 = quantities_of(*final(m), category@, sender@);
            &&& q1.len() == q0.len() + 1
            &&& q1 == q0.push(q1.last())
            &&& q1.last().url@ == url@
            &&& q1.last().quantity == details.quantity
        }),
        forall|a2: Seq<char>|
            a2 != sender@ ==> #[trigger] quantities_of(*final(m), category@, a2) == quantities_of(
                *old(m),
                category@,
                a2,
            ),
        details_of(*final(m), category@, url@) == details_of(*old(m), category@, url@).push(
            *details,
        ),
        forall|u2: Seq<char>|
            u2 != url@ ==> #[trigger] details_of(*final(m), category@, u2) == details_of(
                *old(m),
                category@,
                u2,
            ),
{
    let (_sp, dp, up) = match get_category_prefixes(category) {
        Ok(t) => t,
        Err(_) => unreached(),
    };
    let ghost m0 = *old(m);
    let ghost c = category@;
    let ghost u = url@;
    let ghost a = sender@;
    let ghost dpv = dynamic_prefix(c);
    let ghost upv = users_prefix(c);
    let ghost vq0 = m0.user_quantities@;
    let ghost q0 = recs(vq0, dpv, a);

    let user_product_quantity = UserProductQuantity { url: url.to_owned(), quantity: details.quantity };
    let ghost rec = user_product_quantity;
    save_category_element_user(&mut m.user_quantities, sender, dp, &user_product_quantity);
    let ghost vq1 = m.user_quantities@;
    proof {
        lemma_sums_after_push(vq0, vq1, dpv, a, rec);
    }
    update_current_group_size(&mut m.group_sizes, url, dp, new_size);
    save_category_element_user_item_details(&mut m.user_details, url, up, details);

    proof {
        let m1 = *m;
        crate::model::lemma_wf_cat_of(m0, c);
        assert(agg_recs(m1, c, u) =~= seq![new_size]);
        assert(catalog_of_same(m0, m1, c));
        assert forall|x: Seq<char>| #[trigger] has_item(m1, c, x) == has_item(m0, c, x) by {
            lemma_has_item_same(m0, m1, c, x);
        }

        // The remaining quantity sums and per-prefix frames.
        assert forall|u2: Seq<char>| u2 != u implies #[trigger] agg_recs(m1, c, u2) == agg_recs(
            m0,
            c,
            u2,
        ) by {}
        assert forall|a2: Seq<char>| a2 != a implies #[trigger] quantities_of(m1, c, a2)
            == quantities_of(m0, c, a2) by {}
        assert forall|u2: Seq<char>| u2 != u implies #[trigger] details_of(m1, c, u2)
            == details_of(m0, c, u2) by {}
        assert(quantities_of(m1, c, a) == q0.push(rec));
        assert(details_of(m1, c, u) == details_of(m0, c, u).push(*details));

        // The invariants of the touched category.
        assert(wf_cat(m1, c)) by {
            assert forall|u2: Seq<char>| #[trigger] agg_recs(m1, c, u2).len() <= 1 by {
                if u2 != u {
                    assert(agg_recs(m1, c, u2) == agg_recs(m0, c, u2));
                }
            }
            assert forall|u2: Seq<char>| #[trigger] has_item(m1, c, u2) <==> agg_recs(
                m1,
                c,
                u2,
            ).len() == 1 by {
                if u2 != u {
                    assert(agg_recs(m1, c, u2) == agg_recs(m0, c, u2));
                }
            }
            assert forall|u2: Seq<char>| #[trigger] agg_recs(m1, c, u2).len() == 1 implies agg_recs(
                m1,
                c,
                u2,
            )[0] == total_quantity(m1, c, u2) by {
                if u2 == u {
                    assert(total_quantity(m1, c, u) == total_quantity(m0, c, u)
                        + details.quantity);
                } else {
                    assert(agg_recs(m1, c, u2) == agg_recs(m0, c, u2));
                    assert(total_quantity(m1, c, u2) == total_quantity(m0, c, u2));
                }
            }
            assert forall|a2: Seq<char>, u2: Seq<char>|
                #![trigger commitment_count(m1, c, a2, u2)]
                #![trigger details_count(m1, c, u2, a2)]
                commitment_count(m1, c, a2, u2) == details_count(m1, c, u2, a2)
                    && commitment_count(m1, c, a2, u2) <= 1 by {
                let qa0 = quantities_of(m0, c, a2);
                let du0 = details_of(m0, c, u2);
                assert(commitment_count(m0, c, a2, u2) == count_matching(qa0, upq_url_is(u2)));
                assert(details_count(m0, c, u2, a2) == count_matching(du0, details_acct_is(a2)));
                if a2 == a {
                    lemma_count_push(qa0, upq_url_is(u2), rec);
                } else {
                    assert(quantities_of(m1, c, a2) == qa0);
                }
                if u2 == u {
                    lemma_count_push(du0, details_acct_is(a2), *details);
                } else {
                    assert(details_of(m1, c, u2) == du0);
                }
            }
            assert forall|a2: Seq<char>, u2: Seq<char>|
                #[trigger] commitment_count(m1, c, a2, u2) == 1 implies qty_in(
                quantities_of(m1, c, a2),
                u2,
            ) == qty_in_details(details_of(m1, c, u2), a2) by {
                let qa0 = quantities_of(m0, c, a2);
                let du0 = details_of(m0, c, u2);
                assert(commitment_count(m0, c, a2, u2) == count_matching(qa0, upq_url_is(u2)));
                assert(details_count(m0, c, u2, a2) == count_matching(du0, details_acct_is(a2)));
                if a2 == a && u2 == u {
                    lemma_match_push_new(qa0, rec, upq_url_is(u));
                    lemma_match_push_new(du0, *details, details_acct_is(a));
                } else if a2 == a {
                    lemma_count_push(qa0, upq_url_is(u2), rec);
                    lemma_unique_match_push(qa0, rec, upq_url_is(u2));
                    assert(details_of(m1, c, u2) == du0);
                } else if u2 == u {
                    assert(quantities_of(m1, c, a2) == qa0);
                    lemma_count_push(du0, details_acct_is(a2), *details);
                    lemma_unique_match_push(du0, *details, details_acct_is(a2));
                } else {
                    assert(quantities_of(m1, c, a2) == qa0);
                    assert(details_of(m1, c, u2) == du0);
                }
            }
            assert forall|a2: Seq<char>, i: int|
                0 <= i < quantities_of(m1, c, a2).len() implies (#[trigger] quantities_of(
                m1,
                c,
                a2,
            )[i]).quantity >= 1 by {
                if a2 == a {
                    if i < q0.len() {
                        assert(quantities_of(m1, c, a2)[i] == q0[i]);
                        assert(quantities_of(m0, c, a2)[i].quantity >= 1);
                    }
                } else {
                    assert(quantities_of(m1, c, a2) == quantities_of(m0, c, a2));
                    assert(quantities_of(m0, c, a2)[i].quantity >= 1);
                }
            }
            assert forall|u2: Seq<char>, j: int|
                0 <= j < details_of(m1, c, u2).len() implies (#[trigger] details_of(
                m1,
                c,
                u2,
            )[j]).quantity >= 1 by {
                if u2 == u {
                    if j < details_of(m0, c, u).len() {
                        assert(details_of(m1, c, u2)[j] == details_of(m0, c, u)[j]);
                        assert(details_of(m0, c, u2)[j].quantity >= 1);
                    }
                } else {
                    assert(details_of(m1, c, u2) == details_of(m0, c, u2));
                    assert(details_of(m0, c, u2)[j].quantity >= 1);
                }
            }
            assert forall|a2: Seq<char>, i: int|
                0 <= i < quantities_of(m1, c, a2).len() implies has_item(
                m1,
                c,
                (#[trigger] quantities_of(m1, c, a2)[i]).url@,
            ) by {
                if a2 == a && i == q0.len() {
                    assert(quantities_of(m1, c, a2)[i] == rec);
                    assert(has_item(m0, c, u));
                } else {
                    if a2 == a {
                        assert(quantities_of(m1, c, a2)[i] == q0[i]);
                        assert(has_item(m0, c, quantities_of(m0, c, a2)[i].url@));
                    } else {
                        assert(quantities_of(m1, c, a2) == quantities_of(m0, c, a2));
                        assert(has_item(m0, c, quantities_of(m0, c, a2)[i].url@));
                    }
                }
            }
            assert forall|u2: Seq<char>| #[trigger] details_of(m1, c, u2).len() > 0 implies
                has_item(m1, c, u2) by {
                if u2 == u {
                    assert(has_item(m0, c, u));
                } else {
                    assert(details_of(m1, c, u2) == details_of(m0, c, u2));
                }
            }
        }

        // The invariants of the other categories.
        assert forall|p2: Seq<char>, k2: Seq<char>| p2 != dpv implies #[trigger] recs(
            m1.group_sizes@,
            p2,
            k2,
        ) == recs(m0.group_sizes@, p2, k2) by {}
        assert forall|p2: Seq<char>, k2: Seq<char>| p2 != dpv implies #[trigger] recs(
            m1.user_quantities@,
            p2,
            k2,
        ) == recs(m0.user_quantities@, p2, k2) by {}
        assert forall|p2: Seq<char>, k2: Seq<char>| p2 != upv implies #[trigger] recs(
            m1.user_details@,
            p2,
            k2,
        ) == recs(m0.user_details@, p2, k2) by {}
        lemma_wf_preserved_others(m0, m1, c);
        crate::model::lemma_wf_assemble(m1, c);
    }
}

/// Overwrites the sender's existing commitment with the request's new
/// quantity in both ledger views and sets the aggregate to `new_size`.
fn update_item_in_stores(
    m: &mut Marketplace,
    category: &str,
    url: &str,
    sender: &str,
    data: &crate::msg::UpdateItemData,
    details: &UserItemDetails,
    new_size: u32,
)
    requires
        wf(*old(m)),
        known_category(category@),
        data.url@ == url@,
        data.user_details.quantity == details.quantity,
        agg_recs(*old(m), category@, url@).len() == 1,
        commitment_count(*old(m), category@, sender@, url@) == 1,
        details.account_address@ == sender@,
        details.quantity >= 1,
        new_size as int == agg_recs(*old(m), category@, url@)[0] + details.quantity - qty_in(
            quantities_of(*old(m), category@, sender@),
            url@,
        ),
    ensures
        wf(*final(m)),
        untouched_outside_category(*old(m), *final(m), category@),
        final(m).items == old(m).items,
        final(m).viewing_keys == old(m).viewing_keys,
        agg_recs(*final(m), category@, url@) == seq![new_size],
        forall|u2: Seq<char>|
            u2 != url@ ==> #[trigger] agg_recs(*final(m), category@, u2) == agg_recs(
                *old(m),
                category@,
                u2,
            ),
        ({
            let q0 = quantities_of(*old(m), category@, sender@);
            let q1 = quantities_of(*final(m), category@, sender@);
            let qi = crate::seq_facts::match_index(q0, upq_url_is(url@));
            &&& q1 == q0.update(qi, q1[qi])
            &&& q1[qi].url@ == url@
            &&& q1[qi].quantity == details.quantity
        }),
        forall|a2: Seq<char>|
            a2 != sender@ ==> #[trigger] quantities_of(*final(m), category@, a2) == quantities_of(
                *old(m),
                category@,
                a2,
            ),
        details_of(*final(m), category@, url@) == details_of(*old(m), category@, url@).update(
            crate::seq_facts::match_index(
                details_of(*old(m), category@, url@),
                details_acct_is(sender@),
            ),
            *details,
        ),
        forall|u2: Seq<char>|
            u2 != url@ ==> #[trigger] details_of(*final(m), category@, u2) == details_of(
                *old(m),
                category@,
                u2,
            ),
{
    let (_sp, dp, up) = match get_category_prefixes(category) {
        Ok(t) => t,
        Err(_) => unreached(),
    };
    let ghost m0 = *old(m);
    let ghost c = category@;
    let ghost u = url@;
    let ghost a = sender@;
    let ghost dpv = dynamic_prefix(c);
    let ghost upv = users_prefix(c);
    let ghost q0 = quantities_of(m0, c, a);
    let ghost d0 = details_of(m0, c, u);
    let ghost pu = upq_url_is(u);
    let ghost pa = details_acct_is(a);
    proof {
        crate::model::lemma_wf_cat_of(m0, c);
        crate::seq_facts::lemma_match_index_valid(q0, pu);
        crate::seq_facts::lemma_match_index_valid(d0, pa);
    }
    let ghost qi = crate::seq_facts::match_index(q0, pu);
    let ghost di = crate::seq_facts::match_index(d0, pa);

    update_current_group_size(&mut m.group_sizes, url, dp, new_size);
    match crate::state::update_category_item_user_details(&mut m.user_details, up, url, details) {
        Ok(_) => (),
        Err(_) => {
            proof {
                crate::seq_facts::lemma_count_at_least_one(d0, pa, di);
            }
            unreached()
        },
    }
    proof {
        // The overwritten slot is the unique matching record.
        assert(details_of(*m, c, u) == d0.update(di, *details)) by {
            let ci = choose|ci: int|
                0 <= ci < d0.len() && #[trigger] d0[ci].account_address@ == a && details_of(
                    *m,
                    c,
                    u,
                ) == d0.update(ci, *details);
            crate::seq_facts::lemma_count_one_unique(d0, pa, ci, di);
        }
    }
    let ghost vq0 = m.user_quantities@;
    match crate::state::update_user_item_quantity(&mut m.user_quantities, dp, sender, data) {
        Ok(_) => (),
        Err(_) => {
            proof {
                crate::seq_facts::lemma_count_at_least_one(q0, pu, qi);
            }
            unreached()
        },
    }
    let ghost q1 = quantities_of(*m, c, a);
    proof {
        assert(q1 == q0.update(qi, q1[qi]) && q1[qi].url@ == u && q1[qi].quantity
            == details.quantity) by {
            let ci = choose|ci: int|
                0 <= ci < q0.len() && #[trigger] q0[ci].url@ == u && q1 == q0.update(
                    ci,
                    q1[ci],
                ) && q1[ci].url@ == u && q1[ci].quantity == data.user_details.quantity;
            crate::seq_facts::lemma_count_one_unique(q0, pu, ci, qi);
        }
        lemma_sums_after_update(vq0, m.user_quantities@, dpv, a, qi, q1[qi]);
        assert(q0.update(qi, q1[qi]) == quantities_of(*m, c, a));
    }

    proof {
        let m1 = *m;
        let recq = q1[qi];
        let d1 = details_of(m1, c, u);
        assert(agg_recs(m1, c, u) =~= seq![new_size]);
        assert(catalog_of_same(m0, m1, c));
        assert forall|x: Seq<char>| #[trigger] has_item(m1, c, x) == has_item(m0, c, x) by {
            lemma_has_item_same(m0, m1, c, x);
        }
        assert forall|u2: Seq<char>| u2 != u implies #[trigger] agg_recs(m1, c, u2) == agg_recs(
            m0,
            c,
            u2,
        ) by {}
        assert forall|a2: Seq<char>| a2 != a implies #[trigger] quantities_of(m1, c, a2)
            == quantities_of(m0, c, a2) by {}
        assert forall|u2: Seq<char>| u2 != u implies #[trigger] details_of(m1, c, u2)
            == details_of(m0, c, u2) by {}

        assert(wf_cat(m1, c)) by {
            assert forall|u2: Seq<char>| #[trigger] agg_recs(m1, c, u2).len() <= 1 by {
                if u2 != u {
                    assert(agg_recs(m1, c, u2) == agg_recs(m0, c, u2));
                }
            }
            assert forall|u2: Seq<char>| #[trigger] has_item(m1, c, u2) <==> agg_recs(
                m1,
                c,
                u2,
            ).len() == 1 by {
                if u2 != u {
                    assert(agg_recs(m1, c, u2) == agg_recs(m0, c, u2));
                }
            }
            assert forall|u2: Seq<char>| #[trigger] agg_recs(m1, c, u2).len() == 1 implies agg_recs(
                m1,
                c,
                u2,
            )[0] == total_quantity(m1, c, u2) by {
                assert(upq_qty_for(u2)(recq) == if recq.url@ == u2 {
                    recq.quantity as int
                } else {
                    0
                });
                assert(upq_qty_for(u2)(q0[qi]) == if q0[qi].url@ == u2 {
                    q0[qi].quantity as int
                } else {
                    0
                });
                if u2 == u {
                    assert(qty_in(q0, u) == q0[qi].quantity as int);
                    assert(total_quantity(m1, c, u) == total_quantity(m0, c, u) - q0[qi].quantity
                        + details.quantity);
                } else {
                    assert(agg_recs(m1, c, u2) == agg_recs(m0, c, u2));
                    assert(total_quantity(m1, c, u2) == total_quantity(m0, c, u2));
                }
            }
            assert forall|a2: Seq<char>, u2: Seq<char>|
                #![trigger commitment_count(m1, c, a2, u2)]
                #![trigger details_count(m1, c, u2, a2)]
                commitment_count(m1, c, a2, u2) == details_count(m1, c, u2, a2)
                    && commitment_count(m1, c, a2, u2) <= 1 by {
                let qa0 = quantities_of(m0, c, a2);
                let du0 = details_of(m0, c, u2);
                assert(commitment_count(m0, c, a2, u2) == count_matching(qa0, upq_url_is(u2)));
                assert(details_count(m0, c, u2, a2) == count_matching(du0, details_acct_is(a2)));
                if a2 == a {
                    crate::seq_facts::lemma_count_update(qa0, upq_url_is(u2), qi, recq);
                } else {
                    assert(quantities_of(m1, c, a2) == qa0);
                }
                if u2 == u {
                    crate::seq_facts::lemma_count_update(du0, details_acct_is(a2), di, *details);
                } else {
                    assert(details_of(m1, c, u2) == du0);
                }
            }
            assert forall|a2: Seq<char>, u2: Seq<char>|
                #[trigger] commitment_count(m1, c, a2, u2) == 1 implies qty_in(
                quantities_of(m1, c, a2),
                u2,
            ) == qty_in_details(details_of(m1, c, u2), a2) by {
                let qa0 = quantities_of(m0, c, a2);
                let du0 = details_of(m0, c, u2);
                assert(commitment_count(m0, c, a2, u2) == count_matching(qa0, upq_url_is(u2)));
                assert(details_count(m0, c, u2, a2) == count_matching(du0, details_acct_is(a2)));
                if a2 == a && u2 == u {
                    crate::seq_facts::lemma_unique_match_update(q0, qi, recq, pu);
                    crate::seq_facts::lemma_unique_match_update(d0, di, *details, pa);
                } else if a2 == a {
                    crate::seq_facts::lemma_count_update(qa0, upq_url_is(u2), qi, recq);
                    crate::seq_facts::lemma_unique_match_update_other(
                        qa0,
                        qi,
                        recq,
                        upq_url_is(u2),
                    );
                    assert(details_of(m1, c, u2) == du0);
                } else if u2 == u {
                    assert(quantities_of(m1, c, a2) == qa0);
                    crate::seq_facts::lemma_count_update(du0, details_acct_is(a2), di, *details);
                    crate::seq_facts::lemma_unique_match_update_other(
                        du0,
                        di,
                        *details,
                        details_acct_is(a2),
                    );
                } else {
                    assert(quantities_of(m1, c, a2) == qa0);
                    assert(details_of(m1, c, u2) == du0);
                }
            }
            assert forall|a2: Seq<char>, i: int|
                0 <= i < quantities_of(m1, c, a2).len() implies (#[trigger] quantities_of(
                m1,
                c,
                a2,
            )[i]).quantity >= 1 by {
                if a2 == a && i == qi {
                } else if a2 == a {
                    assert(quantities_of(m1, c, a2)[i] == q0[i]);
                    assert(quantities_of(m0, c, a2)[i].quantity >= 1);
                } else {
                    assert(quantities_of(m1, c, a2) == quantities_of(m0, c, a2));
                    assert(quantities_of(m0, c, a2)[i].quantity >= 1);
                }
            }
            assert forall|u2: Seq<char>, j: int|
                0 <= j < details_of(m1, c, u2).len() implies (#[trigger] details_of(
                m1,
                c,
                u2,
            )[j]).quantity >= 1 by {
                if u2 == u && j == di {
                } else if u2 == u {
                    assert(details_of(m1, c, u2)[j] == d0[j]);
                    assert(details_of(m0, c, u2)[j].quantity >= 1);
                } else {
                    assert(details_of(m1, c, u2) == details_of(m0, c, u2));
                    assert(details_of(m0, c, u2)[j].quantity >= 1);
                }
            }
            assert forall|a2: Seq<char>, i: int|
                0 <= i < quantities_of(m1, c, a2).len() implies has_item(
                m1,
                c,
                (#[trigger] quantities_of(m1, c, a2)[i]).url@,
            ) by {
                if a2 == a && i == qi {
                    assert(quantities_of(m1, c, a2)[i].url@ == u);
                    assert(has_item(m0, c, u));
                } else if a2 == a {
                    assert(quantities_of(m1, c, a2)[i] == q0[i]);
                    assert(has_item(m0, c, quantities_of(m0, c, a2)[i].url@));
                } else {
                    assert(quantities_of(m1, c, a2) == quantities_of(m0, c, a2));
                    assert(has_item(m0, c, quantities_of(m0, c, a2)[i].url@));
                }
            }
            assert forall|u2: Seq<char>| #[trigger] details_of(m1, c, u2).len() > 0 implies
                has_item(m1, c, u2) by {
                if u2 == u {
                    assert(has_item(m0, c, u));
                } else {
                    assert(details_of(m1, c, u2) == details_of(m0, c, u2));
                }
            }
        }

        assert forall|p2: Seq<char>, k2: Seq<char>| p2 != dpv implies #[trigger] recs(
            m1.group_sizes@,
            p2,
            k2,
        ) == recs(m0.group_sizes@, p2, k2) by {}
        assert forall|p2: Seq<char>, k2: Seq<char>| p2 != dpv implies #[trigger] recs(
            m1.user_quantities@,
            p2,
            k2,
        ) == recs(m0.user_quantities@, p2, k2) by {}
        assert forall|p2: Seq<char>, k2: Seq<char>| p2 != upv implies #[trigger] recs(
            m1.user_details@,
            p2,
            k2,
        ) == recs(m0.user_details@, p2, k2) by {}
        lemma_wf_preserved_others(m0, m1, c);
        crate::model::lemma_wf_assemble(m1, c);
    }
}

/// Withdraws the sender's existing commitment: swap-removes its record
/// from both ledger views and lowers the aggregate to `new_size`.
fn apply_leave(m: &mut Marketplace, category: &str, url: &str, sender: &str, new_size: u32)
    requires
        wf(*old(m)),
        known_category(category@),
        agg_recs(*old(m), category@, url@).len() == 1,
        commitment_count(*old(m), category@, sender@, url@) == 1,
        new_size as int == agg_recs(*old(m), category@, url@)[0] - qty_in(
            quantities_of(*old(m), category@, sender@),
            url@,
        ),
    ensures
        wf(*final(m)),
        untouched_outside_category(*old(m), *final(m), category@),
        final(m).items == old(m).items,
        final(m).viewing_keys == old(m).viewing_keys,
        agg_recs(*final(m), category@, url@) == seq![new_size],
        forall|u2: Seq<char>|
            u2 != url@ ==> #[trigger] agg_recs(*final(m), category@, u2) == agg_recs(
                *old(m),
                category@,
                u2,
            ),
        ({
            let q0 = quantities_of(*old(m), category@, sender@);
            let qi = crate::seq_facts::match_index(q0, upq_url_is(url@));
            quantities_of(*final(m), category@, sender@) == q0.update(qi, q0.last()).drop_last()
        }),
        forall|a2: Seq<char>|
            a2 != sender@ ==> #[trigger] quantities_of(*final(m), category@, a2) == quantities_of(
                *old(m),
                category@,
                a2,
            ),
        ({
            let d0 = details_of(*old(m), category@, url@);
            let di = crate::seq_facts::match_index(d0, details_acct_is(sender@));
            details_of(*final(m), category@, url@) == d0.update(di, d0.last()).drop_last()
        }),
        forall|u2: Seq<char>|
            u2 != url@ ==> #[trigger] details_of(*final(m), category@, u2) == details_of(
                *old(m),
                category@,
                u2,
            ),
{
    let (_sp, dp, up) = match get_category_prefixes(category) {
        Ok(t) => t,
        Err(_) => unreached(),
    };
    let ghost m0 = *old(m);
    let ghost c = category@;
    let ghost u = url@;
    let ghost a = sender@;
    let ghost dpv = dynamic_prefix(c);
    let ghost upv = users_prefix(c);
    let ghost q0 = quantities_of(m0, c, a);
    let ghost d0 = details_of(m0, c, u);
    let ghost pu = upq_url_is(u);
    let ghost pa = details_acct_is(a);
    proof {
        crate::model::lemma_wf_cat_of(m0, c);
        crate::seq_facts::lemma_match_index_valid(q0, pu);
        crate::seq_facts::lemma_match_index_valid(d0, pa);
    }
    let ghost qi = crate::seq_facts::match_index(q0, pu);
    let ghost di = crate::seq_facts::match_index(d0, pa);

    update_current_group_size(&mut m.group_sizes, url, dp, new_size);
    match crate::state::remove_category_item_user_details(&mut m.user_details, up, url, sender) {
        Ok(_) => (),
        Err(_) => {
            proof {
                crate::seq_facts::lemma_count_at_least_one(d0, pa, di);
            }
            unreached()
        },
    }
    proof {
        assert(details_of(*m, c, u) == d0.update(di, d0.last()).drop_last()) by {
            let ci = choose|ci: int|
                0 <= ci < d0.len() && #[trigger] d0[ci].account_address@ == a && m.user_details@
                    == crate::store::with_region_records(
                    m0.user_details@,
                    upv,
                    u,
                    d0.update(ci, d0.last()).drop_last(),
                );
            crate::seq_facts::lemma_count_one_unique(d0, pa, ci, di);
            crate::store::lemma_with_region_records_effect(
                m0.user_details@,
                upv,
                u,
                d0.update(di, d0.last()).drop_last(),
            );
        }
    }
    let ghost vq0 = m.user_quantities@;
    match crate::state::remove_user_item_quantity(&mut m.user_quantities, dp, sender, url) {
        Ok(_) => (),
        Err(_) => {
            proof {
                crate::seq_facts::lemma_count_at_least_one(q0, pu, qi);
            }
            unreached()
        },
    }
    let ghost q1 = quantities_of(*m, c, a);
    proof {
        assert(q1 == q0.update(qi, q0.last()).drop_last() && m.user_quantities@
            == crate::store::with_region_records(
            vq0,
            dpv,
            a,
            q0.update(qi, q0.last()).drop_last(),
        )) by {
            let ci = choose|ci: int|
                0 <= ci < q0.len() && #[trigger] q0[ci].url@ == u && m.user_quantities@
                    == crate::store::with_region_records(
                    vq0,
                    dpv,
                    a,
                    q0.update(ci, q0.last()).drop_last(),
                );
            crate::seq_facts::lemma_count_one_unique(q0, pu, ci, qi);
            crate::store::lemma_with_region_records_effect(
                vq0,
                dpv,
                a,
                q0.update(qi, q0.last()).drop_last(),
            );
        }
        lemma_sums_after_swap_remove(vq0, m.user_quantities@, dpv, a, qi);
    }

    proof {
        let m1 = *m;
        let d1 = details_of(m1, c, u);
        assert(agg_recs(m1, c, u) =~= seq![new_size]);
        assert(catalog_of_same(m0, m1, c));
        assert forall|x: Seq<char>| #[trigger] has_item(m1, c, x) == has_item(m0, c, x) by {
            lemma_has_item_same(m0, m1, c, x);
        }
        assert forall|u2: Seq<char>| u2 != u implies #[trigger] agg_recs(m1, c, u2) == agg_recs(
            m0,
            c,
            u2,
        ) by {}
        assert forall|a2: Seq<char>| a2 != a implies #[trigger] quantities_of(m1, c, a2)
            == quantities_of(m0, c, a2) by {}
        assert forall|u2: Seq<char>| u2 != u implies #[trigger] details_of(m1, c, u2)
            == details_of(m0, c, u2) by {}

        assert(wf_cat(m1, c)) by {
            assert forall|u2: Seq<char>| #[trigger] agg_recs(m1, c, u2).len() <= 1 by {
                if u2 != u {
                    assert(agg_recs(m1, c, u2) == agg_recs(m0, c, u2));
                }
            }
            assert forall|u2: Seq<char>| #[trigger] has_item(m1, c, u2) <==> agg_recs(
                m1,
                c,
                u2,
            ).len() == 1 by {
                if u2 != u {
                    assert(agg_recs(m1, c, u2) == agg_recs(m0, c, u2));
                }
            }
            assert forall|u2: Seq<char>| #[trigger] agg_recs(m1, c, u2).len() == 1 implies agg_recs(
                m1,
                c,
                u2,
            )[0] == total_quantity(m1, c, u2) by {
                assert(upq_qty_for(u2)(q0[qi]) == if q0[qi].url@ == u2 {
                    q0[qi].quantity as int
                } else {
                    0
                });
                if u2 == u {
                    assert(qty_in(q0, u) == q0[qi].quantity as int);
                    assert(total_quantity(m1, c, u) == total_quantity(m0, c, u)
                        - q0[qi].quantity);
                } else {
                    assert(agg_recs(m1, c, u2) == agg_recs(m0, c, u2));
                    assert(total_quantity(m1, c, u2) == total_quantity(m0, c, u2));
                }
            }
            assert forall|a2: Seq<char>, u2: Seq<char>|
                #![trigger commitment_count(m1, c, a2, u2)]
                #![trigger details_count(m1, c, u2, a2)]
                commitment_count(m1, c, a2, u2) == details_count(m1, c, u2, a2)
                    && commitment_count(m1, c, a2, u2) <= 1 by {
                let qa0 = quantities_of(m0, c, a2);
                let du0 = details_of(m0, c, u2);
                assert(commitment_count(m0, c, a2, u2) == count_matching(qa0, upq_url_is(u2)));
                assert(details_count(m0, c, u2, a2) == count_matching(du0, details_acct_is(a2)));
                if a2 == a {
                    crate::seq_facts::lemma_count_swap_remove(qa0, upq_url_is(u2), qi);
                } else {
                    assert(quantities_of(m1, c, a2) == qa0);
                }
                if u2 == u {
                    crate::seq_facts::lemma_count_swap_remove(du0, details_acct_is(a2), di);
                } else {
                    assert(details_of(m1, c, u2) == du0);
                }
            }
            assert forall|a2: Seq<char>, u2: Seq<char>|
                #[trigger] commitment_count(m1, c, a2, u2) == 1 implies qty_in(
                quantities_of(m1, c, a2),
                u2,
            ) == qty_in_details(details_of(m1, c, u2), a2) by {
                let qa0 = quantities_of(m0, c, a2);
                let du0 = details_of(m0, c, u2);
                assert(commitment_count(m0, c, a2, u2) == count_matching(qa0, upq_url_is(u2)));
                assert(details_count(m0, c, u2, a2) == count_matching(du0, details_acct_is(a2)));
                if a2 == a && u2 == u {
                    crate::seq_facts::lemma_count_swap_remove(q0, pu, qi);
                } else if a2 == a {
                    crate::seq_facts::lemma_unique_match_swap_remove(qa0, qi, upq_url_is(u2));
                    assert(details_of(m1, c, u2) == du0);
                } else if u2 == u {
                    assert(quantities_of(m1, c, a2) == qa0);
                    crate::seq_facts::lemma_unique_match_swap_remove(du0, di, details_acct_is(a2));
                } else {
                    assert(quantities_of(m1, c, a2) == qa0);
                    assert(details_of(m1, c, u2) == du0);
                }
            }
            assert forall|a2: Seq<char>, i: int|
                0 <= i < quantities_of(m1, c, a2).len() implies (#[trigger] quantities_of(
                m1,
                c,
                a2,
            )[i]).quantity >= 1 by {
                if a2 == a {
                    crate::seq_facts::lemma_swap_remove_contains(q0, qi, i);
                    let k = choose|k: int|
                        0 <= k < q0.len() && q0[k] == #[trigger] q0.update(
                            qi,
                            q0.last(),
                        ).drop_last()[i];
                    assert(quantities_of(m0, c, a2)[k].quantity >= 1);
                } else {
                    assert(quantities_of(m1, c, a2) == quantities_of(m0, c, a2));
                    assert(quantities_of(m0, c, a2)[i].quantity >= 1);
                }
            }
            assert forall|u2: Seq<char>, j: int|
                0 <= j < details_of(m1, c, u2).len() implies (#[trigger] details_of(
                m1,
                c,
                u2,
            )[j]).quantity >= 1 by {
                if u2 == u {
                    crate::seq_facts::lemma_swap_remove_contains(d0, di, j);
                    let k = choose|k: int|
                        0 <= k < d0.len() && d0[k] == #[trigger] d0.update(
                            di,
                            d0.last(),
                        ).drop_last()[j];
                    assert(details_of(m0, c, u2)[k].quantity >= 1);
                } else {
                    assert(details_of(m1, c, u2) == details_of(m0, c, u2));
                    assert(details_of(m0, c, u2)[j].quantity >= 1);
                }
            }
            assert forall|a2: Seq<char>, i: int|
                0 <= i < quantities_of(m1, c, a2).len() implies has_item(
                m1,
                c,
                (#[trigger] quantities_of(m1, c, a2)[i]).url@,
            ) by {
                if a2 == a {
                    crate::seq_facts::lemma_swap_remove_contains(q0, qi, i);
                    let k = choose|k: int|
                        0 <= k < q0.len() && q0[k] == #[trigger] q0.update(
                            qi,
                            q0.last(),
                        ).drop_last()[i];
                    assert(has_item(m0, c, quantities_of(m0, c, a2)[k].url@));
                } else {
                    assert(quantities_of(m1, c, a2) == quantities_of(m0, c, a2));
                    assert(has_item(m0, c, quantities_of(m0, c, a2)[i].url@));
                }
            }
            assert forall|u2: Seq<char>| #[trigger] details_of(m1, c, u2).len() > 0 implies
                has_item(m1, c, u2) by {
                if u2 == u {
                    assert(has_item(m0, c, u));
                } else {
                    assert(details_of(m1, c, u2) == details_of(m0, c, u2));
                }
            }
        }

        assert forall|p2: Seq<char>, k2: Seq<char>| p2 != dpv implies #[trigger] recs(
            m1.group_sizes@,
            p2,
            k2,
        ) == recs(m0.group_sizes@, p2, k2) by {}
        assert forall|p2: Seq<char>, k2: Seq<char>| p2 != dpv implies #[trigger] recs(
            m1.user_quantities@,
            p2,
            k2,
        ) == recs(m0.user_quantities@, p2, k2) by {}
        assert forall|p2: Seq<char>, k2: Seq<char>| p2 != upv implies #[trigger] recs(
            m1.user_details@,
            p2,
            k2,
        ) == recs(m0.user_details@, p2, k2) by {}
        lemma_wf_preserved_others(m0, m1, c);
        crate::model::lemma_wf_assemble(m1, c);
    }
}

/// Reads everything an update needs: the request's quantity, the listing,
/// the item's current aggregate, and the sender's existing commitment, if
/// any.
fn get_update_data(
    m: &Marketplace,
    env: &Env,
    update_item_data: &UpdateItemData,
) -> (r: Result<(u32, StaticItemData, u32, Option<UserProductQuantity>), ContractError>)
    requires
        wf(*m),
    ensures
        ({
            let c = update_item_data.category@;
            let u = update_item_data.url@;
            let a = env.message_sender@;
            &&& (!known_category(c) ==> r == Err::<
                (u32, StaticItemData, u32, Option<UserProductQuantity>),
                ContractError,
            >(ContractError::UnknownCategory))
            &&& (known_category(c) && !has_item(*m, c, u) ==> r == Err::<
                (u32, StaticItemData, u32, Option<UserProductQuantity>),
                ContractError,
            >(ContractError::ItemNotFound))
            &&& (known_category(c) && has_item(*m, c, u) ==> {
                let (new_quantity, item_data, current_group_size, old_quantity_obj) =
                    r.unwrap();
                &&& r is Ok
                &&& new_quantity == update_item_data.user_details.quantity
                &&& item_data == item_of(*m, c, u)
                &&& agg_recs(*m, c, u).len() == 1
                &&& current_group_size == agg_recs(*m, c, u)[0]
                &&& (old_quantity_obj is None <==> commitment_count(*m, c, a, u) == 0)
                &&& (old_quantity_obj is Some ==> commitment_count(*m, c, a, u) == 1
                    && old_quantity_obj.unwrap().quantity as int == qty_in(
                    quantities_of(*m, c, a),
                    u,
                ))
            })
        }),
{
    let ghost c = update_item_data.category@;
    let ghost u = update_item_data.url@;
    let ghost a = env.message_sender@;
    let new_quantity = update_item_data.user_details.quantity;
    let (static_prefix_s, dynamic_prefix_s, _dynamic_prefix_users) = match get_category_prefixes(
        update_item_data.category.as_str(),
    ) {
        Ok(t) => t,
        Err(e) => {
            return Err(e);
        },
    };
    proof {
        crate::model::lemma_wf_cat_of(*m, c);
    }
    let ghost cat0 = crate::model::catalog_of(*m, c);
    let item_data = match crate::state::get_category_item_by_url(
        &m.items,
        static_prefix_s,
        update_item_data.url.as_str(),
    ) {
        Some(v) => v,
        None => {
            proof {
                if has_item(*m, c, u) {
                    let i = choose|i: int| 0 <= i < cat0.len() && #[trigger] cat0[i].url@ == u;
                    assert(false);
                }
            }
            return Err(ContractError::ItemNotFound);
        },
    };
    proof {
        let i = choose|i: int| 0 <= i < cat0.len() && #[trigger] cat0[i].url@ == u && item_data
            == cat0[i];
        assert(has_item(*m, c, u));
        crate::seq_facts::lemma_count_at_least_one(cat0, crate::model::item_url_is(u), i);
        crate::seq_facts::lemma_match_index_valid(cat0, crate::model::item_url_is(u));
        let mi = crate::seq_facts::match_index(cat0, crate::model::item_url_is(u));
        if i != mi {
            if i < mi {
                assert(cat0[i].url@ != cat0[mi].url@);
            } else {
                assert(cat0[mi].url@ != cat0[i].url@);
            }
        }
        assert(item_data == item_of(*m, c, u));
    }
    let current_group_size = match crate::state::get_category_item_group_size(
        &m.group_sizes,
        dynamic_prefix_s,
        update_item_data.url.as_str(),
    ) {
        Some(current_group_size) => current_group_size,
        None => {
            return Err(ContractError::ItemGone);
        },
    };
    let ghost q0 = quantities_of(*m, c, a);
    let ghost pu = upq_url_is(u);
    let old_quantity_obj = crate::state::get_category_user_items_quantities_by_url(
        &m.user_quantities,
        dynamic_prefix_s,
        env.message_sender.as_str(),
        update_item_data.url.as_str(),
    );
    proof {
        match &old_quantity_obj {
            Some(o) => {
                let i = choose|i: int| 0 <= i < q0.len() && #[trigger] q0[i].url@ == u && o
                    == q0[i];
                crate::seq_facts::lemma_count_at_least_one(q0, pu, i);
                assert(commitment_count(*m, c, a, u) == count_matching(q0, pu));
                assert(commitment_count(*m, c, a, u) == 1);
                crate::seq_facts::lemma_match_index_valid(q0, pu);
                crate::seq_facts::lemma_count_one_unique(
                    q0,
                    pu,
                    i,
                    crate::seq_facts::match_index(q0, pu),
                );
            },
            None => {
                assert forall|i: int| 0 <= i < q0.len() implies !#[trigger] pu(q0[i]) by {
                    assert(q0[i].url@ != u);
                }
                crate::seq_facts::lemma_count_zero(q0, pu);
                assert(commitment_count(*m, c, a, u) == count_matching(q0, pu));
            },
        }
    }
    Ok((new_quantity, item_data, current_group_size, old_quantity_obj))
}

/// Builds the refund instruction for `units` withdrawn units, paid to the
/// sender at the item's wanted unit price.
fn refund_user(units: u32, item_data: &StaticItemData, env: &Env) -> (r: Result<
    HandleResponse,
    ContractError,
>)
    requires
        (units as int) * (item_data.wanted_price as int) < 0x1_0000_0000_0000_0000_0000_0000_0000_0000,
    ensures
        r is Ok,
        ({
            let resp = r.unwrap();
            &&& resp.messages@.len() == 1
            &&& resp.messages@[0].from_address@ == env.contract_address@
            &&& resp.messages@[0].to_address@ == env.message_sender@
            &&& resp.messages@[0].denom@ == "uscrt"@
            &&& resp.messages@[0].amount == (units as int) * (item_data.wanted_price as int)
            &&& resp.data is None
        }),
{
    let refund_amount = (units as u128) * item_data.wanted_price;
    crate::handle::transfer_funds(&env.contract_address, &env.message_sender, refund_amount)
}

/// Pays the seller for `units` settled units and tears the item down. A
/// payment that does not fit in 128 bits is rejected before any write.
fn pay_seller(
    units: u64,
    item_data: &StaticItemData,
    env: &Env,
    category: &str,
    url: &str,
    m: &mut Marketplace,
) -> (r: Result<HandleResponse, ContractError>)
    requires
        wf(*old(m)),
        known_category(category@),
        has_item(*old(m), category@, url@),
        item_data.seller_address@ == item_of(*old(m), category@, url@).seller_address@,
    ensures
        wf(*final(m)),
        final(m).viewing_keys == old(m).viewing_keys,
        (units as int) * (item_data.wanted_price as int)
            >= 0x1_0000_0000_0000_0000_0000_0000_0000_0000 ==> r == Err::<
            HandleResponse,
            ContractError,
        >(ContractError::AmountOverflow) && *final(m) == *old(m),
        (units as int) * (item_data.wanted_price as int)
            < 0x1_0000_0000_0000_0000_0000_0000_0000_0000 ==> {
            &&& r is Ok
            &&& r.unwrap().messages@.len() == 1
            &&& r.unwrap().messages@[0].from_address@ == env.contract_address@
            &&& r.unwrap().messages@[0].to_address@ == item_of(
                *old(m),
                category@,
                url@,
            ).seller_address@
            &&& r.unwrap().messages@[0].denom@ == "uscrt"@
            &&& r.unwrap().messages@[0].amount == (units as int) * (item_data.wanted_price as int)
            &&& r.unwrap().data is None
            &&& item_torn_down(*old(m), *final(m), category@, url@)
            &&& untouched_outside_category(*old(m), *final(m), category@)
        },
{
    let seller_payment = match (units as u128).checked_mul(item_data.wanted_price) {
        Some(p) => p,
        None => {
            return Err(ContractError::AmountOverflow);
        },
    };
    let transfer_funds_msg = match crate::handle::transfer_funds(
        &env.contract_address,
        &item_data.seller_address,
        seller_payment,
    ) {
        Ok(v) => v,
        Err(_) => unreached(),
    };
    match crate::handle::remove_item_authenticated(category, url, m) {
        Ok(_) => (),
        Err(_) => unreached(),
    }
    Ok(transfer_funds_msg)
}

/// Withdraws the sender's whole commitment and refunds it in full. The
/// item stays listed, even when its aggregate drops to zero.
fn remove_user_from_item(
    m: &mut Marketplace,
    current_group_size: u32,
    old_quantity: u32,
    env: &Env,
    update_item_data: &UpdateItemData,
    item_data: &StaticItemData,
) -> (r: Result<HandleResponse, ContractError>)
    requires
        wf(*old(m)),
        known_category(update_item_data.category@),
        agg_recs(*old(m), update_item_data.category@, update_item_data.url@).len() == 1,
        current_group_size == agg_recs(
            *old(m),
            update_item_data.category@,
            update_item_data.url@,
        )[0],
        commitment_count(
            *old(m),
            update_item_data.category@,
            env.message_sender@,
            update_item_data.url@,
        ) == 1,
        old_quantity as int == qty_in(
            quantities_of(*old(m), update_item_data.category@, env.message_sender@),
            update_item_data.url@,
        ),
    ensures
        wf(*final(m)),
        final(m).viewing_keys == old(m).viewing_keys,
        (old_quantity as int) * (item_data.wanted_price as int)
            >= 0x1_0000_0000_0000_0000_0000_0000_0000_0000 ==> r == Err::<
            HandleResponse,
            ContractError,
        >(ContractError::AmountOverflow) && *final(m) == *old(m),
        (old_quantity as int) * (item_data.wanted_price as int)
            < 0x1_0000_0000_0000_0000_0000_0000_0000_0000 ==> {
            let c = update_item_data.category@;
            let u = update_item_data.url@;
            let a = env.message_sender@;
            &&& r is Ok
            &&& r.unwrap().messages@.len() == 1
            &&& r.unwrap().messages@[0].from_address@ == env.contract_address@
            &&& r.unwrap().messages@[0].to_address@ == a
            &&& r.unwrap().messages@[0].denom@ == "uscrt"@
            &&& r.unwrap().messages@[0].amount == old_quantity as int
                * item_data.wanted_price as int
            &&& r.unwrap().data is None
            &&& untouched_outside_category(*old(m), *final(m), c)
            &&& final(m).items == old(m).items
            &&& agg_recs(*final(m), c, u) == seq![(current_group_size - old_quantity) as u32]
            &&& (forall|u2: Seq<char>|
                u2 != u ==> #[trigger] agg_recs(*final(m), c, u2) == agg_recs(*old(m), c, u2))
            &&& commitment_count(*final(m), c, a, u) == 0
            &&& quantities_of(*final(m), c, a) == minus_url(quantities_of(*old(m), c, a), u)
            &&& (forall|a2: Seq<char>|
                a2 != a ==> #[trigger] quantities_of(*final(m), c, a2) == quantities_of(
                    *old(m),
                    c,
                    a2,
                ))
            &&& details_count(*final(m), c, u, a) == 0
            &&& (forall|u2: Seq<char>|
                u2 != u ==> #[trigger] details_of(*final(m), c, u2) == details_of(
                    *old(m),
                    c,
                    u2,
                ))
        },
{
    let ghost c = update_item_data.category@;
    let ghost u = update_item_data.url@;
    let ghost a = env.message_sender@;
    proof {
        crate::model::lemma_wf_cat_of(*old(m), c);
        crate::model::lemma_commitment_le_aggregate(*old(m), c, a, u);
    }
    if (old_quantity as u128).checked_mul(item_data.wanted_price).is_none() {
        return Err(ContractError::AmountOverflow);
    }
    let ghost q0 = quantities_of(*old(m), c, a);
    let ghost d0 = details_of(*old(m), c, u);
    let ghost pu = upq_url_is(u);
    let ghost pa = details_acct_is(a);
    apply_leave(
        m,
        update_item_data.category.as_str(),
        update_item_data.url.as_str(),
        env.message_sender.as_str(),
        current_group_size - old_quantity,
    );
    proof {
        crate::seq_facts::lemma_match_index_valid(q0, pu);
        crate::seq_facts::lemma_count_swap_remove(
            q0,
            pu,
            crate::seq_facts::match_index(q0, pu),
        );
        assert(details_count(*old(m), c, u, a) == 1);
        crate::seq_facts::lemma_match_index_valid(d0, pa);
        crate::seq_facts::lemma_count_swap_remove(
            d0,
            pa,
            crate::seq_facts::match_index(d0, pa),
        );
    }
    refund_user(old_quantity, item_data, env)
}

/// Handles an update from an account with no existing commitment: a join.
/// A zero quantity is rejected; reaching the goal pays the seller and tears
/// the item down without persisting the joiner's own records; otherwise the
/// commitment is persisted under the sender in both ledger views.
fn update_item_new_user(
    current_group_size: u32,
    item_data: &StaticItemData,
    env: &Env,
    update_item_data: &UpdateItemData,
    m: &mut Marketplace,
) -> (r: Result<HandleResponse, ContractError>)
    requires
        wf(*old(m)),
        known_category(update_item_data.category@),
        has_item(*old(m), update_item_data.category@, update_item_data.url@),
        item_data == item_of(*old(m), update_item_data.category@, update_item_data.url@),
        agg_recs(*old(m), update_item_data.category@, update_item_data.url@).len() == 1,
        current_group_size == agg_recs(
            *old(m),
            update_item_data.category@,
            update_item_data.url@,
        )[0],
        commitment_count(
            *old(m),
            update_item_data.category@,
            env.message_sender@,
            update_item_data.url@,
        ) == 0,
    ensures
        wf(*final(m)),
        final(m).viewing_keys == old(m).viewing_keys,
        ({
            let c = update_item_data.category@;
            let u = update_item_data.url@;
            let a = env.message_sender@;
            let q = update_item_data.user_details.quantity;
            let goal = item_of(*old(m), c, u).group_size_goal;
            let price = item_of(*old(m), c, u).wanted_price;
            if q == 0 {
                r == Err::<HandleResponse, ContractError>(ContractError::ZeroQuantity)
                    && *final(m) == *old(m)
            } else if current_group_size + q >= goal {
                if (current_group_size + q) * price
                    >= 0x1_0000_0000_0000_0000_0000_0000_0000_0000 {
                    r == Err::<HandleResponse, ContractError>(ContractError::AmountOverflow)
                        && *final(m) == *old(m)
                } else {
                    &&& r is Ok
                    &&& r.unwrap().messages@.len() == 1
                    &&& r.unwrap().messages@[0].from_address@ == env.contract_address@
                    &&& r.unwrap().messages@[0].to_address@ == item_of(
                        *old(m),
                        c,
                        u,
                    ).seller_address@
                    &&& r.unwrap().messages@[0].denom@ == "uscrt"@
                    &&& r.unwrap().messages@[0].amount == (current_group_size + q) * price
                    &&& r.unwrap().data is None
                    &&& item_torn_down(*old(m), *final(m), c, u)
                    &&& untouched_outside_category(*old(m), *final(m), c)
                }
            } else {
                &&& r is Ok
                &&& r.unwrap().messages@.len() == 0
                &&& r.unwrap().data == Some(
                    crate::msg::HandleAnswer::UpdateItem {
                        status: crate::msg::ResponseStatus::Success,
                    },
                )
                &&& untouched_outside_category(*old(m), *final(m), c)
                &&& final(m).items == old(m).items
                &&& agg_recs(*final(m), c, u) == seq![(current_group_size + q) as u32]
                &&& (forall|u2: Seq<char>|
                    u2 != u ==> #[trigger] agg_recs(*final(m), c, u2) == agg_recs(
                        *old(m),
                        c,
                        u2,
                    ))
                &&& commitment_count(*final(m), c, a, u) == 1
                &&& qty_in(quantities_of(*final(m), c, a), u) == q
                &&& (forall|a2: Seq<char>|
                    a2 != a ==> #[trigger] quantities_of(*final(m), c, a2) == quantities_of(
                        *old(m),
                        c,
                        a2,
                    ))
                &&& details_of(*final(m), c, u).len() == details_of(*old(m), c, u).len() + 1
                &&& details_of(*final(m), c, u).last().account_address@ == a
                &&& details_of(*final(m), c, u).last().quantity == q
                &&& details_of(*final(m), c, u).last().contact_data
                    == update_item_data.user_details.contact_data
                &&& (forall|u2: Seq<char>|
                    u2 != u ==> #[trigger] details_of(*final(m), c, u2) == details_of(
                        *old(m),
                        c,
                        u2,
                    ))
            }
        }),
{
    let ghost c = update_item_data.category@;
    let ghost u = update_item_data.url@;
    let ghost a = env.message_sender@;
    let new_quantity = update_item_data.user_details.quantity;
    if new_quantity == 0 {
        return Err(ContractError::ZeroQuantity);
    }
    let size64: u64 = current_group_size as u64 + new_quantity as u64;
    if size64 >= item_data.group_size_goal as u64 {
        return pay_seller(
            size64,
            item_data,
            env,
            update_item_data.category.as_str(),
            update_item_data.url.as_str(),
            m,
        );
    }
    let details = UserItemDetails {
        account_address: env.message_sender.clone(),
        contact_data: update_item_data.user_details.contact_data.dup(),
        quantity: new_quantity,
    };
    let ghost q0 = quantities_of(*old(m), c, a);
    let ghost d0 = details_of(*old(m), c, u);
    apply_join(
        m,
        update_item_data.category.as_str(),
        update_item_data.url.as_str(),
        env.message_sender.as_str(),
        &details,
        size64 as u32,
    );
    proof {
        let q1 = quantities_of(*m, c, a);
        crate::seq_facts::lemma_count_push(q0, upq_url_is(u), q1.last());
        crate::seq_facts::lemma_match_push_new(q0, q1.last(), upq_url_is(u));
        crate::seq_facts::lemma_count_push(d0, details_acct_is(a), details_of(*m, c, u).last());
    }
    Ok(
        HandleResponse {
            messages: Vec::new(),
            data: Some(
                crate::msg::HandleAnswer::UpdateItem {
                    status: crate::msg::ResponseStatus::Success,
                },
            ),
        },
    )
}

/// Dispatches a commitment request: a sender without a commitment joins
/// (or finalizes) the item; one with a commitment shrinks it, withdraws it
/// for a refund, grows it, or finalizes the item by reaching its goal.
pub fn update_user_for_item(m: &mut Marketplace, env: &Env, update_item_data: UpdateItemData) -> (r:
    Result<HandleResponse, ContractError>)
    requires
        wf(*old(m)),
    ensures
        wf(*final(m)),
        final(m).viewing_keys == old(m).viewing_keys,
        r is Err ==> *final(m) == *old(m),
        ({
            let c = update_item_data.category@;
            let u = update_item_data.url@;
            let a = env.message_sender@;
            let q = update_item_data.user_details.quantity;
            &&& (!known_category(c) ==> r == Err::<HandleResponse, ContractError>(
                ContractError::UnknownCategory,
            ))
            &&& (known_category(c) && !has_item(*old(m), c, u) ==> r == Err::<
                HandleResponse,
                ContractError,
            >(ContractError::ItemNotFound))
            &&& (known_category(c) && has_item(*old(m), c, u) && commitment_count(
                *old(m),
                c,
                a,
                u,
            ) == 0 ==> {
                let agg0 = agg_recs(*old(m), c, u)[0];
                let goal = item_of(*old(m), c, u).group_size_goal;
                let price = item_of(*old(m), c, u).wanted_price;
                if q == 0 {
                    r == Err::<HandleResponse, ContractError>(ContractError::ZeroQuantity)
                } else if agg0 + q >= goal {
                    if (agg0 + q) * price < 0x1_0000_0000_0000_0000_0000_0000_0000_0000 {
                        &&& r is Ok
                        &&& r.unwrap().messages@.len() == 1
                        &&& r.unwrap().messages@[0].to_address@ == item_of(
                            *old(m),
                            c,
                            u,
                        ).seller_address@
                        &&& r.unwrap().messages@[0].amount == (agg0 + q) * price
                        &&& r.unwrap().data is None
                        &&& item_torn_down(*old(m), *final(m), c, u)
                        &&& untouched_outside_category(*old(m), *final(m), c)
                    } else {
                        r == Err::<HandleResponse, ContractError>(ContractError::AmountOverflow)
                    }
                } else {
                    &&& r is Ok
                    &&& r.unwrap().messages@.len() == 0
                    &&& r.unwrap().data == Some(
                        crate::msg::HandleAnswer::UpdateItem {
                            status: crate::msg::ResponseStatus::Success,
                        },
                    )
                    &&& agg_recs(*final(m), c, u) == seq![(agg0 + q) as u32]
                    &&& commitment_count(*final(m), c, a, u) == 1
                    &&& qty_in(quantities_of(*final(m), c, a), u) == q
                    &&& final(m).items == old(m).items
                    &&& untouched_outside_category(*old(m), *final(m), c)
                    &&& (forall|u2: Seq<char>|
                        u2 != u ==> #[trigger] agg_recs(*final(m), c, u2) == agg_recs(
                            *old(m),
                            c,
                            u2,
                        ))
                    &&& (forall|a2: Seq<char>|
                        a2 != a ==> #[trigger] quantities_of(*final(m), c, a2) == quantities_of(
                            *old(m),
                            c,
                            a2,
                        ))
                    &&& (forall|u2: Seq<char>|
                        u2 != u ==> #[trigger] details_of(*final(m), c, u2) == details_of(
                            *old(m),
                            c,
                            u2,
                        ))
                    &&& details_of(*final(m), c, u).len() == details_of(*old(m), c, u).len()
                        + 1
                    &&& details_of(*final(m), c, u).last().account_address@ == a
                    &&& details_of(*final(m), c, u).last().quantity == q
                    &&& details_of(*final(m), c, u).last().contact_data
                        == update_item_data.user_details.contact_data
                }
            })
            &&& (known_category(c) && has_item(*old(m), c, u) && commitment_count(
                *old(m),
                c,
                a,
                u,
            ) == 1 ==> {
                let agg0 = agg_recs(*old(m), c, u)[0];
                let goal = item_of(*old(m), c, u).group_size_goal;
                let price = item_of(*old(m), c, u).wanted_price;
                let oldq = qty_in(quantities_of(*old(m), c, a), u);
                if q == 0 {
                    if oldq * price < 0x1_0000_0000_0000_0000_0000_0000_0000_0000 {
                        &&& r is Ok
                        &&& r.unwrap().messages@.len() == 1
                        &&& r.unwrap().messages@[0].to_address@ == a
                        &&& r.unwrap().messages@[0].amount == oldq * price
                        &&& r.unwrap().data is None
                        &&& agg_recs(*final(m), c, u) == seq![(agg0 - oldq) as u32]
                        &&& commitment_count(*final(m), c, a, u) == 0
                        &&& has_item(*final(m), c, u)
                        &&& quantities_of(*final(m), c, a) == minus_url(
                            quantities_of(*old(m), c, a),
                            u,
                        )
                        &&& details_count(*final(m), c, u, a) == 0
                    &&& final(m).items == old(m).items
                    &&& untouched_outside_category(*old(m), *final(m), c)
                    &&& (forall|u2: Seq<char>|
                        u2 != u ==> #[trigger] agg_recs(*final(m), c, u2) == agg_recs(
                            *old(m),
                            c,
                            u2,
                        ))
                    &&& (forall|a2: Seq<char>|
                        a2 != a ==> #[trigger] quantities_of(*final(m), c, a2) == quantities_of(
                            *old(m),
                            c,
                            a2,
                        ))
                    &&& (forall|u2: Seq<char>|
                        u2 != u ==> #[trigger] details_of(*final(m), c, u2) == details_of(
                            *old(m),
                            c,
                            u2,
                        ))
                    } else {
                        r == Err::<HandleResponse, ContractError>(ContractError::AmountOverflow)
                    }
                } else if q > oldq && agg0 + q - oldq >= goal {
                    if (agg0 + q - oldq) * price < 0x1_0000_0000_0000_0000_0000_0000_0000_0000 {
                        &&& r is Ok
                        &&& r.unwrap().messages@.len() == 1
                        &&& r.unwrap().messages@[0].to_address@ == item_of(
                            *old(m),
                            c,
                            u,
                        ).seller_address@
                        &&& r.unwrap().messages@[0].amount == (agg0 + q - oldq) * price
                        &&& r.unwrap().data is None
                        &&& item_torn_down(*old(m), *final(m), c, u)
                        &&& untouched_outside_category(*old(m), *final(m), c)
                    } else {
                        r == Err::<HandleResponse, ContractError>(ContractError::AmountOverflow)
                    }
                } else if q < oldq && (oldq - q) * price
                    >= 0x1_0000_0000_0000_0000_0000_0000_0000_0000 {
                    r == Err::<HandleResponse, ContractError>(ContractError::AmountOverflow)
                } else {
                    {
                        &&& r is Ok
                        &&& agg_recs(*final(m), c, u) == seq![(agg0 + q - oldq) as u32]
                        &&& commitment_count(*final(m), c, a, u) == 1
                        &&& qty_in(quantities_of(*final(m), c, a), u) == q
                        &&& has_item(*final(m), c, u)
                    &&& final(m).items == old(m).items
                    &&& untouched_outside_category(*old(m), *final(m), c)
                    &&& (forall|u2: Seq<char>|
                        u2 != u ==> #[trigger] agg_recs(*final(m), c, u2) == agg_recs(
                            *old(m),
                            c,
                            u2,
                        ))
                    &&& (forall|a2: Seq<char>|
                        a2 != a ==> #[trigger] quantities_of(*final(m), c, a2) == quantities_of(
                            *old(m),
                            c,
                            a2,
                        ))
                    &&& (forall|u2: Seq<char>|
                        u2 != u ==> #[trigger] details_of(*final(m), c, u2) == details_of(
                            *old(m),
                            c,
                            u2,
                        ))
                    &&& ({
                        let d0 = details_of(*old(m), c, u);
                        let d1 = details_of(*final(m), c, u);
                        let di = crate::seq_facts::match_index(d0, details_acct_is(a));
                        &&& 0 <= di < d0.len()
                        &&& d1 == d0.update(di, d1[di])
                        &&& d1[di].account_address@ == a
                        &&& d1[di].quantity == q
                        &&& d1[di].contact_data == update_item_data.user_details.contact_data
                    })
                        &&& (q < oldq ==> r.unwrap().messages@.len() == 1
                            && r.unwrap().messages@[0].to_address@ == a
                            && r.unwrap().messages@[0].amount == (oldq - q) * price
                            && r.unwrap().data is None)
                        &&& (q >= oldq ==> r.unwrap().messages@.len() == 0 && r.unwrap().data
                            == Some(
                            crate::msg::HandleAnswer::UpdateItem {
                                status: crate::msg::ResponseStatus::Success,
                            },
                        ))
                    }
                }
            })
        }),
{
    let ghost m0 = *old(m);
    let ghost c = update_item_data.category@;
    let ghost u = update_item_data.url@;
    let ghost a = env.message_sender@;
    let (new_quantity, item_data, current_group_size, old_quantity_obj) = match get_update_data(
        m,
        env,
        &update_item_data,
    ) {
        Ok(t) => t,
        Err(e) => {
            return Err(e);
        },
    };
    proof {
        crate::model::lemma_wf_cat_of(m0, c);
    }

    if old_quantity_obj.is_none() {
        return update_item_new_user(current_group_size, &item_data, env, &update_item_data, m);
    }

    let old_quantity = old_quantity_obj.unwrap().quantity;
    proof {
        crate::model::lemma_commitment_le_aggregate(m0, c, a, u);
    }

    if new_quantity == 0 {
        return remove_user_from_item(
            m,
            current_group_size,
            old_quantity,
            env,
            &update_item_data,
            &item_data,
        );
    }

    // The invariants guarantee the subtraction cannot underflow; defend
    // anyway, as an already-broken ledger must never settle silently.
    if old_quantity > current_group_size {
        return Err(ContractError::InternalConsistency);
    }
    let size64: u64 = (current_group_size - old_quantity) as u64 + new_quantity as u64;

    if new_quantity > old_quantity && size64 >= item_data.group_size_goal as u64 {
        return pay_seller(
            size64,
            &item_data,
            env,
            update_item_data.category.as_str(),
            update_item_data.url.as_str(),
            m,
        );
    }

    if new_quantity < old_quantity {
        if ((old_quantity - new_quantity) as u128).checked_mul(item_data.wanted_price).is_none() {
            return Err(ContractError::AmountOverflow);
        }
        let details = UserItemDetails {
            account_address: env.message_sender.clone(),
            contact_data: update_item_data.user_details.contact_data.dup(),
            quantity: new_quantity,
        };
        update_item_in_stores(
            m,
            update_item_data.category.as_str(),
            update_item_data.url.as_str(),
            env.message_sender.as_str(),
            &update_item_data,
            &details,
            size64 as u32,
        );
        proof {
            lemma_updated_commitment(m0, *m, c, u, a, new_quantity);
            assert(details_count(m0, c, u, a) == count_matching(
                details_of(m0, c, u),
                details_acct_is(a),
            ));
            crate::seq_facts::lemma_match_index_valid(details_of(m0, c, u), details_acct_is(a));
        }
        return refund_user(old_quantity - new_quantity, &item_data, env);
    }

    let details = UserItemDetails {
        account_address: env.message_sender.clone(),
        contact_data: update_item_data.user_details.contact_data.dup(),
        quantity: new_quantity,
    };
    update_item_in_stores(
        m,
        update_item_data.category.as_str(),
        update_item_data.url.as_str(),
        env.message_sender.as_str(),
        &update_item_data,
        &details,
        size64 as u32,
    );
    proof {
        lemma_updated_commitment(m0, *m, c, u, a, new_quantity);
        assert(details_count(m0, c, u, a) == count_matching(
            details_of(m0, c, u),
            details_acct_is(a),
        ));
        crate::seq_facts::lemma_match_index_valid(details_of(m0, c, u), details_acct_is(a));
    }
    Ok(
        HandleResponse {
            messages: Vec::new(),
            data: Some(
                crate::msg::HandleAnswer::UpdateItem {
                    status: crate::msg::ResponseStatus::Success,
                },
            ),
        },
    )
}

/// What a commitment request does: joins route to a fresh commitment or a
/// finalization, updates shrink, withdraw, grow or finalize, refunds and
/// seller payment are mutually exclusive, and errors leave no trace.
pub open spec fn update_item_outcome(
    m0: Marketplace,
    m1: Marketplace,
    env: Env,
    update_item_data: UpdateItemData,
    r: Result<HandleResponse, ContractError>,
) -> bool {
    &&& m1.viewing_keys == m0.viewing_keys
    &&& (r is Err ==> m1 == m0)
    &&& ({
        let c = update_item_data.category@;
        let u = update_item_data.url@;
        let a = env.message_sender@;
        let q = update_item_data.user_details.quantity;
        &&& (!known_category(c) ==> r == Err::<HandleResponse, ContractError>(
            ContractError::UnknownCategory,
        ))
        &&& (known_category(c) && !has_item(m0, c, u) ==> r == Err::<
            HandleResponse,
            ContractError,
        >(ContractError::ItemNotFound))
        &&& (known_category(c) && has_item(m0, c, u) && commitment_count(m0, c, a, u) == 0
            ==> {
            let agg0 = agg_recs(m0, c, u)[0];
            let goal = item_of(m0, c, u).group_size_goal;
            let price = item_of(m0, c, u).wanted_price;
            if q == 0 {
                r == Err::<HandleResponse, ContractError>(ContractError::ZeroQuantity)
            } else if agg0 + q >= goal {
                if (agg0 + q) * price < 0x1_0000_0000_0000_0000_0000_0000_0000_0000 {
                    &&& r is Ok
                    &&& r.unwrap().messages@.len() == 1
                    &&& r.unwrap().messages@[0].to_address@ == item_of(m0, c, u).seller_address@
                    &&& r.unwrap().messages@[0].amount == (agg0 + q) * price
                    &&& r.unwrap().data is None
                    &&& item_torn_down(m0, m1, c, u)
                    &&& untouched_outside_category(m0, m1, c)
                } else {
                    r == Err::<HandleResponse, ContractError>(ContractError::AmountOverflow)
                }
            } else {
                &&& r is Ok
                &&& r.unwrap().messages@.len() == 0
                &&& r.unwrap().data == Some(
                    crate::msg::HandleAnswer::UpdateItem {
                        status: crate::msg::ResponseStatus::Success,
                    },
                )
                &&& agg_recs(m1, c, u) == seq![(agg0 + q) as u32]
                &&& commitment_count(m1, c, a, u) == 1
                &&& qty_in(quantities_of(m1, c, a), u) == q
                &&& m1.items == m0.items
                &&& untouched_outside_category(m0, m1, c)
                &&& (forall|u2: Seq<char>|
                    u2 != u ==> #[trigger] agg_recs(m1, c, u2) == agg_recs(m0, c, u2))
                &&& (forall|a2: Seq<char>|
                    a2 != a ==> #[trigger] quantities_of(m1, c, a2) == quantities_of(m0, c, a2))
                &&& (forall|u2: Seq<char>|
                    u2 != u ==> #[trigger] details_of(m1, c, u2) == details_of(m0, c, u2))
                &&& details_of(m1, c, u).len() == details_of(m0, c, u).len() + 1
                &&& details_of(m1, c, u).last().account_address@ == a
                &&& details_of(m1, c, u).last().quantity == q
                &&& details_of(m1, c, u).last().contact_data
                    == update_item_data.user_details.contact_data
            }
        })
        &&& (known_category(c) && has_item(m0, c, u) && commitment_count(m0, c, a, u) == 1
            ==> {
            let agg0 = agg_recs(m0, c, u)[0];
            let goal = item_of(m0, c, u).group_size_goal;
            let price = item_of(m0, c, u).wanted_price;
            let oldq = qty_in(quantities_of(m0, c, a), u);
            if q == 0 {
                if oldq * price < 0x1_0000_0000_0000_0000_0000_0000_0000_0000 {
                    &&& r is Ok
                    &&& r.unwrap().messages@.len() == 1
                    &&& r.unwrap().messages@[0].to_address@ == a
                    &&& r.unwrap().messages@[0].amount == oldq * price
                    &&& r.unwrap().data is None
                    &&& agg_recs(m1, c, u) == seq![(agg0 - oldq) as u32]
                    &&& commitment_count(m1, c, a, u) == 0
                    &&& has_item(m1, c, u)
                    &&& quantities_of(m1, c, a) == minus_url(quantities_of(m0, c, a), u)
                    &&& details_count(m1, c, u, a) == 0
                &&& m1.items == m0.items
                &&& untouched_outside_category(m0, m1, c)
                &&& (forall|u2: Seq<char>|
                    u2 != u ==> #[trigger] agg_recs(m1, c, u2) == agg_recs(m0, c, u2))
                &&& (forall|a2: Seq<char>|
                    a2 != a ==> #[trigger] quantities_of(m1, c, a2) == quantities_of(m0, c, a2))
                &&& (forall|u2: Seq<char>|
                    u2 != u ==> #[trigger] details_of(m1, c, u2) == details_of(m0, c, u2))
                } else {
                    r == Err::<HandleResponse, ContractError>(ContractError::AmountOverflow)
                }
            } else if q > oldq && agg0 + q - oldq >= goal {
                if (agg0 + q - oldq) * price < 0x1_0000_0000_0000_0000_0000_0000_0000_0000 {
                    &&& r is Ok
                    &&& r.unwrap().messages@.len() == 1
                    &&& r.unwrap().messages@[0].to_address@ == item_of(m0, c, u).seller_address@
                    &&& r.unwrap().messages@[0].amount == (agg0 + q - oldq) * price
                    &&& r.unwrap().data is None
                    &&& item_torn_down(m0, m1, c, u)
                    &&& untouched_outside_category(m0, m1, c)
                } else {
                    r == Err::<HandleResponse, ContractError>(ContractError::AmountOverflow)
                }
            } else if q < oldq && (oldq - q) * price
                >= 0x1_0000_0000_0000_0000_0000_0000_0000_0000 {
                r == Err::<HandleResponse, ContractError>(ContractError::AmountOverflow)
            } else {
                {
                    &&& r is Ok
                    &&& agg_recs(m1, c, u) == seq![(agg0 + q - oldq) as u32]
                    &&& commitment_count(m1, c, a, u) == 1
                    &&& qty_in(quantities_of(m1, c, a), u) == q
                    &&& has_item(m1, c, u)
                &&& m1.items == m0.items
                &&& untouched_outside_category(m0, m1, c)
                &&& (forall|u2: Seq<char>|
                    u2 != u ==> #[trigger] agg_recs(m1, c, u2) == agg_recs(m0, c, u2))
                &&& (forall|a2: Seq<char>|
                    a2 != a ==> #[trigger] quantities_of(m1, c, a2) == quantities_of(m0, c, a2))
                &&& (forall|u2: Seq<char>|
                    u2 != u ==> #[trigger] details_of(m1, c, u2) == details_of(m0, c, u2))
                &&& ({
                    let d0 = details_of(m0, c, u);
                    let d1 = details_of(m1, c, u);
                    let di = crate::seq_facts::match_index(d0, details_acct_is(a));
                    &&& 0 <= di < d0.len()
                    &&& d1 == d0.update(di, d1[di])
                    &&& d1[di].account_address@ == a
                    &&& d1[di].quantity == q
                    &&& d1[di].contact_data == update_item_data.user_details.contact_data
                })
                    &&& (q < oldq ==> r.unwrap().messages@.len() == 1
                        && r.unwrap().messages@[0].to_address@ == a
                        && r.unwrap().messages@[0].amount == (oldq - q) * price
                        && r.unwrap().data is None)
                    &&& (q >= oldq ==> r.unwrap().messages@.len() == 0 && r.unwrap().data == Some(
                        crate::msg::HandleAnswer::UpdateItem {
                            status: crate::msg::ResponseStatus::Success,
                        },
                    ))
                }
            }
        })
    })
}

/// After `update_item_in_stores`, the sender holds exactly one commitment
/// for the item, carrying the new quantity.
proof fn lemma_updated_commitment(
    m0: Marketplace,
    m1: Marketplace,
    c: Seq<char>,
    u: Seq<char>,
    a: Seq<char>,
    q: u32,
)
    requires
        commitment_count(m0, c, a, u) == 1,
        ({
            let q0 = quantities_of(m0, c, a);
            let q1 = quantities_of(m1, c, a);
            let qi = crate::seq_facts::match_index(q0, upq_url_is(u));
            &&& q1 == q0.update(qi, q1[qi])
            &&& q1[qi].url@ == u
            &&& q1[qi].quantity == q
        }),
    ensures
        commitment_count(m1, c, a, u) == 1,
        qty_in(quantities_of(m1, c, a), u) == q,
{
    let q0 = quantities_of(m0, c, a);
    let q1 = quantities_of(m1, c, a);
    let pu = upq_url_is(u);
    let qi = crate::seq_facts::match_index(q0, pu);
    crate::seq_facts::lemma_match_index_valid(q0, pu);
    crate::seq_facts::lemma_unique_match_update(q0, qi, q1[qi], pu);
}

/// The two catalogs are the same sequence.
pub open spec fn catalog_of_same(m0: Marketplace, m1: Marketplace, c: Seq<char>) -> bool {
    crate::model::catalog_of(m1, c) == crate::model::catalog_of(m0, c)
}

/// With equal catalogs, the same items are listed.
pub proof fn lemma_has_item_same(m0: Marketplace, m1: Marketplace, c: Seq<char>, x: Seq<char>)
    requires
        catalog_of_same(m0, m1, c),
    ensures
        has_item(m1, c, x) == has_item(m0, c, x),
        has_item(m1, c, x) ==> item_of(m1, c, x) == item_of(m0, c, x),
{
    let cat0 = crate::model::catalog_of(m0, c);
    let cat1 = crate::model::catalog_of(m1, c);
    if has_item(m0, c, x) {
        let i = choose|i: int| 0 <= i < cat0.len() && #[trigger] cat0[i].url@ == x;
        assert(cat1[i].url@ == x);
        assert(has_item(m1, c, x));
    }
    if has_item(m1, c, x) {
        let i = choose|i: int| 0 <= i < cat1.len() && #[trigger] cat1[i].url@ == x;
        assert(cat0[i].url@ == x);
        assert(has_item(m0, c, x));
    }
}

} // verus!

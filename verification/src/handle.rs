//! The settlement engine's listing-level operations: listing a new item,
//! authenticated removal with full teardown of an item across every storage
//! region, credential updates, and the payment instruction builder.

use vstd::prelude::*;
use crate::msg::{BankTransfer, ContractError, Env, HandleAnswer, HandleMsg, HandleResponse, RemoveItemData, ResponseStatus, StaticItemData};
use crate::model::{agg_recs, appears_before, catalog_of, commitment_count, details_acct_is, details_count, details_of, has_item, item_torn_down, item_url_is, minus_url, qty_in, qty_in_details, quantities_of, total_quantity, untouched_outside_category, upq_qty_for, upq_url_is, wf, wf_cat};
use crate::seq_facts::{count_matching, match_index};
use crate::state::{dynamic_prefix, stores_wf, get_category_prefixes, get_all_participating_users_addresses, get_category_item_by_url, known_category, remove_all_category_item_users_details, remove_category_item, remove_current_group_size, remove_user_item_quantity, save_new_item, static_prefix, update_current_group_size, users_prefix, Marketplace};
use crate::store::recs;
use crate::viewing_key::ViewingKey;

verus! {

/// The shape of a successful handle reply.
pub enum HandleResp {
    Success,
    ViewingKey(String),
}

/// Builds the single outbound payment instruction of an invocation.
pub fn transfer_funds(from_address: &String, to_address: &String, amount: u128) -> (r: Result<
    HandleResponse,
    ContractError,
>)
    ensures
        r is Ok,
        ({
            let resp = r.unwrap();
            &&& resp.messages@.len() == 1
            &&& resp.messages@[0].from_address@ == from_address@
            &&& resp.messages@[0].to_address@ == to_address@
            &&& resp.messages@[0].denom@ == "uscrt"@
            &&& resp.messages@[0].amount == amount
            &&& resp.data is None
        }),
{
    let msg = BankTransfer {
        from_address: from_address.clone(),
        to_address: to_address.clone(),
        denom: "uscrt".to_owned(),
        amount,
    };
    let mut messages: Vec<BankTransfer> = Vec::new();
    messages.push(msg);
    Ok(HandleResponse { messages, data: None })
}

/// Stores the sender's credential, hashed.
pub fn set_viewing_key(m: &mut Marketplace, env: &Env, key: String) -> (r: Result<
    HandleResponse,
    ContractError,
>)
    requires
        wf(*old(m)),
    ensures
        wf(*final(m)),
        final(m).items == old(m).items,
        final(m).group_sizes == old(m).group_sizes,
        final(m).user_quantities == old(m).user_quantities,
        final(m).user_details == old(m).user_details,
        crate::viewing_key::has_cred(final(m).viewing_keys@, env.message_sender@),
        crate::viewing_key::cred_of(final(m).viewing_keys@, env.message_sender@)
            == crate::utils::sha256_of(key@),
        forall|a2: Seq<char>|
            a2 != env.message_sender@ ==> (#[trigger] crate::viewing_key::has_cred(
                final(m).viewing_keys@,
                a2,
            ) == crate::viewing_key::has_cred(old(m).viewing_keys@, a2)
                && (crate::viewing_key::has_cred(old(m).viewing_keys@, a2)
                ==> crate::viewing_key::cred_of(final(m).viewing_keys@, a2)
                == crate::viewing_key::cred_of(old(m).viewing_keys@, a2))),
        r is Ok,
        ({
            let resp = r.unwrap();
            &&& resp.messages@.len() == 0
            &&& resp.data == Some(
                HandleAnswer::SetViewingKey { status: ResponseStatus::Success },
            )
        }),
{
    let ghost m0 = *old(m);
    let vk = ViewingKey(key);
    ViewingKey::write_viewing_key(&mut m.viewing_keys, env.message_sender.as_str(), &vk);
    proof {
        crate::model::lemma_wf_same_stores(m0, *m);
    }
    Ok(
        HandleResponse {
            messages: Vec::new(),
            data: Some(HandleAnswer::SetViewingKey { status: ResponseStatus::Success }),
        },
    )
}

/// Lists a new item: appends it to its category's catalog and creates its
/// aggregate slot holding zero. A url already listed in the category is
/// rejected, so that the aggregate invariant cannot be broken by a reset.
pub fn add_new_item(m: &mut Marketplace, static_item_data: StaticItemData) -> (r: Result<
    HandleResponse,
    ContractError,
>)
    requires
        wf(*old(m)),
    ensures
        wf(*final(m)),
        !known_category(static_item_data.category@) ==> r == Err::<HandleResponse, ContractError>(
            ContractError::UnknownCategory,
        ) && *final(m) == *old(m),
        known_category(static_item_data.category@) && has_item(
            *old(m),
            static_item_data.category@,
            static_item_data.url@,
        ) ==> r == Err::<HandleResponse, ContractError>(ContractError::AlreadyListed) && *final(m)
            == *old(m),
        known_category(static_item_data.category@) && !has_item(
            *old(m),
            static_item_data.category@,
            static_item_data.url@,
        ) ==> {
            let c = static_item_data.category@;
            let u = static_item_data.url@;
            &&& r is Ok
            &&& r.unwrap().messages@.len() == 0
            &&& r.unwrap().data == Some(
                HandleAnswer::AddItem { status: ResponseStatus::Success },
            )
            &&& catalog_of(*final(m), c) == catalog_of(*old(m), c).push(static_item_data)
            &&& agg_recs(*final(m), c, u) == seq![0u32]
            &&& (forall|u2: Seq<char>|
                u2 != u ==> #[trigger] agg_recs(*final(m), c, u2) == agg_recs(*old(m), c, u2))
            &&& final(m).user_quantities == old(m).user_quantities
            &&& final(m).user_details == old(m).user_details
            &&& final(m).viewing_keys == old(m).viewing_keys
            &&& untouched_outside_category(*old(m), *final(m), c)
        },
{
    let (sp, dp, _up) = match get_category_prefixes(static_item_data.category.as_str()) {
        Ok(t) => t,
        Err(e) => {
            return Err(e);
        },
    };
    let ghost m0 = *old(m);
    let ghost c = static_item_data.category@;
    let ghost u = static_item_data.url@;
    let ghost cat0 = catalog_of(m0, c);
    proof {
        crate::model::lemma_wf_cat_of(m0, c);
    }
    if get_category_item_by_url(&m.items, sp, static_item_data.url.as_str()).is_some() {
        proof {
            let i = choose|i: int| 0 <= i < cat0.len() && #[trigger] cat0[i].url@ == u;
            assert(has_item(m0, c, u));
        }
        return Err(ContractError::AlreadyListed);
    }
    proof {
        if has_item(m0, c, u) {
            let i = choose|i: int| 0 <= i < cat0.len() && #[trigger] cat0[i].url@ == u;
            assert(false);
        }
    }

    save_new_item(&mut m.items, sp, &static_item_data);
    update_current_group_size(&mut m.group_sizes, static_item_data.url.as_str(), dp, 0);

    proof {
        let m1 = *m;
        let dpv = dynamic_prefix(c);
        let cat1 = catalog_of(m1, c);
        assert(cat1 == cat0.push(static_item_data));
        assert(agg_recs(m0, c, u).len() == 0);
        assert(agg_recs(m1, c, u) =~= seq![0u32]);
        assert forall|u2: Seq<char>| u2 != u implies #[trigger] agg_recs(m1, c, u2) == agg_recs(
            m0,
            c,
            u2,
        ) by {}
        assert forall|a2: Seq<char>| #[trigger] quantities_of(m1, c, a2) == quantities_of(
            m0,
            c,
            a2,
        ) by {}
        assert forall|u2: Seq<char>| #[trigger] details_of(m1, c, u2) == details_of(
            m0,
            c,
            u2,
        ) by {}
        assert forall|x: Seq<char>| x != u implies #[trigger] has_item(m1, c, x) == has_item(
            m0,
            c,
            x,
        ) by {
            if has_item(m0, c, x) {
                let i = choose|i: int| 0 <= i < cat0.len() && #[trigger] cat0[i].url@ == x;
                assert(cat1[i].url@ == x);
            }
            if has_item(m1, c, x) {
                let i = choose|i: int| 0 <= i < cat1.len() && #[trigger] cat1[i].url@ == x;
                assert(i != cat0.len());
                assert(cat0[i].url@ == x);
            }
        }
        assert(cat1[cat0.len() as int].url@ == u);
        assert(has_item(m1, c, u));

        assert(wf_cat(m1, c)) by {
            assert forall|i: int, j: int|
                #![trigger cat1[i], cat1[j]]
                0 <= i < j < cat1.len() implies cat1[i].url@ != cat1[j].url@ by {
                if j == cat0.len() {
                    if cat0[i].url@ == u {
                        assert(has_item(m0, c, u));
                    }
                } else {
                    assert(cat0[i].url@ != cat0[j].url@);
                }
            }
            assert forall|u2: Seq<char>| #[trigger] agg_recs(m1, c, u2).len() <= 1 by {
                if u2 != u {
                    assert(agg_recs(m1, c, u2) == agg_recs(m0, c, u2));
                }
            }
            assert forall|u2: Seq<char>| #[trigger] has_item(m1, c, u2) <==> agg_recs(
                m1,
                c,
                u2,
            ).len() == 1 by {
                if u2 != u {
                    assert(agg_recs(m1, c, u2) == agg_recs(m0, c, u2));
                }
            }
            assert forall|u2: Seq<char>| #[trigger] agg_recs(m1, c, u2).len() == 1 implies agg_recs(
                m1,
                c,
                u2,
            )[0] == total_quantity(m1, c, u2) by {
                if u2 == u {
                    crate::model::lemma_total_zero_when_unlisted(m0, c, u);
                    assert(total_quantity(m1, c, u) == total_quantity(m0, c, u));
                } else {
                    assert(agg_recs(m1, c, u2) == agg_recs(m0, c, u2));
                    assert(total_quantity(m1, c, u2) == total_quantity(m0, c, u2));
                }
            }
            assert forall|a2: Seq<char>, u2: Seq<char>|
                #![trigger commitment_count(m1, c, a2, u2)]
                #![trigger details_count(m1, c, u2, a2)]
                commitment_count(m1, c, a2, u2) == details_count(m1, c, u2, a2)
                    && commitment_count(m1, c, a2, u2) <= 1 by {
                assert(commitment_count(m1, c, a2, u2) == commitment_count(m0, c, a2, u2));
                assert(details_count(m1, c, u2, a2) == details_count(m0, c, u2, a2));
            }
            assert forall|a2: Seq<char>, u2: Seq<char>|
                #[trigger] commitment_count(m1, c, a2, u2) == 1 implies qty_in(
                quantities_of(m1, c, a2),
                u2,
            ) == qty_in_details(details_of(m1, c, u2), a2) by {
                assert(commitment_count(m0, c, a2, u2) == commitment_count(m1, c, a2, u2));
            }
            assert forall|a2: Seq<char>, i: int|
                0 <= i < quantities_of(m1, c, a2).len() implies has_item(
                m1,
                c,
                (#[trigger] quantities_of(m1, c, a2)[i]).url@,
            ) by {
                assert(quantities_of(m1, c, a2) == quantities_of(m0, c, a2));
                assert(has_item(m0, c, quantities_of(m0, c, a2)[i].url@));
                if quantities_of(m0, c, a2)[i].url@ == u {
                    assert(false);
                }
            }
            assert forall|u2: Seq<char>| #[trigger] details_of(m1, c, u2).len() > 0 implies
                has_item(m1, c, u2) by {
                assert(details_of(m1, c, u2) == details_of(m0, c, u2));
                if u2 != u {
                    assert(has_item(m0, c, u2) == has_item(m1, c, u2));
                }
            }
        }
        assert forall|p2: Seq<char>, k2: Seq<char>| p2 != static_prefix(c) implies #[trigger] recs(
            m1.items@,
            p2,
            k2,
        ) == recs(m0.items@, p2, k2) by {}
        assert forall|p2: Seq<char>, k2: Seq<char>| p2 != dpv implies #[trigger] recs(
            m1.group_sizes@,
            p2,
            k2,
        ) == recs(m0.group_sizes@, p2, k2) by {}
        crate::model::lemma_wf_preserved_others(m0, m1, c);
        crate::model::lemma_wf_assemble(m1, c);
    }
    Ok(
        HandleResponse {
            messages: Vec::new(),
            data: Some(HandleAnswer::AddItem { status: ResponseStatus::Success }),
        },
    )
}

/// Tears an item down across every storage region: its catalog entry, its
/// aggregate slot, its by-item details, and every participant's by-account
/// record for it. The caller has already authenticated the request.
pub fn remove_item_authenticated(category: &str, url: &str, m: &mut Marketplace) -> (r: Result<
    (),
    ContractError,
>)
    requires
        wf(*old(m)),
    ensures
        wf(*final(m)),
        final(m).viewing_keys == old(m).viewing_keys,
        !known_category(category@) ==> r == Err::<(), ContractError>(
            ContractError::UnknownCategory,
        ) && *final(m) == *old(m),
        known_category(category@) ==> untouched_outside_category(*old(m), *final(m), category@)
            && (if has_item(*old(m), category@, url@) {
            r is Ok && item_torn_down(*old(m), *final(m), category@, url@)
        } else {
            r == Err::<(), ContractError>(ContractError::RemoveNotFound) && *final(m) == *old(m)
        }),
{
    let (sp, dp, up) = match get_category_prefixes(category) {
        Ok(t) => t,
        Err(e) => {
            return Err(e);
        },
    };
    let ghost m0 = *old(m);
    let ghost c = category@;
    let ghost u = url@;
    let ghost spv = static_prefix(c);
    let ghost dpv = dynamic_prefix(c);
    let ghost upv = users_prefix(c);
    let ghost cat0 = catalog_of(m0, c);
    let ghost d0 = details_of(m0, c, u);
    let ghost pu = upq_url_is(u);
    proof {
        crate::model::lemma_wf_cat_of(m0, c);
    }

    match remove_category_item(&mut m.items, sp, url) {
        Ok(_) => (),
        Err(e) => {
            proof {
                if has_item(m0, c, u) {
                    let i = choose|i: int| 0 <= i < cat0.len() && #[trigger] cat0[i].url@ == u;
                    assert(false);
                }
            }
            return Err(e);
        },
    }
    proof {
        if !has_item(m0, c, u) {
            // A catalog without the url, the empty one included, errors
            // above.
            assert forall|i: int| 0 <= i < cat0.len() implies #[trigger] cat0[i].url@ != u by {
                if cat0[i].url@ == u {
                    assert(has_item(m0, c, u));
                }
            }
            assert(false);
        }
        {
            let i0 = choose|i: int| 0 <= i < cat0.len() && #[trigger] cat0[i].url@ == u;
            crate::seq_facts::lemma_count_at_least_one(cat0, item_url_is(u), i0);
            crate::seq_facts::lemma_match_index_valid(cat0, item_url_is(u));
            let mi = match_index(cat0, item_url_is(u));
            assert(catalog_of(*m, c) == cat0.update(mi, cat0.last()).drop_last()) by {
                let ci = choose|ci: int|
                    0 <= ci < cat0.len() && #[trigger] cat0[ci].url@ == u && m.items@
                        == crate::store::with_region_records(
                        m0.items@,
                        spv,
                        ""@,
                        cat0.update(ci, cat0.last()).drop_last(),
                    );
                if ci != mi {
                    if ci < mi {
                        assert(cat0[ci].url@ != cat0[mi].url@);
                    } else {
                        assert(cat0[mi].url@ != cat0[ci].url@);
                    }
                }
                crate::store::lemma_with_region_records_effect(
                    m0.items@,
                    spv,
                    ""@,
                    cat0.update(mi, cat0.last()).drop_last(),
                );
            }
        }
    }

    match remove_current_group_size(&mut m.group_sizes, dp, url) {
        Ok(_) => (),
        Err(_) => unreached(),
    }
    let users_addresses = get_all_participating_users_addresses(&m.user_details, up, url);
    match remove_all_category_item_users_details(&mut m.user_details, up, url) {
        Ok(_) => (),
        Err(_) => unreached(),
    }

    let ghost m_pre = *m;
    let n_addr = users_addresses.len();
    let mut t: usize = 0;
    while t < n_addr
        invariant
            wf(m0),
            wf_cat(m0, c),
            known_category(c),
            c == category@,
            u == url@,
            dpv == dynamic_prefix(c),
            dp@ == dpv,
            d0 == details_of(m0, c, u),
            pu == upq_url_is(u),
            0 <= t <= n_addr,
            n_addr == d0.len(),
            users_addresses@.len() == n_addr,
            forall|k: int|
                0 <= k < n_addr ==> (#[trigger] users_addresses@[k])@ == d0[k].account_address@,
            m.items == m_pre.items,
            m.group_sizes == m_pre.group_sizes,
            m.user_details == m_pre.user_details,
            m.viewing_keys == m_pre.viewing_keys,
            crate::store::store_wf(m.user_quantities@),
            forall|a2: Seq<char>|
                #![trigger recs(m.user_quantities@, dpv, a2)]
                if appears_before(d0, t as int, a2) {
                    recs(m.user_quantities@, dpv, a2) == minus_url(
                        recs(m0.user_quantities@, dpv, a2),
                        u,
                    )
                } else {
                    recs(m.user_quantities@, dpv, a2) == recs(m0.user_quantities@, dpv, a2)
                },
            forall|p2: Seq<char>, k2: Seq<char>|
                p2 != dpv ==> #[trigger] recs(m.user_quantities@, p2, k2) == recs(
                    m0.user_quantities@,
                    p2,
                    k2,
                ),
            forall|pf: Seq<char>, u2: Seq<char>|
                pf != dpv ==> #[trigger] crate::store::regions_sum(
                    m.user_quantities@,
                    pf,
                    upq_qty_for(u2),
                ) == crate::store::regions_sum(m0.user_quantities@, pf, upq_qty_for(u2)),
            forall|u2: Seq<char>|
                u2 != u ==> #[trigger] crate::store::regions_sum(
                    m.user_quantities@,
                    dpv,
                    upq_qty_for(u2),
                ) == crate::store::regions_sum(m0.user_quantities@, dpv, upq_qty_for(u2)),
        decreases n_addr - t,
    {
        let user_address = &users_addresses[t];
        let ghost a2 = user_address@;
        let ghost q0a = recs(m0.user_quantities@, dpv, a2);
        let ghost vqc = m.user_quantities@;
        proof {
            assert(a2 == d0[t as int].account_address@);
            if appears_before(d0, t as int, a2) {
                let k = choose|k: int| 0 <= k < t && #[trigger] d0[k].account_address@ == a2;
                crate::seq_facts::lemma_count_at_least_two(d0, details_acct_is(a2), k, t as int);
                assert(details_count(m0, c, u, a2) >= 2);
                assert(false);
            }
            assert(recs(vqc, dpv, a2) == q0a);
            crate::seq_facts::lemma_count_at_least_one(d0, details_acct_is(a2), t as int);
            assert(details_count(m0, c, u, a2) >= 1);
            assert(commitment_count(m0, c, a2, u) == 1);
            assert(count_matching(q0a, pu) == 1);
            crate::seq_facts::lemma_match_index_valid(q0a, pu);
        }
        let ghost qi = match_index(q0a, pu);
        match remove_user_item_quantity(&mut m.user_quantities, dp, user_address.as_str(), url) {
            Ok(_) => (),
            Err(_) => unreached(),
        }
        proof {
            assert(recs(m.user_quantities@, dpv, a2) == minus_url(q0a, u) && m.user_quantities@
                == crate::store::with_region_records(vqc, dpv, a2, minus_url(q0a, u))) by {
                let ci = choose|ci: int|
                    0 <= ci < q0a.len() && #[trigger] q0a[ci].url@ == u && m.user_quantities@
                        == crate::store::with_region_records(
                        vqc,
                        dpv,
                        a2,
                        q0a.update(ci, q0a.last()).drop_last(),
                    );
                crate::seq_facts::lemma_count_one_unique(q0a, pu, ci, qi);
                crate::store::lemma_with_region_records_effect(vqc, dpv, a2, minus_url(q0a, u));
            }
            crate::model::lemma_sums_after_swap_remove(vqc, m.user_quantities@, dpv, a2, qi);
            assert(upq_qty_for(u)(q0a[qi]) == q0a[qi].quantity as int);
            assert forall|a3: Seq<char>|
                #![trigger recs(m.user_quantities@, dpv, a3)]
                if appears_before(d0, t + 1, a3) {
                    recs(m.user_quantities@, dpv, a3) == minus_url(
                        recs(m0.user_quantities@, dpv, a3),
                        u,
                    )
                } else {
                    recs(m.user_quantities@, dpv, a3) == recs(m0.user_quantities@, dpv, a3)
                } by {
                if a3 == a2 {
                    assert(d0[t as int].account_address@ == a3);
                    assert(appears_before(d0, t + 1, a3));
                } else {
                    assert(recs(m.user_quantities@, dpv, a3) == recs(vqc, dpv, a3));
                    if appears_before(d0, t + 1, a3) {
                        let k = choose|k: int|
                            0 <= k < t + 1 && #[trigger] d0[k].account_address@ == a3;
                        assert(k != t);
                        assert(appears_before(d0, t as int, a3));
                    }
                    if appears_before(d0, t as int, a3) {
                        let k = choose|k: int|
                            0 <= k < t && #[trigger] d0[k].account_address@ == a3;
                        assert(appears_before(d0, t + 1, a3));
                    }
                }
            }
            assert forall|u2: Seq<char>| u2 != u implies #[trigger] crate::store::regions_sum(
                m.user_quantities@,
                dpv,
                upq_qty_for(u2),
            ) == crate::store::regions_sum(m0.user_quantities@, dpv, upq_qty_for(u2)) by {
                assert(upq_qty_for(u2)(q0a[qi]) == 0);
            }
        }
        t += 1;
    }

    proof {
        let m1 = *m;
        assert forall|a2: Seq<char>|
            #![trigger quantities_of(m1, c, a2)]
            {
                let q0 = quantities_of(m0, c, a2);
                let q1 = quantities_of(m1, c, a2);
                if count_matching(q0, pu) == 1 {
                    q1 == minus_url(q0, u)
                } else {
                    q1 == q0
                }
            } by {
            let q0 = quantities_of(m0, c, a2);
            if count_matching(q0, pu) == 1 {
                assert(commitment_count(m0, c, a2, u) == 1);
                assert(details_count(m0, c, u, a2) == 1);
                let k = crate::seq_facts::lemma_count_pos_witness(d0, details_acct_is(a2));
                assert(appears_before(d0, n_addr as int, a2));
            } else {
                if appears_before(d0, n_addr as int, a2) {
                    let k = choose|k: int|
                        0 <= k < n_addr && #[trigger] d0[k].account_address@ == a2;
                    crate::seq_facts::lemma_count_at_least_one(d0, details_acct_is(a2), k);
                    assert(details_count(m0, c, u, a2) >= 1);
                    assert(commitment_count(m0, c, a2, u) == 1);
                    assert(false);
                }
            }
        }
        lemma_teardown_wf(m0, m1, c, u);
    }
    Ok(())
}

/// Re-establishes the invariants once an item is torn down, and packages
/// the teardown's observable effect.
proof fn lemma_teardown_wf(m0: Marketplace, m1: Marketplace, c: Seq<char>, u: Seq<char>)
    requires
        wf(m0),
        wf_cat(m0, c),
        known_category(c),
        stores_wf(m1),
        m1.viewing_keys == m0.viewing_keys,
        has_item(m0, c, u) ==> ({
            let cat0 = catalog_of(m0, c);
            let ci = match_index(cat0, item_url_is(u));
            &&& 0 <= ci < cat0.len()
            &&& cat0[ci].url@ == u
            &&& catalog_of(m1, c) == cat0.update(ci, cat0.last()).drop_last()
        }),
        !has_item(m0, c, u) ==> catalog_of(m1, c) == catalog_of(m0, c),
        forall|p2: Seq<char>, k2: Seq<char>|
            !(p2 == static_prefix(c) && k2 == ""@) ==> #[trigger] recs(m1.items@, p2, k2) == recs(
                m0.items@,
                p2,
                k2,
            ),
        agg_recs(m1, c, u).len() == 0,
        forall|p2: Seq<char>, k2: Seq<char>|
            !(p2 == dynamic_prefix(c) && k2 == u) ==> #[trigger] recs(m1.group_sizes@, p2, k2)
                == recs(m0.group_sizes@, p2, k2),
        details_of(m1, c, u).len() == 0,
        forall|p2: Seq<char>, k2: Seq<char>|
            !(p2 == users_prefix(c) && k2 == u) ==> #[trigger] recs(m1.user_details@, p2, k2)
                == recs(m0.user_details@, p2, k2),
        forall|a2: Seq<char>|
            #![trigger quantities_of(m1, c, a2)]
            {
                let q0 = quantities_of(m0, c, a2);
                let q1 = quantities_of(m1, c, a2);
                if count_matching(q0, upq_url_is(u)) == 1 {
                    q1 == minus_url(q0, u)
                } else {
                    q1 == q0
                }
            },
        forall|p2: Seq<char>, k2: Seq<char>|
            p2 != dynamic_prefix(c) ==> #[trigger] recs(m1.user_quantities@, p2, k2) == recs(
                m0.user_quantities@,
                p2,
                k2,
            ),
        forall|pf: Seq<char>, u2: Seq<char>|
            pf != dynamic_prefix(c) ==> #[trigger] crate::store::regions_sum(
                m1.user_quantities@,
                pf,
                upq_qty_for(u2),
            ) == crate::store::regions_sum(m0.user_quantities@, pf, upq_qty_for(u2)),
        forall|u2: Seq<char>|
            u2 != u ==> #[trigger] crate::store::regions_sum(
                m1.user_quantities@,
                dynamic_prefix(c),
                upq_qty_for(u2),
            ) == crate::store::regions_sum(m0.user_quantities@, dynamic_prefix(c), upq_qty_for(u2)),
    ensures
        wf(m1),
        untouched_outside_category(m0, m1, c),
        has_item(m0, c, u) ==> item_torn_down(m0, m1, c, u),
{
    let cat0 = catalog_of(m0, c);
    let cat1 = catalog_of(m1, c);
    let pu = upq_url_is(u);
    let kf = |r: StaticItemData| r.url@;
    let ci = match_index(cat0, item_url_is(u));

    if has_item(m0, c, u) {
        assert forall|i: int, j: int|
            #![trigger kf(cat0[i]), kf(cat0[j])]
            0 <= i < j < cat0.len() implies kf(cat0[i]) != kf(cat0[j]) by {
            assert(cat0[i].url@ != cat0[j].url@);
        }
        crate::seq_facts::lemma_swap_remove_keys_distinct(cat0, ci, kf);
        crate::seq_facts::lemma_swap_remove_no_key(cat0, ci, kf);
    }

    assert(!has_item(m1, c, u)) by {
        if has_item(m1, c, u) {
            let j = choose|j: int| 0 <= j < cat1.len() && #[trigger] cat1[j].url@ == u;
            if has_item(m0, c, u) {
                assert(kf(cat1[j]) != kf(cat0[ci]));
                assert(false);
            } else {
                assert(cat0[j].url@ == u);
                assert(has_item(m0, c, u));
                assert(false);
            }
        }
    }
    assert forall|x: Seq<char>| x != u implies #[trigger] has_item(m1, c, x) == has_item(
        m0,
        c,
        x,
    ) by {
        if has_item(m0, c, u) {
            if has_item(m0, c, x) {
                let i = choose|i: int| 0 <= i < cat0.len() && #[trigger] cat0[i].url@ == x;
                assert(i != ci);
                crate::seq_facts::lemma_swap_remove_still_there(cat0, ci, i);
                let j = choose|j: int|
                    0 <= j < cat0.update(ci, cat0.last()).drop_last().len()
                        && #[trigger] cat0.update(ci, cat0.last()).drop_last()[j] == cat0[i];
                assert(cat1[j].url@ == x);
                assert(has_item(m1, c, x));
            }
            if has_item(m1, c, x) {
                let j = choose|j: int| 0 <= j < cat1.len() && #[trigger] cat1[j].url@ == x;
                crate::seq_facts::lemma_swap_remove_contains(cat0, ci, j);
                let i = choose|i: int|
                    0 <= i < cat0.len() && cat0[i] == #[trigger] cat0.update(
                        ci,
                        cat0.last(),
                    ).drop_last()[j];
                assert(cat0[i].url@ == x);
                assert(has_item(m0, c, x));
            }
        }
    }
    assert forall|u2: Seq<char>| u2 != u implies #[trigger] agg_recs(m1, c, u2) == agg_recs(
        m0,
        c,
        u2,
    ) by {}
    assert forall|u2: Seq<char>| u2 != u implies #[trigger] details_of(m1, c, u2) == details_of(
        m0,
        c,
        u2,
    ) by {}

    assert(wf_cat(m1, c)) by {
        assert forall|i: int, j: int|
            #![trigger catalog_of(m1, c)[i], catalog_of(m1, c)[j]]
            0 <= i < j < catalog_of(m1, c).len() implies catalog_of(m1, c)[i].url@ != catalog_of(
            m1,
            c,
        )[j].url@ by {
            if has_item(m0, c, u) {
                assert(kf(cat1[i]) != kf(cat1[j]));
            } else {
                assert(cat0[i].url@ != cat0[j].url@);
            }
        }
        assert forall|u2: Seq<char>| #[trigger] agg_recs(m1, c, u2).len() <= 1 by {
            if u2 != u {
                assert(agg_recs(m1, c, u2) == agg_recs(m0, c, u2));
            }
        }
        assert forall|u2: Seq<char>| #[trigger] has_item(m1, c, u2) <==> agg_recs(
            m1,
            c,
            u2,
        ).len() == 1 by {
            if u2 != u {
                assert(agg_recs(m1, c, u2) == agg_recs(m0, c, u2));
            }
        }
        assert forall|u2: Seq<char>| #[trigger] agg_recs(m1, c, u2).len() == 1 implies agg_recs(
            m1,
            c,
            u2,
        )[0] == total_quantity(m1, c, u2) by {
            assert(u2 != u);
            assert(agg_recs(m1, c, u2) == agg_recs(m0, c, u2));
            assert(total_quantity(m1, c, u2) == total_quantity(m0, c, u2));
        }
        assert forall|a2: Seq<char>, u2: Seq<char>|
            #![trigger commitment_count(m1, c, a2, u2)]
            #![trigger details_count(m1, c, u2, a2)]
            commitment_count(m1, c, a2, u2) == details_count(m1, c, u2, a2) && commitment_count(
            m1,
            c,
            a2,
            u2,
        ) <= 1 by {
            let q0 = quantities_of(m0, c, a2);
            let q1 = quantities_of(m1, c, a2);
            assert(commitment_count(m0, c, a2, u2) == count_matching(q0, upq_url_is(u2)));
            assert(details_count(m0, c, u2, a2) == count_matching(
                details_of(m0, c, u2),
                details_acct_is(a2),
            ));
            crate::seq_facts::lemma_count_nonneg(q0, pu);
            if count_matching(q0, pu) == 1 {
                crate::seq_facts::lemma_match_index_valid(q0, pu);
                if u2 == u {
                    crate::seq_facts::lemma_count_swap_remove(q0, pu, match_index(q0, pu));
                    assert(count_matching(details_of(m1, c, u), details_acct_is(a2)) == 0);
                } else {
                    crate::seq_facts::lemma_unique_match_swap_remove(
                        q0,
                        match_index(q0, pu),
                        upq_url_is(u2),
                    );
                    assert(details_of(m1, c, u2) == details_of(m0, c, u2));
                }
            } else {
                assert(q1 == q0);
                if u2 == u {
                    assert(count_matching(q0, pu) == 0);
                    assert(count_matching(details_of(m1, c, u), details_acct_is(a2)) == 0);
                } else {
                    assert(details_of(m1, c, u2) == details_of(m0, c, u2));
                }
            }
        }
        assert forall|a2: Seq<char>, u2: Seq<char>|
            #[trigger] commitment_count(m1, c, a2, u2) == 1 implies qty_in(
            quantities_of(m1, c, a2),
            u2,
        ) == qty_in_details(details_of(m1, c, u2), a2) by {
            let q0 = quantities_of(m0, c, a2);
            let q1 = quantities_of(m1, c, a2);
            assert(commitment_count(m0, c, a2, u2) == count_matching(q0, upq_url_is(u2)));
            assert(details_count(m0, c, u2, a2) == count_matching(
                details_of(m0, c, u2),
                details_acct_is(a2),
            ));
            if u2 == u {
                if count_matching(q0, pu) == 1 {
                    crate::seq_facts::lemma_match_index_valid(q0, pu);
                    crate::seq_facts::lemma_count_swap_remove(q0, pu, match_index(q0, pu));
                } else {
                    crate::seq_facts::lemma_count_nonneg(q0, pu);
                }
                assert(false);
            } else {
                if count_matching(q0, pu) == 1 {
                    crate::seq_facts::lemma_match_index_valid(q0, pu);
                    crate::seq_facts::lemma_unique_match_swap_remove(
                        q0,
                        match_index(q0, pu),
                        upq_url_is(u2),
                    );
                } else {
                    assert(q1 == q0);
                }
                assert(details_of(m1, c, u2) == details_of(m0, c, u2));
            }
        }
        assert forall|a2: Seq<char>, i: int|
            0 <= i < quantities_of(m1, c, a2).len() implies (#[trigger] quantities_of(
            m1,
            c,
            a2,
        )[i]).quantity >= 1 by {
            let q0 = quantities_of(m0, c, a2);
            if count_matching(q0, pu) == 1 {
                crate::seq_facts::lemma_match_index_valid(q0, pu);
                crate::seq_facts::lemma_swap_remove_contains(q0, match_index(q0, pu), i);
                let k = choose|k: int|
                    0 <= k < q0.len() && q0[k] == #[trigger] q0.update(
                        match_index(q0, pu),
                        q0.last(),
                    ).drop_last()[i];
                assert(quantities_of(m0, c, a2)[k].quantity >= 1);
            } else {
                assert(quantities_of(m1, c, a2) == q0);
                assert(quantities_of(m0, c, a2)[i].quantity >= 1);
            }
        }
        assert forall|u2: Seq<char>, j: int|
            0 <= j < details_of(m1, c, u2).len() implies (#[trigger] details_of(
            m1,
            c,
            u2,
        )[j]).quantity >= 1 by {
            assert(u2 != u);
            assert(details_of(m1, c, u2) == details_of(m0, c, u2));
            assert(details_of(m0, c, u2)[j].quantity >= 1);
        }
        assert forall|a2: Seq<char>, i: int|
            0 <= i < quantities_of(m1, c, a2).len() implies has_item(
            m1,
            c,
            (#[trigger] quantities_of(m1, c, a2)[i]).url@,
        ) by {
            let q0 = quantities_of(m0, c, a2);
            let q1 = quantities_of(m1, c, a2);
            if count_matching(q0, pu) == 1 {
                crate::seq_facts::lemma_match_index_valid(q0, pu);
                crate::seq_facts::lemma_count_swap_remove(q0, pu, match_index(q0, pu));
                crate::seq_facts::lemma_count_zero_no_match(q1, pu);
                assert(!pu(q1[i]));
                assert(q1[i].url@ != u);
                crate::seq_facts::lemma_swap_remove_contains(q0, match_index(q0, pu), i);
                let k = choose|k: int|
                    0 <= k < q0.len() && q0[k] == #[trigger] q0.update(
                        match_index(q0, pu),
                        q0.last(),
                    ).drop_last()[i];
                assert(has_item(m0, c, quantities_of(m0, c, a2)[k].url@));
            } else {
                assert(q1 == q0);
                assert(has_item(m0, c, quantities_of(m0, c, a2)[i].url@));
                if q0[i].url@ == u {
                    crate::seq_facts::lemma_count_at_least_one(q0, pu, i);
                    assert(commitment_count(m0, c, a2, u) == count_matching(q0, pu));
                    assert(count_matching(q0, pu) <= 1);
                    assert(false);
                }
            }
        }
        assert forall|u2: Seq<char>| #[trigger] details_of(m1, c, u2).len() > 0 implies has_item(
            m1,
            c,
            u2,
        ) by {
            assert(u2 != u);
            assert(details_of(m1, c, u2) == details_of(m0, c, u2));
        }
    }

    assert forall|p2: Seq<char>, k2: Seq<char>| p2 != static_prefix(c) implies #[trigger] recs(
        m1.items@,
        p2,
        k2,
    ) == recs(m0.items@, p2, k2) by {}
    assert forall|p2: Seq<char>, k2: Seq<char>| p2 != dynamic_prefix(c) implies #[trigger] recs(
        m1.group_sizes@,
        p2,
        k2,
    ) == recs(m0.group_sizes@, p2, k2) by {}
    assert forall|p2: Seq<char>, k2: Seq<char>| p2 != users_prefix(c) implies #[trigger] recs(
        m1.user_details@,
        p2,
        k2,
    ) == recs(m0.user_details@, p2, k2) by {}
    crate::model::lemma_wf_preserved_others(m0, m1, c);
    crate::model::lemma_wf_assemble(m1, c);
}

/// What listing an item does: an unknown category or an already-listed url
/// is rejected without a write; otherwise the listing is appended and its
/// aggregate slot starts at zero.
pub open spec fn add_item_outcome(
    m0: Marketplace,
    m1: Marketplace,
    data: StaticItemData,
    r: Result<HandleResponse, ContractError>,
) -> bool {
    &&& (!known_category(data.category@) ==> r == Err::<HandleResponse, ContractError>(
        ContractError::UnknownCategory,
    ) && m1 == m0)
    &&& (known_category(data.category@) && has_item(m0, data.category@, data.url@) ==> r == Err::<
        HandleResponse,
        ContractError,
    >(ContractError::AlreadyListed) && m1 == m0)
    &&& (known_category(data.category@) && !has_item(m0, data.category@, data.url@) ==> {
        let c = data.category@;
        let u = data.url@;
        &&& r is Ok
        &&& r.unwrap().messages@.len() == 0
        &&& r.unwrap().data == Some(HandleAnswer::AddItem { status: ResponseStatus::Success })
        &&& catalog_of(m1, c) == catalog_of(m0, c).push(data)
        &&& agg_recs(m1, c, u) == seq![0u32]
        &&& (forall|u2: Seq<char>|
            u2 != u ==> #[trigger] agg_recs(m1, c, u2) == agg_recs(m0, c, u2))
        &&& m1.user_quantities == m0.user_quantities
        &&& m1.user_details == m0.user_details
        &&& m1.viewing_keys == m0.viewing_keys
        &&& untouched_outside_category(m0, m1, c)
    })
}

/// What an authenticated removal does: a failed credential check or an
/// unknown category is rejected without a write; otherwise the item is
/// torn down everywhere, with no refunds issued by this path.
pub open spec fn remove_item_outcome(
    m0: Marketplace,
    m1: Marketplace,
    env: Env,
    data: RemoveItemData,
    r: Result<HandleResponse, ContractError>,
) -> bool {
    &&& m1.viewing_keys == m0.viewing_keys
    &&& (!crate::msg::authentication_passes(
        m0.viewing_keys@,
        env.message_sender@,
        data.verification_key@,
    ) ==> r == Err::<HandleResponse, ContractError>(ContractError::AuthenticationFailed) && m1
        == m0)
    &&& (crate::msg::authentication_passes(
        m0.viewing_keys@,
        env.message_sender@,
        data.verification_key@,
    ) ==> {
        let c = data.category@;
        let u = data.url@;
        &&& (!known_category(c) ==> r == Err::<HandleResponse, ContractError>(
            ContractError::UnknownCategory,
        ) && m1 == m0)
        &&& (known_category(c) ==> untouched_outside_category(m0, m1, c) && (if has_item(
            m0,
            c,
            u,
        ) {
            r is Ok && item_torn_down(m0, m1, c, u)
        } else {
            r == Err::<HandleResponse, ContractError>(ContractError::RemoveNotFound) && m1 == m0
        }))
        &&& (r is Ok ==> r.unwrap().messages@.len() == 0 && r.unwrap().data == Some(
            HandleAnswer::RemoveItem { status: ResponseStatus::Success },
        ))
    })
}

/// What storing a credential does: the sender's hash is set, nothing else
/// moves.
pub open spec fn set_viewing_key_outcome(
    m0: Marketplace,
    m1: Marketplace,
    env: Env,
    key: String,
    r: Result<HandleResponse, ContractError>,
) -> bool {
    &&& m1.items == m0.items
    &&& m1.group_sizes == m0.group_sizes
    &&& m1.user_quantities == m0.user_quantities
    &&& m1.user_details == m0.user_details
    &&& crate::viewing_key::has_cred(m1.viewing_keys@, env.message_sender@)
    &&& crate::viewing_key::cred_of(m1.viewing_keys@, env.message_sender@)
        == crate::utils::sha256_of(key@)
    &&& (forall|a2: Seq<char>|
        a2 != env.message_sender@ ==> (#[trigger] crate::viewing_key::has_cred(
            m1.viewing_keys@,
            a2,
        ) == crate::viewing_key::has_cred(m0.viewing_keys@, a2) && (
        crate::viewing_key::has_cred(m0.viewing_keys@, a2)
            ==> crate::viewing_key::cred_of(m1.viewing_keys@, a2) == crate::viewing_key::cred_of(
            m0.viewing_keys@,
            a2,
        ))))
    &&& r is Ok
    &&& r.unwrap().messages@.len() == 0
    &&& r.unwrap().data == Some(HandleAnswer::SetViewingKey { status: ResponseStatus::Success })
}

/// Removes an item on an authenticated request; no refunds are issued by
/// this path.
pub fn remove_item(m: &mut Marketplace, env: &Env, remove_item_data: RemoveItemData) -> (r: Result<
    HandleResponse,
    ContractError,
>)
    requires
        wf(*old(m)),
    ensures
        wf(*final(m)),
        final(m).viewing_keys == old(m).viewing_keys,
        !crate::msg::authentication_passes(
            old(m).viewing_keys@,
            env.message_sender@,
            remove_item_data.verification_key@,
        ) ==> r == Err::<HandleResponse, ContractError>(ContractError::AuthenticationFailed)
            && *final(m) == *old(m),
        crate::msg::authentication_passes(
            old(m).viewing_keys@,
            env.message_sender@,
            remove_item_data.verification_key@,
        ) ==> {
            let c = remove_item_data.category@;
            let u = remove_item_data.url@;
            &&& (!known_category(c) ==> r == Err::<HandleResponse, ContractError>(
                ContractError::UnknownCategory,
            ) && *final(m) == *old(m))
            &&& (known_category(c) ==> untouched_outside_category(*old(m), *final(m), c) && (
            if has_item(*old(m), c, u) {
                r is Ok && item_torn_down(*old(m), *final(m), c, u)
            } else {
                r == Err::<HandleResponse, ContractError>(ContractError::RemoveNotFound)
                    && *final(m) == *old(m)
            }))
            &&& (r is Ok ==> r.unwrap().messages@.len() == 0 && r.unwrap().data == Some(
                HandleAnswer::RemoveItem { status: ResponseStatus::Success },
            ))
        },
{
    match remove_item_data.authenticate_delete(&m.viewing_keys, &env.message_sender) {
        Ok(_) => (),
        Err(e) => {
            return Err(e);
        },
    }

    match remove_item_authenticated(
        remove_item_data.category.as_str(),
        remove_item_data.url.as_str(),
        m,
    ) {
        Ok(_) => (),
        Err(e) => {
            return Err(e);
        },
    }

    Ok(
        HandleResponse {
            messages: Vec::new(),
            data: Some(HandleAnswer::RemoveItem { status: ResponseStatus::Success }),
        },
    )
}

/// The single mutating entry point: dispatches one request to the
/// settlement engine.
pub fn handle(m: &mut Marketplace, env: Env, msg: HandleMsg) -> (r: Result<
    HandleResponse,
    ContractError,
>)
    requires
        wf(*old(m)),
    ensures
        wf(*final(m)),
        (msg matches HandleMsg::AddItem(d) ==> add_item_outcome(*old(m), *final(m), d, r)),
        (msg matches HandleMsg::UpdateItem(d) ==> crate::update_logic::update_item_outcome(
            *old(m),
            *final(m),
            env,
            d,
            r,
        )),
        (msg matches HandleMsg::RemoveItem(d) ==> remove_item_outcome(
            *old(m),
            *final(m),
            env,
            d,
            r,
        )),
        (msg matches HandleMsg::SetViewingKey { key } ==> set_viewing_key_outcome(
            *old(m),
            *final(m),
            env,
            key,
            r,
        )),
{
    match msg {
        HandleMsg::AddItem(static_item_data) => add_new_item(m, static_item_data),
        HandleMsg::UpdateItem(update_item_data) => crate::update_logic::update_user_for_item(
            m,
            &env,
            update_item_data,
        ),
        HandleMsg::RemoveItem(remove_item_data) => remove_item(m, &env, remove_item_data),
        HandleMsg::SetViewingKey { key } => set_viewing_key(m, &env, key),
    }
}

} // verus!

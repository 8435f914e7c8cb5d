//! Authenticated read queries: a category's listings with their current
//! aggregates, the asking account's commitments, and its filed contact
//! details.

use vstd::prelude::*;
use crate::model::{agg_recs, catalog_of, details_acct_is, details_count, details_of, quantities_of, wf};
use crate::msg::{authentication_passes, query_address, query_category, query_key, ContractError, GetItems, ItemData, QueryAnswer, QueryMsg, ResponseStatus};
use crate::seq_facts::{count_matching, match_index};
use crate::state::{get_category_item_group_size, get_category_items, get_category_item_user_details, get_category_prefixes, get_ctegory_user_items_quantities, known_category, Marketplace};

verus! {

/// What a category query answers: every listing with its current aggregate
/// (zero when the slot is gone), the account's own commitments, and the
/// contact details the account filed with its first commitment.
pub open spec fn get_items_spec(m: Marketplace, c: Seq<char>, a: Seq<char>, g: GetItems) -> bool {
    let cat = catalog_of(m, c);
    &&& g.items@.len() == cat.len()
    &&& (forall|i: int|
        0 <= i < cat.len() ==> (#[trigger] g.items@[i]).static_data == cat[i]
            && g.items@[i].current_group_size as int == (if agg_recs(m, c, cat[i].url@).len()
            > 0 {
            agg_recs(m, c, cat[i].url@)[0] as int
        } else {
            0
        }))
    &&& g.user_items@ == quantities_of(m, c, a)
    &&& (quantities_of(m, c, a).len() == 0 ==> g.contact_data is None)
    &&& (quantities_of(m, c, a).len() > 0 ==> {
        let u0 = quantities_of(m, c, a)[0].url@;
        if details_count(m, c, u0, a) >= 1 {
            g.contact_data == Some(
                details_of(m, c, u0)[match_index(
                    details_of(m, c, u0),
                    details_acct_is(a),
                )].contact_data,
            )
        } else {
            g.contact_data is None
        }
    })
    &&& g.status == ResponseStatus::Success
}

/// Assembles the category answer for an already-authenticated account.
pub fn may_get_items(m: &Marketplace, account: &String, category: String) -> (r: Result<
    GetItems,
    ContractError,
>)
    requires
        wf(*m),
    ensures
        r is Ok <==> known_category(category@),
        !known_category(category@) ==> r == Err::<GetItems, ContractError>(
            ContractError::UnknownCategory,
        ),
        r is Ok ==> get_items_spec(*m, category@, account@, r.unwrap()),
{
    let (sp, dp, up) = match get_category_prefixes(category.as_str()) {
        Ok(t) => t,
        Err(e) => {
            return Err(e);
        },
    };
    let ghost c = category@;
    let ghost a = account@;
    proof {
        crate::model::lemma_wf_cat_of(*m, c);
    }
    let items_static_data = get_category_items(&m.items, sp);
    let ghost cat = catalog_of(*m, c);
    let mut items_data: Vec<ItemData> = Vec::new();
    let n = items_static_data.len();
    let mut i: usize = 0;
    while i < n
        invariant
            wf(*m),
            c == category@,
            0 <= i <= n,
            n == cat.len(),
            cat == catalog_of(*m, c),
            dp@ == crate::state::dynamic_prefix(c),
            items_static_data@ == cat,
            items_data@.len() == i,
            forall|j: int|
                0 <= j < i ==> (#[trigger] items_data@[j]).static_data == cat[j]
                    && items_data@[j].current_group_size as int == (if agg_recs(
                    *m,
                    c,
                    cat[j].url@,
                ).len() > 0 {
                    agg_recs(*m, c, cat[j].url@)[0] as int
                } else {
                    0
                }),
        decreases n - i,
    {
        let item = &items_static_data[i];
        let current_group_size = match get_category_item_group_size(
            &m.group_sizes,
            dp,
            item.url.as_str(),
        ) {
            Some(v) => v,
            None => 0,
        };
        items_data.push(ItemData { static_data: item.dup(), current_group_size });
        i += 1;
    }

    let user_items = get_ctegory_user_items_quantities(
        &m.user_quantities,
        dp,
        account.as_str(),
    );
    let ghost q = quantities_of(*m, c, a);
    let ghost pa = details_acct_is(a);

    let contact_data = if user_items.len() > 0 {
        let ghost u0 = q[0].url@;
        let ghost d = details_of(*m, c, u0);
        let found = get_category_item_user_details(
            &m.user_details,
            up,
            user_items[0].url.as_str(),
            account.as_str(),
        );
        proof {
            match &found {
                Some(v) => {
                    let i = choose|i: int|
                        0 <= i < d.len() && #[trigger] d[i].account_address@ == a && *v == d[i];
                    crate::seq_facts::lemma_count_at_least_one(d, pa, i);
                    assert(details_count(*m, c, u0, a) == count_matching(d, pa));
                    crate::seq_facts::lemma_match_index_valid(d, pa);
                    crate::seq_facts::lemma_count_one_unique(d, pa, i, match_index(d, pa));
                },
                None => {
                    assert forall|i: int| 0 <= i < d.len() implies !#[trigger] pa(d[i]) by {
                        assert(d[i].account_address@ != a);
                    }
                    crate::seq_facts::lemma_count_zero(d, pa);
                    assert(details_count(*m, c, u0, a) == count_matching(d, pa));
                },
            }
        }
        match found {
            Some(v) => Some(v.contact_data),
            None => None,
        }
    } else {
        None
    };

    Ok(GetItems { items: items_data, user_items, contact_data, status: ResponseStatus::Success })
}

/// Authenticates the asking account, then answers its category query.
pub fn viewing_keys_queries(m: &Marketplace, msg: QueryMsg) -> (r: Result<
    QueryAnswer,
    ContractError,
>)
    requires
        wf(*m),
    ensures
        !authentication_passes(m.viewing_keys@, query_address(msg), query_key(msg)) ==> r
            == Err::<QueryAnswer, ContractError>(ContractError::WrongViewingKey),
        authentication_passes(m.viewing_keys@, query_address(msg), query_key(msg)) ==> {
            &&& (!known_category(query_category(msg)) ==> r == Err::<QueryAnswer, ContractError>(
                ContractError::UnknownCategory,
            ))
            &&& (known_category(query_category(msg)) ==> r is Ok && (r.unwrap() matches QueryAnswer::GetItems(g)
                && get_items_spec(*m, query_category(msg), query_address(msg), g)))
        },
{
    let address = match msg.authenticate(&m.viewing_keys) {
        Ok(v) => v,
        Err(e) => {
            return Err(e);
        },
    };

    match msg {
        QueryMsg::GetItems { category, .. } => {
            match may_get_items(m, &address, category) {
                Ok(g) => Ok(QueryAnswer::GetItems(g)),
                Err(e) => Err(e),
            }
        },
    }
}

/// The single read entry point: dispatches one query.
pub fn query(m: &Marketplace, msg: QueryMsg) -> (r: Result<QueryAnswer, ContractError>)
    requires
        wf(*m),
    ensures
        !authentication_passes(m.viewing_keys@, query_address(msg), query_key(msg)) ==> r
            == Err::<QueryAnswer, ContractError>(ContractError::WrongViewingKey),
        authentication_passes(m.viewing_keys@, query_address(msg), query_key(msg)) ==> {
            &&& (!known_category(query_category(msg)) ==> r == Err::<QueryAnswer, ContractError>(
                ContractError::UnknownCategory,
            ))
            &&& (known_category(query_category(msg)) ==> r is Ok && (r.unwrap() matches QueryAnswer::GetItems(g)
                && get_items_spec(*m, query_category(msg), query_address(msg), g)))
        },
{
    match &msg {
        QueryMsg::GetItems { .. } => viewing_keys_queries(m, msg),
    }
}

} // verus!

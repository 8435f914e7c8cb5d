//! The durable state of the marketplace and the storage-layer operations on
//! it: the category registry, the per-category catalog, the per-item
//! aggregate tracker, and both sides of the participant ledger.

use vstd::prelude::*;
use crate::msg::{ContractError, StaticItemData, UpdateItemData, UserItemDetails, UserProductQuantity};
use crate::store::{Store, recs, store_wf, with_region_records};
use crate::utils::str_eq;
use crate::viewing_key::{cred_wf, CredStore};

verus! {

/// All durable regions, split by record kind. The catalog of a category
/// lives under its static prefix; the one-slot aggregate of an item and the
/// by-account commitments share the category's dynamic prefix; the by-item
/// commitment details live under the users prefix.
pub struct Marketplace {
    pub items: Store<StaticItemData>,
    pub group_sizes: Store<u32>,
    pub user_quantities: Store<UserProductQuantity>,
    pub user_details: Store<UserItemDetails>,
    pub viewing_keys: CredStore,
}

/// Every store's namespaces are pairwise distinct.
pub open spec fn stores_wf(m: Marketplace) -> bool {
    &&& store_wf(m.items@)
    &&& store_wf(m.group_sizes@)
    &&& store_wf(m.user_quantities@)
    &&& store_wf(m.user_details@)
    &&& cred_wf(m.viewing_keys@)
}

impl Marketplace {
    /// A fresh marketplace with no listings, no commitments and no
    /// credentials.
    pub fn new() -> (r: Marketplace)
        ensures
            stores_wf(r),
            r.items@ == Seq::<crate::store::RegionModel<StaticItemData>>::empty(),
            r.group_sizes@ == Seq::<crate::store::RegionModel<u32>>::empty(),
            r.user_quantities@ == Seq::<crate::store::RegionModel<UserProductQuantity>>::empty(),
            r.user_details@ == Seq::<crate::store::RegionModel<UserItemDetails>>::empty(),
            r.viewing_keys@ == Seq::<crate::viewing_key::CredModel>::empty(),
    {
        Marketplace {
            items: Store::new(),
            group_sizes: Store::new(),
            user_quantities: Store::new(),
            user_details: Store::new(),
            viewing_keys: CredStore::new(),
        }
    }
}

/// The fixed set of category names.
pub open spec fn known_category(c: Seq<char>) -> bool {
    c == "laptops"@ || c == "keyboards"@ || c == "mouses"@ || c == "mouse-pads"@
}

/// The catalog namespace prefix of a category.
pub open spec fn static_prefix(c: Seq<char>) -> Seq<char> {
    if c == "laptops"@ {
        "laptops-static"@
    } else if c == "keyboards"@ {
        "keyboards-static"@
    } else if c == "mouses"@ {
        "mouses-static"@
    } else {
        "mouse-pads-static"@
    }
}

/// The aggregate and by-account namespace prefix of a category.
pub open spec fn dynamic_prefix(c: Seq<char>) -> Seq<char> {
    if c == "laptops"@ {
        "laptops-dynamic"@
    } else if c == "keyboards"@ {
        "keyboards-dynamic"@
    } else if c == "mouses"@ {
        "mouses-dynamic"@
    } else {
        "mouse-pads-dynamic"@
    }
}

/// The by-item participant details namespace prefix of a category.
pub open spec fn users_prefix(c: Seq<char>) -> Seq<char> {
    if c == "laptops"@ {
        "laptops-dynamic-users"@
    } else if c == "keyboards"@ {
        "keyboards-dynamic-users"@
    } else if c == "mouses"@ {
        "mouses-dynamic-users"@
    } else {
        "mouse-pads-dynamic-users"@
    }
}

/// Distinct categories never share a namespace prefix, of any of the three
/// kinds.
pub proof fn lemma_prefixes_distinct(c1: Seq<char>, c2: Seq<char>)
    requires
        known_category(c1),
        known_category(c2),
        c1 != c2,
    ensures
        static_prefix(c1) != static_prefix(c2),
        dynamic_prefix(c1) != dynamic_prefix(c2),
        users_prefix(c1) != users_prefix(c2),
{
    reveal_strlit("laptops");
    reveal_strlit("keyboards");
    reveal_strlit("mouses");
    reveal_strlit("mouse-pads");
    reveal_strlit("laptops-static");
    reveal_strlit("keyboards-static");
    reveal_strlit("mouses-static");
    reveal_strlit("mouse-pads-static");
    reveal_strlit("laptops-dynamic");
    reveal_strlit("keyboards-dynamic");
    reveal_strlit("mouses-dynamic");
    reveal_strlit("mouse-pads-dynamic");
    reveal_strlit("laptops-dynamic-users");
    reveal_strlit("keyboards-dynamic-users");
    reveal_strlit("mouses-dynamic-users");
    reveal_strlit("mouse-pads-dynamic-users");
    assert("laptops-static"@.len() == 14);
    assert("keyboards-static"@.len() == 16);
    assert("mouses-static"@.len() == 13);
    assert("mouse-pads-static"@.len() == 17);
    assert("laptops-dynamic"@.len() == 15);
    assert("keyboards-dynamic"@.len() == 17);
    assert("mouses-dynamic"@.len() == 14);
    assert("mouse-pads-dynamic"@.len() == 18);
    assert("laptops-dynamic-users"@.len() == 21);
    assert("keyboards-dynamic-users"@.len() == 23);
    assert("mouses-dynamic-users"@.len() == 20);
    assert("mouse-pads-dynamic-users"@.len() == 24);
    assert("laptops"@.len() == 7);
    assert("keyboards"@.len() == 9);
    assert("mouses"@.len() == 6);
    assert("mouse-pads"@.len() == 10);
}

/// The position of the first catalog entry whose url matches, if any.
fn scan_item_url(store: &Store<StaticItemData>, p: &str, k: &str, url: &str) -> (r: Option<usize>)
    requires
        store_wf(store@),
    ensures
        ({
            let s = recs(store@, p@, k@);
            match r {
                Some(c) => 0 <= c < s.len() && s[c as int].url@ == url@ && (forall|j: int|
                    0 <= j < c ==> #[trigger] s[j].url@ != url@),
                None => forall|i: int| 0 <= i < s.len() ==> #[trigger] s[i].url@ != url@,
            }
        }),
{
    let ghost s = recs(store@, p@, k@);
    let n = store.len_of(p, k);
    let mut i: usize = 0;
    while i < n
        invariant
            store_wf(store@),
            0 <= i <= n,
            n == s.len(),
            s == recs(store@, p@, k@),
            forall|j: int| 0 <= j < i ==> #[trigger] s[j].url@ != url@,
        decreases n - i,
    {
        if str_eq(store.get_from(p, k, i).url.as_str(), url) {
            return Some(i);
        }
        i += 1;
    }
    None
}

/// The position of the first by-account commitment record whose url
/// matches, if any.
fn scan_quantity_url(store: &Store<UserProductQuantity>, p: &str, k: &str, url: &str) -> (r: Option<
    usize,
>)
    requires
        store_wf(store@),
    ensures
        ({
            let s = recs(store@, p@, k@);
            match r {
                Some(c) => 0 <= c < s.len() && s[c as int].url@ == url@ && (forall|j: int|
                    0 <= j < c ==> #[trigger] s[j].url@ != url@),
                None => forall|i: int| 0 <= i < s.len() ==> #[trigger] s[i].url@ != url@,
            }
        }),
{
    let ghost s = recs(store@, p@, k@);
    let n = store.len_of(p, k);
    let mut i: usize = 0;
    while i < n
        invariant
            store_wf(store@),
            0 <= i <= n,
            n == s.len(),
            s == recs(store@, p@, k@),
            forall|j: int| 0 <= j < i ==> #[trigger] s[j].url@ != url@,
        decreases n - i,
    {
        if str_eq(store.get_from(p, k, i).url.as_str(), url) {
            return Some(i);
        }
        i += 1;
    }
    None
}

/// The position of the first by-item details record whose account matches,
/// if any.
fn scan_details_account(store: &Store<UserItemDetails>, p: &str, k: &str, account: &str) -> (r:
    Option<usize>)
    requires
        store_wf(store@),
    ensures
        ({
            let s = recs(store@, p@, k@);
            match r {
                Some(c) => 0 <= c < s.len() && s[c as int].account_address@ == account@ && (
                forall|j: int| 0 <= j < c ==> #[trigger] s[j].account_address@ != account@),
                None => forall|i: int|
                    0 <= i < s.len() ==> #[trigger] s[i].account_address@ != account@,
            }
        }),
{
    let ghost s = recs(store@, p@, k@);
    let n = store.len_of(p, k);
    let mut i: usize = 0;
    while i < n
        invariant
            store_wf(store@),
            0 <= i <= n,
            n == s.len(),
            s == recs(store@, p@, k@),
            forall|j: int| 0 <= j < i ==> #[trigger] s[j].account_address@ != account@,
        decreases n - i,
    {
        if str_eq(store.get_from(p, k, i).account_address.as_str(), account) {
            return Some(i);
        }
        i += 1;
    }
    None
}

/// The three namespace prefixes of a category; unknown categories are a
/// hard configuration error.
pub fn get_category_prefixes(category: &str) -> (r: Result<
    (&'static str, &'static str, &'static str),
    ContractError,
>)
    ensures
        r is Ok <==> known_category(category@),
        r is Err ==> r == Err::<(&'static str, &'static str, &'static str), ContractError>(
            ContractError::UnknownCategory,
        ),
        r is Ok ==> {
            &&& r.unwrap().0@ == static_prefix(category@)
            &&& r.unwrap().1@ == dynamic_prefix(category@)
            &&& r.unwrap().2@ == users_prefix(category@)
        },
{
    if str_eq(category, "laptops") {
        Ok(("laptops-static", "laptops-dynamic", "laptops-dynamic-users"))
    } else if str_eq(category, "keyboards") {
        Ok(("keyboards-static", "keyboards-dynamic", "keyboards-dynamic-users"))
    } else if str_eq(category, "mouses") {
        Ok(("mouses-static", "mouses-dynamic", "mouses-dynamic-users"))
    } else if str_eq(category, "mouse-pads") {
        Ok(("mouse-pads-static", "mouse-pads-dynamic", "mouse-pads-dynamic-users"))
    } else {
        Err(ContractError::UnknownCategory)
    }
}

/// Appends a listing to the category's catalog.
pub fn save_new_item(store: &mut Store<StaticItemData>, prefix_static: &str, value: &StaticItemData)
    requires
        store_wf(old(store)@),
    ensures
        store_wf(final(store)@),
        recs(final(store)@, prefix_static@, ""@) == recs(old(store)@, prefix_static@, ""@).push(
            *value,
        ),
        forall|p2: Seq<char>, k2: Seq<char>|
            !(p2 == prefix_static@ && k2 == ""@) ==> #[trigger] recs(final(store)@, p2, k2)
                == recs(old(store)@, p2, k2),
{
    store.push_to(prefix_static, "", value.dup());
}

/// The category's full catalog, in storage order.
pub fn get_category_items(store: &Store<StaticItemData>, prefix_static: &str) -> (r: Vec<
    StaticItemData,
>)
    requires
        store_wf(store@),
    ensures
        r@ == recs(store@, prefix_static@, ""@),
{
    let ghost s = recs(store@, prefix_static@, ""@);
    let n = store.len_of(prefix_static, "");
    let mut r: Vec<StaticItemData> = Vec::new();
    let mut i: usize = 0;
    while i < n
        invariant
            store_wf(store@),
            0 <= i <= n,
            n == s.len(),
            s == recs(store@, prefix_static@, ""@),
            r@ =~= s.subrange(0, i as int),
        decreases n - i,
    {
        r.push(store.get_from(prefix_static, "", i).dup());
        proof {
            assert(r@ =~= s.subrange(0, i + 1));
        }
        i += 1;
    }
    proof {
        assert(r@ =~= s);
    }
    r
}

/// Removes the catalog entry whose url matches, swapping the last entry
/// into its place. A url no entry carries — the empty catalog included —
/// is a not-found error that changes nothing.
pub fn remove_category_item(store: &mut Store<StaticItemData>, prefix_static: &str, url: &str) -> (r:
    Result<(), ContractError>)
    requires
        store_wf(old(store)@),
    ensures
        store_wf(final(store)@),
        ({
            let s = recs(old(store)@, prefix_static@, ""@);
            if forall|i: int| 0 <= i < s.len() ==> #[trigger] s[i].url@ != url@ {
                r == Err::<(), ContractError>(ContractError::RemoveNotFound) && *final(store)
                    == *old(store)
            } else {
                r is Ok && exists|c: int|
                    0 <= c < s.len() && #[trigger] s[c].url@ == url@ && (forall|j: int|
                        0 <= j < c ==> #[trigger] s[j].url@ != url@) && final(store)@
                        == with_region_records(
                        old(store)@,
                        prefix_static@,
                        ""@,
                        s.update(c, s.last()).drop_last(),
                    )
            }
        }),
        forall|p2: Seq<char>, k2: Seq<char>|
            !(p2 == prefix_static@ && k2 == ""@) ==> #[trigger] recs(final(store)@, p2, k2)
                == recs(old(store)@, p2, k2),
{
    match scan_item_url(store, prefix_static, "", url) {
        None => Err(ContractError::RemoveNotFound),
        Some(c) => {
            store.remove_in(prefix_static, "", c);
            Ok(())
        },
    }
}

/// The catalog entry whose url matches, if any.
pub fn get_category_item_by_url(
    store: &Store<StaticItemData>,
    prefix_static: &str,
    url: &str,
) -> (r: Option<StaticItemData>)
    requires
        store_wf(store@),
    ensures
        ({
            let s = recs(store@, prefix_static@, ""@);
            match r {
                Some(item) => exists|i: int|
                    0 <= i < s.len() && #[trigger] s[i].url@ == url@ && item == s[i] && (
                    forall|j: int| 0 <= j < i ==> #[trigger] s[j].url@ != url@),
                None => forall|i: int| 0 <= i < s.len() ==> #[trigger] s[i].url@ != url@,
            }
        }),
{
    let ghost s = recs(store@, prefix_static@, ""@);
    let n = store.len_of(prefix_static, "");
    let mut i: usize = 0;
    while i < n
        invariant
            store_wf(store@),
            0 <= i <= n,
            n == s.len(),
            s == recs(store@, prefix_static@, ""@),
            forall|j: int| 0 <= j < i ==> #[trigger] s[j].url@ != url@,
        decreases n - i,
    {
        let rec = store.get_from(prefix_static, "", i);
        if str_eq(rec.url.as_str(), url) {
            return Some(rec.dup());
        }
        i += 1;
    }
    None
}

/// Replaces the item's one-slot aggregate with `value` (pop any existing
/// value, then push), creating the slot if it does not exist yet.
pub fn update_current_group_size(store: &mut Store<u32>, key: &str, prefix_dynamic: &str, value: u32)
    requires
        store_wf(old(store)@),
    ensures
        store_wf(final(store)@),
        ({
            let s = recs(old(store)@, prefix_dynamic@, key@);
            recs(final(store)@, prefix_dynamic@, key@) == (if s.len() > 0 {
                s.drop_last()
            } else {
                s
            }).push(value)
        }),
        recs(old(store)@, prefix_dynamic@, key@).len() <= 1 ==> recs(
            final(store)@,
            prefix_dynamic@,
            key@,
        ) =~= seq![value],
        forall|p2: Seq<char>, k2: Seq<char>|
            !(p2 == prefix_dynamic@ && k2 == key@) ==> #[trigger] recs(final(store)@, p2, k2)
                == recs(old(store)@, p2, k2),
{
    if store.len_of(prefix_dynamic, key) > 0 {
        store.pop_from(prefix_dynamic, key);
    }
    store.push_to(prefix_dynamic, key, value);
    proof {
        let s = recs(old(store)@, prefix_dynamic@, key@);
        if s.len() == 0 {
            assert(s =~= Seq::<u32>::empty());
        }
    }
}

/// The item's current aggregate, or `None` when the item no longer exists.
pub fn get_category_item_group_size(store: &Store<u32>, prefix_dynamic: &str, key: &str) -> (r:
    Option<u32>)
    requires
        store_wf(store@),
    ensures
        r == (if recs(store@, prefix_dynamic@, key@).len() > 0 {
            Some(recs(store@, prefix_dynamic@, key@)[0])
        } else {
            None::<u32>
        }),
{
    let n = store.len_of(prefix_dynamic, key);
    if n > 0 {
        Some(*store.get_from(prefix_dynamic, key, 0))
    } else {
        None
    }
}

/// Tears down the item's one-slot aggregate; a no-op when it is already
/// gone.
pub fn remove_current_group_size(store: &mut Store<u32>, prefix_dynamic: &str, key: &str) -> (r:
    Result<(), ContractError>)
    requires
        store_wf(old(store)@),
    ensures
        store_wf(final(store)@),
        r is Ok,
        ({
            let s = recs(old(store)@, prefix_dynamic@, key@);
            if s.len() > 0 {
                recs(final(store)@, prefix_dynamic@, key@) == s.drop_last()
            } else {
                *final(store) == *old(store)
            }
        }),
        recs(old(store)@, prefix_dynamic@, key@).len() <= 1 ==> recs(
            final(store)@,
            prefix_dynamic@,
            key@,
        ).len() == 0,
        forall|p2: Seq<char>, k2: Seq<char>|
            !(p2 == prefix_dynamic@ && k2 == key@) ==> #[trigger] recs(final(store)@, p2, k2)
                == recs(old(store)@, p2, k2),
{
    if store.len_of(prefix_dynamic, key) > 0 {
        store.pop_from(prefix_dynamic, key);
    }
    Ok(())
}

/// Appends a commitment record under the participant's account.
pub fn save_category_element_user(
    store: &mut Store<UserProductQuantity>,
    key: &str,
    prefix_dynamic: &str,
    value: &UserProductQuantity,
)
    requires
        store_wf(old(store)@),
    ensures
        store_wf(final(store)@),
        final(store)@ == with_region_records(
            old(store)@,
            prefix_dynamic@,
            key@,
            recs(old(store)@, prefix_dynamic@, key@).push(*value),
        ),
        recs(final(store)@, prefix_dynamic@, key@) == recs(old(store)@, prefix_dynamic@, key@).push(
            *value,
        ),
        forall|p2: Seq<char>, k2: Seq<char>|
            !(p2 == prefix_dynamic@ && k2 == key@) ==> #[trigger] recs(final(store)@, p2, k2)
                == recs(old(store)@, p2, k2),
{
    store.push_to(prefix_dynamic, key, value.dup());
}

/// Appends a participant details record under the item.
pub fn save_category_element_user_item_details(
    store: &mut Store<UserItemDetails>,
    key: &str,
    prefix_dynamic_users: &str,
    value: &UserItemDetails,
)
    requires
        store_wf(old(store)@),
    ensures
        store_wf(final(store)@),
        recs(final(store)@, prefix_dynamic_users@, key@) == recs(
            old(store)@,
            prefix_dynamic_users@,
            key@,
        ).push(*value),
        forall|p2: Seq<char>, k2: Seq<char>|
            !(p2 == prefix_dynamic_users@ && k2 == key@) ==> #[trigger] recs(final(store)@, p2, k2)
                == recs(old(store)@, p2, k2),
{
    store.push_to(prefix_dynamic_users, key, value.dup());
}

/// Removes the account's commitment record for the given url, swapping the
/// last record into its place. A url no record carries — the empty region
/// included — is a not-found error that changes nothing.
pub fn remove_user_item_quantity(
    store: &mut Store<UserProductQuantity>,
    prefix_dynamic: &str,
    key: &str,
    url: &str,
) -> (r: Result<(), ContractError>)
    requires
        store_wf(old(store)@),
    ensures
        store_wf(final(store)@),
        ({
            let s = recs(old(store)@, prefix_dynamic@, key@);
            if forall|i: int| 0 <= i < s.len() ==> #[trigger] s[i].url@ != url@ {
                r == Err::<(), ContractError>(ContractError::RemoveNotFound) && *final(store)
                    == *old(store)
            } else {
                r is Ok && exists|c: int|
                    0 <= c < s.len() && #[trigger] s[c].url@ == url@ && (forall|j: int|
                        0 <= j < c ==> #[trigger] s[j].url@ != url@) && final(store)@
                        == with_region_records(
                        old(store)@,
                        prefix_dynamic@,
                        key@,
                        s.update(c, s.last()).drop_last(),
                    )
            }
        }),
        forall|p2: Seq<char>, k2: Seq<char>|
            !(p2 == prefix_dynamic@ && k2 == key@) ==> #[trigger] recs(final(store)@, p2, k2)
                == recs(old(store)@, p2, k2),
{
    match scan_quantity_url(store, prefix_dynamic, key, url) {
        None => Err(ContractError::RemoveNotFound),
        Some(c) => {
            store.remove_in(prefix_dynamic, key, c);
            Ok(())
        },
    }
}

/// Overwrites the account's commitment record for the request's url with
/// the request's quantity. A url no record carries — the empty region
/// included — is a not-found error that changes nothing.
pub fn update_user_item_quantity(
    store: &mut Store<UserProductQuantity>,
    prefix_dynamic: &str,
    key: &str,
    update_item_data: &UpdateItemData,
) -> (r: Result<(), ContractError>)
    requires
        store_wf(old(store)@),
    ensures
        store_wf(final(store)@),
        ({
            let s = recs(old(store)@, prefix_dynamic@, key@);
            let u = update_item_data.url@;
            if forall|i: int| 0 <= i < s.len() ==> #[trigger] s[i].url@ != u {
                r == Err::<(), ContractError>(ContractError::UpdateNotFound) && *final(store)
                    == *old(store)
            } else {
                r is Ok && exists|c: int|
                    {
                        let s2 = recs(final(store)@, prefix_dynamic@, key@);
                        0 <= c < s.len() && #[trigger] s[c].url@ == u && (forall|j: int|
                            0 <= j < c ==> #[trigger] s[j].url@ != u) && s2 == s.update(
                            c,
                            s2[c],
                        ) && s2[c].url == update_item_data.url && s2[c].quantity
                            == update_item_data.user_details.quantity && final(store)@
                            == with_region_records(old(store)@, prefix_dynamic@, key@, s2)
                    }
            }
        }),
        forall|p2: Seq<char>, k2: Seq<char>|
            !(p2 == prefix_dynamic@ && k2 == key@) ==> #[trigger] recs(final(store)@, p2, k2)
                == recs(old(store)@, p2, k2),
{
    match scan_quantity_url(store, prefix_dynamic, key, update_item_data.url.as_str()) {
        None => Err(ContractError::UpdateNotFound),
        Some(c) => {
            let updated_user_item_quantity = UserProductQuantity {
                quantity: update_item_data.user_details.quantity,
                url: update_item_data.url.clone(),
            };
            store.set_in(prefix_dynamic, key, c, updated_user_item_quantity);
            Ok(())
        },
    }
}

/// All of the account's commitment records for the category.
pub fn get_ctegory_user_items_quantities(
    store: &Store<UserProductQuantity>,
    prefix_dynamic: &str,
    key: &str,
) -> (r: Vec<UserProductQuantity>)
    requires
        store_wf(store@),
    ensures
        r@ == recs(store@, prefix_dynamic@, key@),
{
    let ghost s = recs(store@, prefix_dynamic@, key@);
    let n = store.len_of(prefix_dynamic, key);
    let mut r: Vec<UserProductQuantity> = Vec::new();
    let mut i: usize = 0;
    while i < n
        invariant
            store_wf(store@),
            0 <= i <= n,
            n == s.len(),
            s == recs(store@, prefix_dynamic@, key@),
            r@ =~= s.subrange(0, i as int),
        decreases n - i,
    {
        r.push(store.get_from(prefix_dynamic, key, i).dup());
        proof {
            assert(r@ =~= s.subrange(0, i + 1));
        }
        i += 1;
    }
    proof {
        assert(r@ =~= s);
    }
    r
}

/// The account's commitment record for the given url, if any.
pub fn get_category_user_items_quantities_by_url(
    store: &Store<UserProductQuantity>,
    prefix_dynamic: &str,
    key: &str,
    url: &str,
) -> (r: Option<UserProductQuantity>)
    requires
        store_wf(store@),
    ensures
        ({
            let s = recs(store@, prefix_dynamic@, key@);
            match r {
                Some(q) => exists|i: int|
                    0 <= i < s.len() && #[trigger] s[i].url@ == url@ && q == s[i] && (
                    forall|j: int| 0 <= j < i ==> #[trigger] s[j].url@ != url@),
                None => forall|i: int| 0 <= i < s.len() ==> #[trigger] s[i].url@ != url@,
            }
        }),
{
    let ghost s = recs(store@, prefix_dynamic@, key@);
    let n = store.len_of(prefix_dynamic, key);
    let mut i: usize = 0;
    while i < n
        invariant
            store_wf(store@),
            0 <= i <= n,
            n == s.len(),
            s == recs(store@, prefix_dynamic@, key@),
            forall|j: int| 0 <= j < i ==> #[trigger] s[j].url@ != url@,
        decreases n - i,
    {
        let rec = store.get_from(prefix_dynamic, key, i);
        if str_eq(rec.url.as_str(), url) {
            return Some(rec.dup());
        }
        i += 1;
    }
    None
}

/// The item's details record for the given account, if any.
pub fn get_category_item_user_details(
    store: &Store<UserItemDetails>,
    prefix_dynamic_users: &str,
    key: &str,
    user_address: &str,
) -> (r: Option<UserItemDetails>)
    requires
        store_wf(store@),
    ensures
        ({
            let s = recs(store@, prefix_dynamic_users@, key@);
            match r {
                Some(d) => exists|i: int|
                    0 <= i < s.len() && #[trigger] s[i].account_address@ == user_address@ && d
                        == s[i] && (forall|j: int|
                        0 <= j < i ==> #[trigger] s[j].account_address@ != user_address@),
                None => forall|i: int|
                    0 <= i < s.len() ==> #[trigger] s[i].account_address@ != user_address@,
            }
        }),
{
    let ghost s = recs(store@, prefix_dynamic_users@, key@);
    let n = store.len_of(prefix_dynamic_users, key);
    let mut i: usize = 0;
    while i < n
        invariant
            store_wf(store@),
            0 <= i <= n,
            n == s.len(),
            s == recs(store@, prefix_dynamic_users@, key@),
            forall|j: int| 0 <= j < i ==> #[trigger] s[j].account_address@ != user_address@,
        decreases n - i,
    {
        let rec = store.get_from(prefix_dynamic_users, key, i);
        if str_eq(rec.account_address.as_str(), user_address) {
            return Some(rec.dup());
        }
        i += 1;
    }
    None
}

/// The accounts of every participant committed to the item, in storage
/// order.
pub fn get_all_participating_users_addresses(
    store: &Store<UserItemDetails>,
    prefix_dynamic_users: &str,
    key: &str,
) -> (r: Vec<String>)
    requires
        store_wf(store@),
    ensures
        ({
            let s = recs(store@, prefix_dynamic_users@, key@);
            r@.len() == s.len() && forall|i: int|
                0 <= i < s.len() ==> #[trigger] r@[i] == s[i].account_address
        }),
{
    let ghost s = recs(store@, prefix_dynamic_users@, key@);
    let n = store.len_of(prefix_dynamic_users, key);
    let mut r: Vec<String> = Vec::new();
    let mut i: usize = 0;
    while i < n
        invariant
            store_wf(store@),
            0 <= i <= n,
            n == s.len(),
            s == recs(store@, prefix_dynamic_users@, key@),
            r@.len() == i,
            forall|j: int| 0 <= j < i ==> #[trigger] r@[j] == s[j].account_address,
        decreases n - i,
    {
        r.push(store.get_from(prefix_dynamic_users, key, i).account_address.clone());
        i += 1;
    }
    r
}

/// Removes the item's details record for the given account, swapping the
/// last record into its place. An account no record carries — the empty
/// region included — is a not-found error that changes nothing.
pub fn remove_category_item_user_details(
    store: &mut Store<UserItemDetails>,
    prefix_dynamic_users: &str,
    key: &str,
    user_address: &str,
) -> (r: Result<(), ContractError>)
    requires
        store_wf(old(store)@),
    ensures
        store_wf(final(store)@),
        ({
            let s = recs(old(store)@, prefix_dynamic_users@, key@);
            if forall|i: int|
                0 <= i < s.len() ==> #[trigger] s[i].account_address@ != user_address@ {
                r == Err::<(), ContractError>(ContractError::RemoveNotFound) && *final(store)
                    == *old(store)
            } else {
                r is Ok && exists|c: int|
                    0 <= c < s.len() && #[trigger] s[c].account_address@ == user_address@ && (
                    forall|j: int|
                        0 <= j < c ==> #[trigger] s[j].account_address@ != user_address@)
                        && final(store)@ == with_region_records(
                        old(store)@,
                        prefix_dynamic_users@,
                        key@,
                        s.update(c, s.last()).drop_last(),
                    )
            }
        }),
        forall|p2: Seq<char>, k2: Seq<char>|
            !(p2 == prefix_dynamic_users@ && k2 == key@) ==> #[trigger] recs(final(store)@, p2, k2)
                == recs(old(store)@, p2, k2),
{
    match scan_details_account(store, prefix_dynamic_users, key, user_address) {
        None => Err(ContractError::RemoveNotFound),
        Some(c) => {
            store.remove_in(prefix_dynamic_users, key, c);
            Ok(())
        },
    }
}

/// Tears down the item's whole details region, popping record by record.
pub fn remove_all_category_item_users_details(
    store: &mut Store<UserItemDetails>,
    prefix_dynamic_users: &str,
    key: &str,
) -> (r: Result<(), ContractError>)
    requires
        store_wf(old(store)@),
    ensures
        store_wf(final(store)@),
        r is Ok,
        recs(final(store)@, prefix_dynamic_users@, key@).len() == 0,
        recs(old(store)@, prefix_dynamic_users@, key@).len() == 0 ==> *final(store) == *old(
            store,
        ),
        forall|p2: Seq<char>, k2: Seq<char>|
            !(p2 == prefix_dynamic_users@ && k2 == key@) ==> #[trigger] recs(final(store)@, p2, k2)
                == recs(old(store)@, p2, k2),
{
    let ghost s = recs(old(store)@, prefix_dynamic_users@, key@);
    let len = store.len_of(prefix_dynamic_users, key);
    if len == 0 {
        return Ok(());
    }
    let mut x: usize = 0;
    while x < len
        invariant
            store_wf(store@),
            0 <= x <= len,
            len == s.len(),
            recs(store@, prefix_dynamic_users@, key@) == s.subrange(0, (len - x) as int),
            forall|p2: Seq<char>, k2: Seq<char>|
                !(p2 == prefix_dynamic_users@ && k2 == key@) ==> #[trigger] recs(store@, p2, k2)
                    == recs(old(store)@, p2, k2),
        decreases len - x,
    {
        let ghost cur = recs(store@, prefix_dynamic_users@, key@);
        store.pop_from(prefix_dynamic_users, key);
        proof {
            assert(cur.drop_last() =~= s.subrange(0, (len - x - 1) as int));
        }
        x += 1;
    }
    proof {
        assert(recs(store@, prefix_dynamic_users@, key@) =~= s.subrange(0, 0));
    }
    Ok(())
}

/// Overwrites the item's details record for the account named in `value`
/// with `value` itself. An account no record carries — the empty region
/// included — is a not-found error that changes nothing.
pub fn update_category_item_user_details(
    store: &mut Store<UserItemDetails>,
    prefix_dynamic_users: &str,
    key: &str,
    value: &UserItemDetails,
) -> (r: Result<(), ContractError>)
    requires
        store_wf(old(store)@),
    ensures
        store_wf(final(store)@),
        ({
            let s = recs(old(store)@, prefix_dynamic_users@, key@);
            let a = value.account_address@;
            if forall|i: int| 0 <= i < s.len() ==> #[trigger] s[i].account_address@ != a {
                r == Err::<(), ContractError>(ContractError::UpdateNotFound) && *final(store)
                    == *old(store)
            } else {
                r is Ok && exists|c: int|
                    0 <= c < s.len() && #[trigger] s[c].account_address@ == a && (forall|j: int|
                        0 <= j < c ==> #[trigger] s[j].account_address@ != a) && recs(
                        final(store)@,
                        prefix_dynamic_users@,
                        key@,
                    ) == s.update(c, *value) && final(store)@ == with_region_records(
                        old(store)@,
                        prefix_dynamic_users@,
                        key@,
                        s.update(c, *value),
                    )
            }
        }),
        forall|p2: Seq<char>, k2: Seq<char>|
            !(p2 == prefix_dynamic_users@ && k2 == key@) ==> #[trigger] recs(final(store)@, p2, k2)
                == recs(old(store)@, p2, k2),
{
    match scan_details_account(store, prefix_dynamic_users, key, value.account_address.as_str()) {
        None => Err(ContractError::UpdateNotFound),
        Some(c) => {
            store.set_in(prefix_dynamic_users, key, c, value.dup());
            Ok(())
        },
    }
}

} // verus!

//! End-to-end settlement scenarios, error cases, the credential hashing,
//! and the unordered removal of the indexed collection.

use group_buy::collection::IndexedCollection;
use group_buy::handle::handle;
use group_buy::init::init;
use group_buy::msg::{
    ContractError, Env, GetItems, HandleMsg, HandleResponse, InitMsg, QueryAnswer, QueryMsg,
    RemoveItemData, StaticItemData, UpdateItemData, UserContactData, UserItemDetails,
};
use group_buy::query::query;
use group_buy::state::{get_category_prefixes, Marketplace};
use group_buy::viewing_key::ViewingKey;

fn fresh() -> Marketplace {
    init(InitMsg {})
}

fn env_for(sender: &str) -> Env {
    Env {
        contract_address: String::from("cosmos2contract"),
        message_sender: String::from(sender),
    }
}

fn laptop_listing(url: &str, wanted_price: u128, goal: u32) -> StaticItemData {
    StaticItemData {
        name: String::from("Cool item"),
        category: String::from("laptops"),
        url: String::from(url),
        img_url: String::from("www.image-item.com"),
        seller_address: String::from("sellerAddress"),
        seller_email: String::from("seller@email.com"),
        price: 1000,
        wanted_price,
        group_size_goal: goal,
    }
}

fn update_msg(sender_shown: &str, url: &str, quantity: u32) -> UpdateItemData {
    UpdateItemData {
        category: String::from("laptops"),
        url: String::from(url),
        user_details: UserItemDetails {
            account_address: String::from(sender_shown),
            contact_data: UserContactData {
                delivery_address: String::from("user delivery address"),
                email: String::from("user@email.com"),
            },
            quantity,
        },
    }
}

fn items_for(m: &mut Marketplace, account: &str) -> GetItems {
    let key = format!("vk-{}", account);
    handle(
        m,
        env_for(account),
        HandleMsg::SetViewingKey { key: key.clone() },
    )
    .unwrap();
    let answer = query(
        m,
        QueryMsg::GetItems {
            category: String::from("laptops"),
            address: String::from(account),
            key,
        },
    )
    .unwrap();
    match answer {
        QueryAnswer::GetItems(g) => g,
    }
}

/// Listing and a first join: the aggregate rises, the item stays listed,
/// and no payment instruction is emitted.
#[test]
fn scenario_list_and_join() {
    let mut m = fresh();
    handle(&mut m, env_for("bob"), HandleMsg::AddItem(laptop_listing("U", 900, 10))).unwrap();
    let resp: HandleResponse = handle(
        &mut m,
        env_for("alice"),
        HandleMsg::UpdateItem(update_msg("alice", "U", 1)),
    )
    .unwrap();
    assert!(resp.messages.is_empty());

    let g = items_for(&mut m, "alice");
    assert_eq!(g.items.len(), 1);
    assert_eq!(g.items[0].current_group_size, 1);
    assert_eq!(g.user_items.len(), 1);
    assert_eq!(g.user_items[0].quantity, 1);
}

/// Reaching the goal exactly pays the seller `goal * wanted_price` and
/// tears the item down; later lookups find nothing.
#[test]
fn scenario_goal_reached_pays_seller() {
    let mut m = fresh();
    handle(&mut m, env_for("bob"), HandleMsg::AddItem(laptop_listing("U", 900, 10))).unwrap();
    handle(
        &mut m,
        env_for("alice"),
        HandleMsg::UpdateItem(update_msg("alice", "U", 1)),
    )
    .unwrap();
    let resp = handle(
        &mut m,
        env_for("alice"),
        HandleMsg::UpdateItem(update_msg("alice", "U", 10)),
    )
    .unwrap();
    assert_eq!(resp.messages.len(), 1);
    assert_eq!(resp.messages[0].to_address, String::from("sellerAddress"));
    assert_eq!(resp.messages[0].amount, 9000);

    let g = items_for(&mut m, "alice");
    assert!(g.items.is_empty());
    assert!(g.user_items.is_empty());
}

/// One short of the goal does not finalize.
#[test]
fn scenario_one_short_of_goal_stays_open() {
    let mut m = fresh();
    handle(&mut m, env_for("bob"), HandleMsg::AddItem(laptop_listing("U", 900, 10))).unwrap();
    let resp = handle(
        &mut m,
        env_for("alice"),
        HandleMsg::UpdateItem(update_msg("alice", "U", 9)),
    )
    .unwrap();
    assert!(resp.messages.is_empty());
    let g = items_for(&mut m, "alice");
    assert_eq!(g.items.len(), 1);
    assert_eq!(g.items[0].current_group_size, 9);
}

/// Two participants; one shrinks a commitment and is refunded the
/// difference at the wanted unit price.
#[test]
fn scenario_shrink_refunds_difference() {
    let mut m = fresh();
    handle(&mut m, env_for("bob"), HandleMsg::AddItem(laptop_listing("U", 900, 10))).unwrap();
    handle(
        &mut m,
        env_for("alice"),
        HandleMsg::UpdateItem(update_msg("alice", "U", 5)),
    )
    .unwrap();
    handle(
        &mut m,
        env_for("carol"),
        HandleMsg::UpdateItem(update_msg("carol", "U", 2)),
    )
    .unwrap();
    let g = items_for(&mut m, "alice");
    assert_eq!(g.items[0].current_group_size, 7);

    let resp = handle(
        &mut m,
        env_for("alice"),
        HandleMsg::UpdateItem(update_msg("alice", "U", 2)),
    )
    .unwrap();
    assert_eq!(resp.messages.len(), 1);
    assert_eq!(resp.messages[0].to_address, String::from("alice"));
    assert_eq!(resp.messages[0].amount, 2700);

    let g2 = items_for(&mut m, "alice");
    assert_eq!(g2.items[0].current_group_size, 4);
    assert_eq!(g2.user_items[0].quantity, 2);
}

/// Updating to zero removes the commitment, refunds it in full, and leaves
/// the item listed with a zero aggregate.
#[test]
fn scenario_withdraw_refunds_everything() {
    let mut m = fresh();
    handle(&mut m, env_for("bob"), HandleMsg::AddItem(laptop_listing("U", 900, 10))).unwrap();
    handle(
        &mut m,
        env_for("alice"),
        HandleMsg::UpdateItem(update_msg("alice", "U", 5)),
    )
    .unwrap();
    let resp = handle(
        &mut m,
        env_for("alice"),
        HandleMsg::UpdateItem(update_msg("alice", "U", 0)),
    )
    .unwrap();
    assert_eq!(resp.messages.len(), 1);
    assert_eq!(resp.messages[0].to_address, String::from("alice"));
    assert_eq!(resp.messages[0].amount, 4500);

    let g = items_for(&mut m, "alice");
    assert_eq!(g.items.len(), 1);
    assert_eq!(g.items[0].current_group_size, 0);
    assert!(g.user_items.is_empty());
    assert_eq!(g.contact_data, None);
}

/// Joining with a zero quantity is rejected and changes nothing.
#[test]
fn scenario_zero_quantity_join_rejected() {
    let mut m = fresh();
    handle(&mut m, env_for("bob"), HandleMsg::AddItem(laptop_listing("U", 900, 10))).unwrap();
    let r = handle(
        &mut m,
        env_for("alice"),
        HandleMsg::UpdateItem(update_msg("alice", "U", 0)),
    );
    assert_eq!(r.unwrap_err(), ContractError::ZeroQuantity);
    let g = items_for(&mut m, "alice");
    assert_eq!(g.items.len(), 1);
    assert_eq!(g.items[0].current_group_size, 0);
    assert!(g.user_items.is_empty());
}

/// Removal with the right credential tears everything down; with a wrong
/// one it fails with the generic authentication error and changes nothing.
#[test]
fn scenario_remove_item_credentials() {
    let mut m = fresh();
    handle(&mut m, env_for("bob"), HandleMsg::AddItem(laptop_listing("U", 900, 10))).unwrap();
    handle(
        &mut m,
        env_for("alice"),
        HandleMsg::UpdateItem(update_msg("alice", "U", 3)),
    )
    .unwrap();
    handle(
        &mut m,
        env_for("bob"),
        HandleMsg::SetViewingKey { key: String::from("sesame") },
    )
    .unwrap();

    let wrong = handle(
        &mut m,
        env_for("bob"),
        HandleMsg::RemoveItem(RemoveItemData {
            category: String::from("laptops"),
            url: String::from("U"),
            verification_key: String::from("not-sesame"),
        }),
    );
    assert_eq!(wrong.unwrap_err(), ContractError::AuthenticationFailed);
    let g = items_for(&mut m, "alice");
    assert_eq!(g.items.len(), 1);
    assert_eq!(g.user_items.len(), 1);

    let right = handle(
        &mut m,
        env_for("bob"),
        HandleMsg::RemoveItem(RemoveItemData {
            category: String::from("laptops"),
            url: String::from("U"),
            verification_key: String::from("sesame"),
        }),
    );
    assert!(right.is_ok());
    let g2 = items_for(&mut m, "alice");
    assert!(g2.items.is_empty());
    assert!(g2.user_items.is_empty());
}

#[test]
fn unknown_category_is_rejected() {
    let mut m = fresh();
    let mut listing = laptop_listing("U", 900, 10);
    listing.category = String::from("cars");
    let r = handle(&mut m, env_for("bob"), HandleMsg::AddItem(listing));
    assert_eq!(r.unwrap_err(), ContractError::UnknownCategory);
}

#[test]
fn update_of_unlisted_item_is_rejected() {
    let mut m = fresh();
    let r = handle(
        &mut m,
        env_for("alice"),
        HandleMsg::UpdateItem(update_msg("alice", "nowhere", 1)),
    );
    assert_eq!(r.unwrap_err(), ContractError::ItemNotFound);
}

#[test]
fn double_listing_same_url_is_rejected() {
    let mut m = fresh();
    handle(&mut m, env_for("bob"), HandleMsg::AddItem(laptop_listing("U", 900, 10))).unwrap();
    let r = handle(&mut m, env_for("bob"), HandleMsg::AddItem(laptop_listing("U", 900, 10)));
    assert_eq!(r.unwrap_err(), ContractError::AlreadyListed);
}

#[test]
fn removing_absent_url_fails() {
    let mut m = fresh();
    handle(&mut m, env_for("bob"), HandleMsg::AddItem(laptop_listing("U", 900, 10))).unwrap();
    handle(
        &mut m,
        env_for("bob"),
        HandleMsg::SetViewingKey { key: String::from("sesame") },
    )
    .unwrap();
    let r = handle(
        &mut m,
        env_for("bob"),
        HandleMsg::RemoveItem(RemoveItemData {
            category: String::from("laptops"),
            url: String::from("elsewhere"),
            verification_key: String::from("sesame"),
        }),
    );
    assert_eq!(r.unwrap_err(), ContractError::RemoveNotFound);
}

/// Removal by predicate fails with not-found on the empty catalog too:
/// removing an absent url never reports success.
#[test]
fn removing_from_empty_category_fails() {
    let mut m = fresh();
    handle(
        &mut m,
        env_for("bob"),
        HandleMsg::SetViewingKey { key: String::from("sesame") },
    )
    .unwrap();
    let r = handle(
        &mut m,
        env_for("bob"),
        HandleMsg::RemoveItem(RemoveItemData {
            category: String::from("laptops"),
            url: String::from("nowhere"),
            verification_key: String::from("sesame"),
        }),
    );
    assert_eq!(r.unwrap_err(), ContractError::RemoveNotFound);
}

#[test]
fn overflowing_payment_is_rejected() {
    let mut m = fresh();
    handle(
        &mut m,
        env_for("bob"),
        HandleMsg::AddItem(laptop_listing("U", u128::MAX, 2)),
    )
    .unwrap();
    let r = handle(
        &mut m,
        env_for("alice"),
        HandleMsg::UpdateItem(update_msg("alice", "U", 2)),
    );
    assert_eq!(r.unwrap_err(), ContractError::AmountOverflow);
    let g = items_for(&mut m, "alice");
    assert_eq!(g.items.len(), 1);
    assert_eq!(g.items[0].current_group_size, 0);
}

/// The credential is stored hashed with SHA-256: the stored form of
/// "test" is its well-known digest, not the secret itself.
#[test]
fn credential_hash_is_sha256() {
    let vk = ViewingKey(String::from("test"));
    let hashed = vk.to_hashed();
    let expected: [u8; 32] = [
        159, 134, 208, 129, 136, 76, 125, 101, 154, 47, 234, 160, 197, 90, 208, 21, 163, 191, 79,
        27, 43, 11, 130, 44, 209, 93, 108, 21, 176, 240, 10, 8,
    ];
    assert_eq!(hashed, expected);
    assert!(vk.check_viewing_key(&expected));
    assert!(!vk.check_viewing_key(&[0u8; 32]));
    let other = ViewingKey(String::from("test2"));
    assert_ne!(other.to_hashed(), expected);
}

#[test]
fn category_registry_prefixes() {
    let (s, d, u) = get_category_prefixes("laptops").unwrap();
    assert_eq!(s, "laptops-static");
    assert_eq!(d, "laptops-dynamic");
    assert_eq!(u, "laptops-dynamic-users");
    let (s2, d2, u2) = get_category_prefixes("mouse-pads").unwrap();
    assert_eq!(s2, "mouse-pads-static");
    assert_eq!(d2, "mouse-pads-dynamic");
    assert_eq!(u2, "mouse-pads-dynamic-users");
    assert!(get_category_prefixes("cars").is_err());
}

/// Swap-delete: removing the k-th of n records leaves n-1 records, all the
/// originally-present records but the removed one, in some order.
#[test]
fn indexed_collection_swap_delete() {
    let mut col: IndexedCollection<u32> = IndexedCollection::new();
    col.push(10);
    col.push(20);
    col.push(30);
    col.push(40);
    let removed = col.remove_at(1);
    assert_eq!(removed, 20);
    assert_eq!(col.len(), 3);
    let mut remaining: Vec<u32> = Vec::new();
    let mut i = 0;
    while i < col.len() {
        remaining.push(*col.get_at(i));
        i += 1;
    }
    remaining.sort();
    assert_eq!(remaining, vec![10, 30, 40]);

    let last = col.remove_at(col.len() - 1);
    assert_eq!(col.len(), 2);
    assert!(last == 30 || last == 40 || last == 10);
}

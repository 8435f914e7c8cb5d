//! The contract-level tests: listing, joining, updating, withdrawing and
//! removing items, driven through the public handle and query entry points.

use group_buy::handle::handle;
use group_buy::init::init;
use group_buy::msg::{
    ContractError, Env, GetItems, HandleAnswer, HandleMsg, HandleResponse, InitMsg, QueryAnswer,
    QueryMsg, RemoveItemData, ResponseStatus, StaticItemData, UpdateItemData, UserContactData,
    UserItemDetails,
};
use group_buy::query::query;
use group_buy::state::Marketplace;
use group_buy::viewing_key::ViewingKey;

fn init_helper() -> Marketplace {
    init(InitMsg {})
}

fn mock_env(sender: &str) -> Env {
    Env {
        contract_address: String::from("cosmos2contract"),
        message_sender: String::from(sender),
    }
}

fn invoke_set_viewing_key(m: &mut Marketplace) -> ViewingKey {
    let vk: &str = "wefhjyr";
    let msg = HandleMsg::SetViewingKey { key: String::from(vk) };
    let handle_result = handle(m, mock_env("bob"), msg);
    assert!(handle_result.is_ok(), "handle() failed");

    let answer: HandleAnswer = handle_result.unwrap().data.unwrap();
    match answer {
        HandleAnswer::SetViewingKey { status } => match status {
            ResponseStatus::Failure => panic!("Failed to set the viewing key"),
            _ => {}
        },
        _ => panic!("NOPE"),
    };
    ViewingKey(String::from(vk))
}

fn query_history_wrong_vk(m: &Marketplace) {
    let wrong_vk_query_response = query(
        m,
        QueryMsg::GetItems {
            category: String::from("laptops"),
            address: String::from("bob"),
            key: String::from("wrong_vk"),
        },
    );
    let error = match wrong_vk_query_response {
        Ok(_response) => "This line should not be reached!".to_string(),
        Err(_err) => "Wrong viewing key for this address or viewing key not set".to_string(),
    };
    assert_eq!(
        error,
        "Wrong viewing key for this address or viewing key not set".to_string()
    );
}

fn query_category_items(m: &mut Marketplace) -> GetItems {
    let vk = invoke_set_viewing_key(m);
    let query_response = query(
        m,
        QueryMsg::GetItems {
            address: String::from("bob"),
            key: vk.0,
            category: String::from("laptops"),
        },
    )
    .unwrap();
    match query_response {
        QueryAnswer::GetItems(category_items_data) => category_items_data,
    }
}

fn add_new_item_for_test(m: &mut Marketplace, env: Env) {
    let new_item_data = StaticItemData {
        name: String::from("Cool item"),
        category: String::from("laptops"),
        url: String::from("www.item.com"),
        img_url: String::from("www.image-item.com"),
        seller_address: String::from("sellerAddress"),
        seller_email: String::from("seller@email.com"),
        price: 1000,
        wanted_price: 900,
        group_size_goal: 10,
    };
    let msg = HandleMsg::AddItem(new_item_data);
    let _res = handle(m, env, msg).unwrap();
}

fn remove_item_for_test(m: &mut Marketplace, env: Env) {
    let remove_msg = RemoveItemData {
        category: String::from("laptops"),
        url: String::from("www.item.com"),
        verification_key: String::from("wefhjyr"),
    };
    let msg = HandleMsg::RemoveItem(remove_msg);
    let _res = handle(m, env, msg).unwrap();
}

fn create_update_msg(quantity: u32) -> UpdateItemData {
    let user_details = UserItemDetails {
        account_address: String::from("bob"),
        contact_data: UserContactData {
            delivery_address: String::from("user delivery address"),
            email: String::from("user@email.com"),
        },
        quantity,
    };
    UpdateItemData {
        category: String::from("laptops"),
        url: String::from("www.item.com"),
        user_details,
    }
}

fn assert_fetched_data_after_update(
    fetched_data: GetItems,
    expected_len: usize,
    expected_quantity: u32,
    expected_group_size: u32,
) {
    assert_eq!(fetched_data.user_items.len(), expected_len);
    assert_eq!(fetched_data.user_items[0].url, String::from("www.item.com"));
    assert_eq!(fetched_data.user_items[0].quantity, expected_quantity);
    assert_eq!(
        fetched_data.contact_data.unwrap().email,
        String::from("user@email.com")
    );
    assert_eq!(fetched_data.items[0].static_data.price, 1000);
    assert_eq!(fetched_data.items[0].current_group_size, expected_group_size);
    assert_eq!(fetched_data.status, ResponseStatus::Success);
}

#[test]
fn test_init_sanity() {
    let mut m = init_helper();
    let fetched_data = query_category_items(&mut m);
    assert!(fetched_data.items.is_empty());
}

#[test]
fn test_set_viewing_key() {
    let mut m = init_helper();

    let key = invoke_set_viewing_key(&mut m);

    let saved_vk = ViewingKey::read_viewing_key(&m.viewing_keys, "bob").unwrap();

    assert!(key.check_viewing_key(saved_vk.as_slice()));
}

#[test]
fn test_add_new_item() {
    let mut m = init_helper();

    let env = mock_env("bob");
    add_new_item_for_test(&mut m, env);

    let fetched_data = query_category_items(&mut m);
    assert_eq!(fetched_data.items[0].static_data.price, 1000);
    assert_eq!(fetched_data.items[0].current_group_size, 0);

    query_history_wrong_vk(&m);
}

#[test]
fn test_update_new_user_item_goal_not_reached() {
    let mut m = init_helper();

    let env = mock_env("bob");
    let env_clone = env.clone();
    add_new_item_for_test(&mut m, env);

    let update_item_data = create_update_msg(1);
    let msg = HandleMsg::UpdateItem(update_item_data);
    let _res = handle(&mut m, env_clone, msg).unwrap();

    let fetched_data = query_category_items(&mut m);
    assert_fetched_data_after_update(fetched_data, 1, 1, 1);

    query_history_wrong_vk(&m);
}

#[test]
fn test_update_new_user_item_goal_reached() {
    let mut m = init_helper();

    let env = mock_env("bob");
    let env_clone = env.clone();
    add_new_item_for_test(&mut m, env);

    let update_item_data = create_update_msg(10);
    let msg = HandleMsg::UpdateItem(update_item_data);
    let _res = handle(&mut m, env_clone, msg).unwrap();

    let fetched_data = query_category_items(&mut m);
    assert_eq!(fetched_data.user_items.len(), 0);
    assert_eq!(fetched_data.contact_data, None);

    assert_eq!(fetched_data.items.len(), 0);
    assert_eq!(fetched_data.status, ResponseStatus::Success);

    query_history_wrong_vk(&m);
}

#[test]
fn test_update_existing_item_goal_not_reached() {
    let mut m = init_helper();

    let env = mock_env("bob");
    let env_clone = env.clone();
    let env_clone2 = env.clone();
    add_new_item_for_test(&mut m, env);

    let update_item_data = create_update_msg(1);
    let msg = HandleMsg::UpdateItem(update_item_data);
    let _res = handle(&mut m, env_clone, msg).unwrap();

    let update_item_data2 = create_update_msg(5);
    let msg2 = HandleMsg::UpdateItem(update_item_data2);
    let _res = handle(&mut m, env_clone2, msg2).unwrap();

    let fetched_data = query_category_items(&mut m);
    assert_fetched_data_after_update(fetched_data, 1, 5, 5);

    query_history_wrong_vk(&m);
}

#[test]
fn test_update_existing_item_goal_reached() {
    let mut m = init_helper();

    let env = mock_env("bob");
    let env_clone = env.clone();
    let env_clone2 = env.clone();
    add_new_item_for_test(&mut m, env);

    let update_item_data = create_update_msg(1);
    let msg = HandleMsg::UpdateItem(update_item_data);
    let _res = handle(&mut m, env_clone, msg).unwrap();

    let update_item_data2 = create_update_msg(10);
    let msg2 = HandleMsg::UpdateItem(update_item_data2);
    let _res = handle(&mut m, env_clone2, msg2).unwrap();

    let fetched_data = query_category_items(&mut m);
    assert_eq!(fetched_data.user_items.len(), 0);
    assert_eq!(fetched_data.contact_data, None);

    assert_eq!(fetched_data.items.len(), 0);
    assert_eq!(fetched_data.status, ResponseStatus::Success);

    query_history_wrong_vk(&m);
}

#[test]
fn test_update_existing_item_reduce_quantity_partially() {
    let mut m = init_helper();

    let env = mock_env("bob");
    let env_clone = env.clone();
    let env_clone2 = env.clone();
    add_new_item_for_test(&mut m, env);

    let update_item_data = create_update_msg(5);
    let msg = HandleMsg::UpdateItem(update_item_data);
    let _res = handle(&mut m, env_clone, msg).unwrap();

    let update_item_data2 = create_update_msg(2);
    let msg2 = HandleMsg::UpdateItem(update_item_data2);
    let _res = handle(&mut m, env_clone2, msg2).unwrap();

    let fetched_data = query_category_items(&mut m);
    assert_fetched_data_after_update(fetched_data, 1, 2, 2);

    query_history_wrong_vk(&m);
}

#[test]
fn test_update_existing_item_reduce_quantity_completely() {
    let mut m = init_helper();

    let env = mock_env("bob");
    let env_clone = env.clone();
    let env_clone2 = env.clone();
    add_new_item_for_test(&mut m, env);

    let update_item_data = create_update_msg(5);
    let msg = HandleMsg::UpdateItem(update_item_data);
    let _res = handle(&mut m, env_clone, msg).unwrap();

    let update_item_data2 = create_update_msg(0);
    let msg2 = HandleMsg::UpdateItem(update_item_data2);
    let _res = handle(&mut m, env_clone2, msg2).unwrap();

    let fetched_data = query_category_items(&mut m);
    assert_eq!(fetched_data.user_items.len(), 0);
    assert_eq!(fetched_data.contact_data, None);

    assert_eq!(fetched_data.items.len(), 1);
    assert_eq!(fetched_data.status, ResponseStatus::Success);

    query_history_wrong_vk(&m);
}

#[test]
fn test_remove_item() {
    let mut m = init_helper();

    let env = mock_env("bob");
    let env2 = env.clone();
    add_new_item_for_test(&mut m, env);

    let fetched_data = query_category_items(&mut m);
    assert_eq!(fetched_data.items[0].static_data.price, 1000);
    assert_eq!(fetched_data.items[0].current_group_size, 0);

    remove_item_for_test(&mut m, env2);
    let fetched_data2 = query_category_items(&mut m);
    assert_eq!(fetched_data2.user_items.len(), 0);
    assert_eq!(fetched_data2.contact_data, None);

    assert_eq!(fetched_data2.items.len(), 0);
    assert_eq!(fetched_data2.status, ResponseStatus::Success);

    query_history_wrong_vk(&m);
}

#[test]
fn test_transfer_message_shape() {
    let resp: HandleResponse =
        group_buy::handle::transfer_funds(&String::from("from"), &String::from("to"), 7).unwrap();
    assert_eq!(resp.messages.len(), 1);
    assert_eq!(resp.messages[0].from_address, String::from("from"));
    assert_eq!(resp.messages[0].to_address, String::from("to"));
    assert_eq!(resp.messages[0].denom, String::from("uscrt"));
    assert_eq!(resp.messages[0].amount, 7);
    assert!(resp.data.is_none());
}

#[test]
fn test_error_messages() {
    assert_eq!(
        ContractError::UnknownCategory.message(),
        String::from("No such category!")
    );
    assert_eq!(
        ContractError::ZeroQuantity.message(),
        String::from("Cannot join a purchasing group with 0 quantity")
    );
    assert_eq!(
        ContractError::AuthenticationFailed.message(),
        String::from("Authentication failed")
    );
    assert_eq!(
        ContractError::ItemGone.message(),
        String::from("This item does not exist anymore")
    );
}

//! The data model of the marketplace: item listings, participant
//! commitments, request and response shapes, and the error taxonomy.

use vstd::prelude::*;

verus! {

/// The (empty) instantiation request.
pub struct InitMsg {
}

#[derive(Clone, Copy, Debug, PartialEq, Eq, Structural)]
pub enum ResponseStatus {
    Success,
    Failure,
}

/// Delivery and contact details a participant attaches to a commitment.
#[derive(Clone, Debug, PartialEq)]
pub struct UserContactData {
    pub email: String,
    pub delivery_address: String,
}

impl UserContactData {
    /// An exact copy.
    pub fn dup(&self) -> (r: Self)
        ensures
            r == *self,
    {
        UserContactData { email: self.email.clone(), delivery_address: self.delivery_address.clone() }
    }
}

/// A participant's commitment as kept under the item: who is committed,
/// their contact details, and for how many units.
#[derive(Clone, Debug, PartialEq)]
pub struct UserItemDetails {
    pub account_address: String,
    pub contact_data: UserContactData,
    pub quantity: u32,
}

impl UserItemDetails {
    /// An exact copy.
    pub fn dup(&self) -> (r: Self)
        ensures
            r == *self,
    {
        UserItemDetails {
            account_address: self.account_address.clone(),
            contact_data: self.contact_data.dup(),
            quantity: self.quantity,
        }
    }
}

/// An item listing, immutable once created. The url is the item's unique
/// identifier within its category.
#[derive(Clone, Debug, PartialEq)]
pub struct StaticItemData {
    pub name: String,
    pub category: String,
    pub url: String,
    pub img_url: String,
    pub seller_address: String,
    pub seller_email: String,
    pub price: u128,
    pub wanted_price: u128,
    pub group_size_goal: u32,
}

impl StaticItemData {
    /// An exact copy.
    pub fn dup(&self) -> (r: Self)
        ensures
            r == *self,
    {
        StaticItemData {
            name: self.name.clone(),
            category: self.category.clone(),
            url: self.url.clone(),
            img_url: self.img_url.clone(),
            seller_address: self.seller_address.clone(),
            seller_email: self.seller_email.clone(),
            price: self.price,
            wanted_price: self.wanted_price,
            group_size_goal: self.group_size_goal,
        }
    }
}

/// A request to join, change or withdraw a commitment. The url identifies
/// the item within the category.
#[derive(Clone, Debug, PartialEq)]
pub struct UpdateItemData {
    pub category: String,
    pub url: String,
    pub user_details: UserItemDetails,
}

/// A request to remove a listing, gated by a credential.
#[derive(Clone, Debug, PartialEq)]
pub struct RemoveItemData {
    pub category: String,
    pub url: String,
    pub verification_key: String,
}

/// Whether the presented secret matches the account's stored credential
/// hash: the account must have a credential, and the secret must hash to
/// it. Absence and mismatch are indistinguishable to the caller.
pub open spec fn authentication_passes(
    v: Seq<crate::viewing_key::CredModel>,
    a: Seq<char>,
    key: Seq<char>,
) -> bool {
    &&& crate::viewing_key::has_cred(v, a)
    &&& crate::viewing_key::cred_of(v, a) == crate::utils::sha256_of(key)
}

impl RemoveItemData {
    /// Gates removal on the requester's credential. When no credential is
    /// stored, a comparison against a zero buffer is still performed, so
    /// the control flow does not reveal which failure occurred; either way
    /// the same generic error is reported.
    pub fn authenticate_delete(
        &self,
        store: &crate::viewing_key::CredStore,
        address: &String,
    ) -> (r: Result<(), ContractError>)
        requires
            crate::viewing_key::cred_wf(store@),
        ensures
            r is Ok <==> authentication_passes(store@, address@, self.verification_key@),
            r is Err ==> r == Err::<(), ContractError>(ContractError::AuthenticationFailed),
    {
        let vk = crate::viewing_key::ViewingKey(self.verification_key.clone());

        let expected_key = crate::viewing_key::ViewingKey::read_viewing_key(
            store,
            address.as_str(),
        );

        if expected_key.is_none() {
            // Checking the key takes significant time; do not exit at once
            // when it is unset, in a way that would let callers time the
            // request and learn whether a credential exists.
            let zeros: Vec<u8> = vec![0u8; 32];
            vk.check_viewing_key(zeros.as_slice());
            Err(ContractError::AuthenticationFailed)
        } else if vk.check_viewing_key(expected_key.unwrap().as_slice()) {
            Ok(())
        } else {
            Err(ContractError::AuthenticationFailed)
        }
    }
}

/// A listing together with its current aggregate commitment.
#[derive(Clone, Debug, PartialEq)]
pub struct ItemData {
    pub static_data: StaticItemData,
    pub current_group_size: u32,
}

/// A participant's commitment as kept under the participant's account:
/// which item (by url) and how many units.
#[derive(Clone, Debug, PartialEq)]
pub struct UserProductQuantity {
    pub url: String,
    pub quantity: u32,
}

impl UserProductQuantity {
    /// An exact copy.
    pub fn dup(&self) -> (r: Self)
        ensures
            r == *self,
    {
        UserProductQuantity { url: self.url.clone(), quantity: self.quantity }
    }
}

pub enum HandleMsg {
    AddItem(StaticItemData),
    UpdateItem(UpdateItemData),
    RemoveItem(RemoveItemData),
    SetViewingKey { key: String },
}

/// Responses from handle functions.
#[derive(Clone, Copy, Debug, PartialEq, Eq, Structural)]
pub enum HandleAnswer {
    AddItem { status: ResponseStatus },
    UpdateItem { status: ResponseStatus },
    RemoveItem { status: ResponseStatus },
    SetViewingKey { status: ResponseStatus },
}

pub enum QueryMsg {
    GetItems { category: String, address: String, key: String },
}

/// The account a query asks about.
pub open spec fn query_address(q: QueryMsg) -> Seq<char> {
    match q {
        QueryMsg::GetItems { address, .. } => address@,
    }
}

/// The credential a query presents.
pub open spec fn query_key(q: QueryMsg) -> Seq<char> {
    match q {
        QueryMsg::GetItems { key, .. } => key@,
    }
}

/// The category a query asks about.
pub open spec fn query_category(q: QueryMsg) -> Seq<char> {
    match q {
        QueryMsg::GetItems { category, .. } => category@,
    }
}

impl QueryMsg {
    /// Gates a read query on the asking account's credential, with the
    /// same constant-shape comparison as removal; returns the account on
    /// success.
    pub fn authenticate(&self, store: &crate::viewing_key::CredStore) -> (r: Result<
        String,
        ContractError,
    >)
        requires
            crate::viewing_key::cred_wf(store@),
        ensures
            r is Ok <==> authentication_passes(store@, query_address(*self), query_key(*self)),
            r is Ok ==> r.unwrap()@ == query_address(*self),
            r is Err ==> r == Err::<String, ContractError>(ContractError::WrongViewingKey),
    {
        let (address, key) = match self {
            QueryMsg::GetItems { address, key, .. } => (
                address.clone(),
                crate::viewing_key::ViewingKey(key.clone()),
            ),
        };

        let expected_key = crate::viewing_key::ViewingKey::read_viewing_key(
            store,
            address.as_str(),
        );

        if expected_key.is_none() {
            // Checking the key takes significant time; do not exit at once
            // when it is unset, in a way that would let callers time the
            // request and learn whether a credential exists.
            let zeros: Vec<u8> = vec![0u8; 32];
            key.check_viewing_key(zeros.as_slice());
            Err(ContractError::WrongViewingKey)
        } else if key.check_viewing_key(expected_key.unwrap().as_slice()) {
            Ok(address)
        } else {
            Err(ContractError::WrongViewingKey)
        }
    }
}

/// Responses from query functions.
#[derive(Debug)]
pub enum QueryAnswer {
    GetItems(GetItems),
}

/// The answer to a category query: the category's listings, the commitments
/// of the asking account, and the contact data that account filed.
#[derive(Debug)]
pub struct GetItems {
    pub items: Vec<ItemData>,
    pub user_items: Vec<UserProductQuantity>,
    pub contact_data: Option<UserContactData>,
    pub status: ResponseStatus,
}

/// The host invocation context: the executing contract's own account and
/// the account that sent the current request.
#[derive(Clone, Debug, PartialEq)]
pub struct Env {
    pub contract_address: String,
    pub message_sender: String,
}

/// One outbound payment instruction, returned to the host for execution
/// after the invocation commits.
#[derive(Clone, Debug, PartialEq)]
pub struct BankTransfer {
    pub from_address: String,
    pub to_address: String,
    pub denom: String,
    pub amount: u128,
}

/// What a handle invocation returns: at most one payment instruction and an
/// optional answer payload.
#[derive(Debug)]
pub struct HandleResponse {
    pub messages: Vec<BankTransfer>,
    pub data: Option<HandleAnswer>,
}

/// The error taxonomy: configuration, not-found, validation, authentication
/// and internal-consistency failures. Internal-consistency errors are fatal:
/// they mean a cross-record invariant was already broken.
#[derive(Clone, Copy, Debug, PartialEq, Eq, Structural)]
pub enum ContractError {
    /// The request names a category outside the fixed set.
    UnknownCategory,
    /// The item is absent from the category's catalog.
    ItemNotFound,
    /// The item's catalog entry could not be removed because it is absent.
    RemoveNotFound,
    /// The item's aggregate is gone: it was already finalized or removed.
    ItemGone,
    /// Joining with a quantity of zero is rejected.
    ZeroQuantity,
    /// The commitment to update does not exist.
    UpdateNotFound,
    /// An item with the same url is already listed in the category.
    AlreadyListed,
    /// Credential mismatch or absent; always reported the same way.
    AuthenticationFailed,
    /// Wrong viewing key on an authenticated read.
    WrongViewingKey,
    /// A subtraction would underflow: a cross-record invariant is broken.
    InternalConsistency,
    /// A payment amount does not fit in 128 bits.
    AmountOverflow,
}

impl ContractError {
    /// The human-readable message of the error.
    pub fn message(&self) -> (r: String)
        ensures
            *self == ContractError::UnknownCategory ==> r@ == "No such category!"@,
            *self == ContractError::ItemNotFound ==> r@
                == "Item data wasn't found. It should exist in this context"@,
            *self == ContractError::RemoveNotFound ==> r@ == "Item to remove wasn't found"@,
            *self == ContractError::ItemGone ==> r@ == "This item does not exist anymore"@,
            *self == ContractError::ZeroQuantity ==> r@
                == "Cannot join a purchasing group with 0 quantity"@,
            *self == ContractError::UpdateNotFound ==> r@ == "Item to update wasn't found"@,
            *self == ContractError::AlreadyListed ==> r@
                == "An item with this url is already listed"@,
            *self == ContractError::AuthenticationFailed ==> r@ == "Authentication failed"@,
            *self == ContractError::WrongViewingKey ==> r@ == "Wrong viewing key"@,
            *self == ContractError::InternalConsistency ==> r@
                == "Internal consistency violation"@,
            *self == ContractError::AmountOverflow ==> r@
                == "Payment amount does not fit in 128 bits"@,
    {
        match self {
            ContractError::UnknownCategory => "No such category!".to_owned(),
            ContractError::ItemNotFound => "Item data wasn't found. It should exist in this context".to_owned(),
            ContractError::RemoveNotFound => "Item to remove wasn't found".to_owned(),
            ContractError::ItemGone => "This item does not exist anymore".to_owned(),
            ContractError::ZeroQuantity => "Cannot join a purchasing group with 0 quantity".to_owned(),
            ContractError::UpdateNotFound => "Item to update wasn't found".to_owned(),
            ContractError::AlreadyListed => "An item with this url is already listed".to_owned(),
            ContractError::AuthenticationFailed => "Authentication failed".to_owned(),
            ContractError::WrongViewingKey => "Wrong viewing key".to_owned(),
            ContractError::InternalConsistency => "Internal consistency violation".to_owned(),
            ContractError::AmountOverflow => "Payment amount does not fit in 128 bits".to_owned(),
        }
    }
}

} // verus!

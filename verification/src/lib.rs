//! A group-purchase marketplace core: sellers list items with a group-size
//! goal, buyers commit quantities against an item, and once the aggregate
//! committed quantity reaches the goal the seller is paid and the listing is
//! torn down. Buyers may shrink or withdraw commitments for refunds.
//!
//! The settlement engine maintains, across independent storage regions, the
//! two cross-record invariants that everything here revolves around: the
//! per-item aggregate always equals the sum of its participants' committed
//! quantities, and the two denormalized views of the participant ledger
//! (by item and by account) always agree record for record.

pub mod collection;
pub mod handle;
pub mod init;
pub mod laws;
pub mod model;
pub mod msg;
pub mod query;
pub mod seq_facts;
pub mod state;
pub mod store;
pub mod update_logic;
pub mod utils;
pub mod viewing_key;

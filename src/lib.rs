//! An ownership registry for uniquely identified items: which account owns
//! each item, which items each account holds, and how many items are live.
//! Items are created by `mint`, handed on by `transfer` and destroyed by `burn`.
pub mod laws;
pub mod model;
pub mod pallet;
pub mod storage;
pub mod types;

pub use pallet::Pallet;
pub use types::{AccountId, CommodityId, Error, Event};

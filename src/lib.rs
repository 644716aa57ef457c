//! Stake-weighted group membership: bonded tokens become voting weight, every
//! change of weight is kept in a per-account history that can be queried at a
//! past height, and unbonded tokens wait in a claims queue until they mature.

pub mod abi;
pub mod claims;
pub mod contract;
pub mod error;
pub mod expiration;
pub mod funds;
pub mod history;
pub mod hooks;
pub mod msg;
pub mod state;
pub mod text;
pub mod token;
pub mod weight;

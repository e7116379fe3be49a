//! A poll-and-ballot voting contract: typed records over a ledger store,
//! the transitions that create, change and delete them, and the rules
//! that guard every change.

pub mod assoc;
pub mod config;
pub mod consistency;
pub mod contract;
mod error;
pub mod helpers;
pub mod keys;
pub mod laws;
pub mod model;
pub mod msg;
pub mod response;
pub mod store;
pub mod tally;
pub mod validation;

pub use crate::error::ContractError;

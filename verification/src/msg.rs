//! The messages that the host hands to the three entry points, and the
//! answers to queries.

use vstd::prelude::*;
use crate::config::{Config, Poll};

verus! {

/// Sets the contract up. Without an `admin` the sender becomes the admin.
#[derive(Debug, PartialEq)]
pub struct InstantiateMsg {
    pub admin: Option<String>,
}

/// The four state-changing operations.
#[derive(Debug, PartialEq)]
pub enum ExecuteMsg {
    CreatePoll { poll_id: String, question: String, options: Vec<String> },
    DeletePoll { poll_id: String },
    Vote { poll_id: String, option: String },
    DeleteVote { poll_id: String },
}

/// The three read-only questions.
#[derive(Debug, PartialEq)]
pub enum QueryMsg {
    GetConfig {  },
    GetPoll { poll_id: String },
    ListPolls { start_after: Option<String>, limit: Option<u32> },
}

/// The answer to a query, one variant for each question.
#[derive(Debug, PartialEq)]
pub enum QueryResponse {
    Config(Config),
    Poll(Poll),
    Polls(Vec<(String, Poll)>),
}

} // verus!

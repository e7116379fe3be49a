//! The errors with which a transition or a query can fail.

use vstd::prelude::*;

verus! {

/// `cosmwasm_std::StdError`, the host's error, carried as an opaque value.
/// Nothing is claimed of its values.
#[verifier::external_type_specification]
#[verifier::external_body]
pub struct ExStdError(cosmwasm_std::StdError);

/// Why a transition or a query was refused. A refused transition leaves the
/// store exactly as it found it.
#[derive(Debug, PartialEq)]
pub enum ContractError {
    /// A failure reported by the host, handed on unchanged.
    Std(cosmwasm_std::StdError),
    /// The caller may not perform the operation.
    Unauthorized,
    /// A poll was proposed with more options than a poll may have.
    TooManyOptions,
    /// A poll was proposed without any option.
    NoOptions,
    /// A poll with the proposed id exists already.
    PollAlreadyExists,
    /// No poll with the given id exists.
    PollNotFound,
    /// The chosen label is not among the poll's options.
    InvalidOption,
    /// The caller has no ballot on the poll.
    NotVoted,
    /// No configuration has been written yet.
    NotFound,
}

} // verus!

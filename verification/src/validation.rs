//! The checks that guard every change: on the number of options, on poll
//! ids and labels, and on who may do what. None of them writes.

use vstd::prelude::*;
use crate::config::{Config, Poll, MAX_OPTIONS};
use crate::error::ContractError;
use crate::model::may_delete;
use crate::store::Store;

verus! {

/// A poll has at least one option and at most ten.
pub fn validate_option_count(options: &Vec<String>) -> (r: Result<(), ContractError>)
    ensures
        options@.len() > MAX_OPTIONS ==> r == Err::<(), ContractError>(ContractError::TooManyOptions),
        options@.len() == 0 ==> r == Err::<(), ContractError>(ContractError::NoOptions),
        1 <= options@.len() <= MAX_OPTIONS ==> r is Ok,
{
    if options.len() > MAX_OPTIONS {
        Err(ContractError::TooManyOptions)
    } else if options.len() == 0 {
        Err(ContractError::NoOptions)
    } else {
        Ok(())
    }
}

/// A new poll's id is not in use.
pub fn validate_unique_poll_id(store: &Store, poll_id: &str) -> (r: Result<(), ContractError>)
    requires
        store.wf(),
    ensures
        store@.polls.contains_key(poll_id@) ==> r == Err::<(), ContractError>(
            ContractError::PollAlreadyExists,
        ),
        !store@.polls.contains_key(poll_id@) ==> r is Ok,
{
    if store.has_poll(poll_id) {
        Err(ContractError::PollAlreadyExists)
    } else {
        Ok(())
    }
}

/// The label is among the poll's options.
pub fn validate_option_exists(poll: &Poll, label: &str) -> (r: Result<(), ContractError>)
    ensures
        poll@.has_option(label@) ==> r is Ok,
        !poll@.has_option(label@) ==> r == Err::<(), ContractError>(ContractError::InvalidOption),
{
    match poll.find_option(label) {
        Some(_) => Ok(()),
        None => Err(ContractError::InvalidOption),
    }
}

/// The caller is the admin.
pub fn authorize_admin(config: &Config, caller: &str) -> (r: Result<(), ContractError>)
    ensures
        caller@ == config@.admin ==> r is Ok,
        caller@ != config@.admin ==> r == Err::<(), ContractError>(ContractError::Unauthorized),
{
    if crate::keys::key_is_same(caller, config.admin.as_str()) {
        Ok(())
    } else {
        Err(ContractError::Unauthorized)
    }
}

/// The caller is the poll's creator or the admin.
pub fn authorize_creator_or_admin(poll: &Poll, config: &Config, caller: &str) -> (r: Result<
    (),
    ContractError,
>)
    ensures
        may_delete(poll@, config@, caller@) ==> r is Ok,
        !may_delete(poll@, config@, caller@) ==> r == Err::<(), ContractError>(
            ContractError::Unauthorized,
        ),
{
    if crate::keys::key_is_same(caller, poll.creator.as_str()) || crate::keys::key_is_same(
        caller,
        config.admin.as_str(),
    ) {
        Ok(())
    } else {
        Err(ContractError::Unauthorized)
    }
}

} // verus!

//! What each transition does, stated on the mathematical content of the
//! store: the next store where the transition is granted, the error where
//! it is refused.

use vstd::prelude::*;
use crate::config::{labels_view, BallotView, ConfigView, PollView, MAX_OPTIONS};
use crate::error::ContractError;
use crate::helpers::joined;
use crate::msg::{ExecuteMsg, InstantiateMsg};
use crate::store::StoreView;

verus! {

/// The address that instantiation asks the host to validate: the admin
/// named in the message, the sender where it names none.
pub open spec fn requested_admin(sender: Seq<char>, msg: InstantiateMsg) -> Seq<char> {
    match msg.admin {
        Some(admin) => admin@,
        None => sender,
    }
}

/// The store after instantiation with the validated admin address.
pub open spec fn instantiate(s: StoreView, admin: Seq<char>) -> StoreView {
    StoreView { config: Some(ConfigView { admin }), ..s }
}

/// Creating a poll: refused for more than ten options, for none, and for
/// an id in use; else the poll is added with every count at zero.
pub open spec fn create_poll(
    s: StoreView,
    sender: Seq<char>,
    poll_id: Seq<char>,
    question: Seq<char>,
    labels: Seq<Seq<char>>,
) -> Result<StoreView, ContractError> {
    if labels.len() > MAX_OPTIONS {
        Err(ContractError::TooManyOptions)
    } else if labels.len() == 0 {
        Err(ContractError::NoOptions)
    } else if s.polls.contains_key(poll_id) {
        Err(ContractError::PollAlreadyExists)
    } else {
        Ok(StoreView { polls: s.polls.insert(poll_id, PollView::fresh(sender, question, labels)), ..s })
    }
}

/// Who may delete a poll: its creator and the admin.
pub open spec fn may_delete(poll: PollView, config: ConfigView, caller: Seq<char>) -> bool {
    caller == poll.creator || caller == config.admin
}

/// Deleting a poll: refused for an unknown id, before instantiation, and
/// for a caller who is neither creator nor admin; else the poll goes, and
/// every ballot on it with it.
pub open spec fn delete_poll(s: StoreView, sender: Seq<char>, poll_id: Seq<char>) -> Result<
    StoreView,
    ContractError,
> {
    if !s.polls.contains_key(poll_id) {
        Err(ContractError::PollNotFound)
    } else if s.config is None {
        Err(ContractError::NotFound)
    } else if !may_delete(s.polls[poll_id], s.config->Some_0, sender) {
        Err(ContractError::Unauthorized)
    } else {
        Ok(
            StoreView {
                polls: s.polls.remove(poll_id),
                ballots: Map::new(
                    |k: (Seq<char>, Seq<char>)| s.ballots.contains_key(k) && k.0 != poll_id,
                    |k: (Seq<char>, Seq<char>)| s.ballots[k],
                ),
                ..s
            },
        )
    }
}

/// Voting: refused for an unknown poll and for a label that is not on it;
/// else the sender's earlier vote on the poll, if any, is taken back, the
/// new one counted, and the ballot written.
pub open spec fn vote(s: StoreView, sender: Seq<char>, poll_id: Seq<char>, label: Seq<char>) -> Result<
    StoreView,
    ContractError,
> {
    if !s.polls.contains_key(poll_id) {
        Err(ContractError::PollNotFound)
    } else if !s.polls[poll_id].has_option(label) {
        Err(ContractError::InvalidOption)
    } else {
        let key = (poll_id, sender);
        let poll = s.polls[poll_id];
        let cleared = if s.ballots.contains_key(key) {
            poll.without_vote(s.ballots[key].option)
        } else {
            poll
        };
        Ok(
            StoreView {
                polls: s.polls.insert(poll_id, cleared.with_vote(label)),
                ballots: s.ballots.insert(key, BallotView { option: label }),
                ..s
            },
        )
    }
}

/// Taking a vote back: refused for an unknown poll and for a sender
/// without a ballot on it; else the vote is taken back and the ballot
/// removed.
pub open spec fn delete_vote(s: StoreView, sender: Seq<char>, poll_id: Seq<char>) -> Result<
    StoreView,
    ContractError,
> {
    let key = (poll_id, sender);
    if !s.polls.contains_key(poll_id) {
        Err(ContractError::PollNotFound)
    } else if !s.ballots.contains_key(key) {
        Err(ContractError::NotVoted)
    } else {
        Ok(
            StoreView {
                polls: s.polls.insert(poll_id, s.polls[poll_id].without_vote(s.ballots[key].option)),
                ballots: s.ballots.remove(key),
                ..s
            },
        )
    }
}

/// What executing a message does to the store.
pub open spec fn execute(s: StoreView, sender: Seq<char>, msg: ExecuteMsg) -> Result<
    StoreView,
    ContractError,
> {
    match msg {
        ExecuteMsg::CreatePoll { poll_id, question, options } => create_poll(
            s,
            sender,
            poll_id@,
            question@,
            labels_view(options@),
        ),
        ExecuteMsg::DeletePoll { poll_id } => delete_poll(s, sender, poll_id@),
        ExecuteMsg::Vote { poll_id, option } => vote(s, sender, poll_id@, option@),
        ExecuteMsg::DeleteVote { poll_id } => delete_vote(s, sender, poll_id@),
    }
}

/// The attributes of the response to an instantiation.
pub open spec fn instantiate_attributes(admin: Seq<char>) -> Seq<(Seq<char>, Seq<char>)> {
    seq![("action"@, "instantiate"@), ("admin"@, admin)]
}

/// The attributes of the response to a message that was executed.
pub open spec fn execute_attributes(sender: Seq<char>, msg: ExecuteMsg) -> Seq<
    (Seq<char>, Seq<char>),
> {
    match msg {
        ExecuteMsg::CreatePoll { poll_id, question, options } => seq![
            ("action"@, "create_poll"@),
            ("creator"@, sender),
            ("question"@, question@),
            ("options"@, joined(labels_view(options@), ", "@)),
        ],
        ExecuteMsg::DeletePoll { poll_id } => seq![
            ("action"@, "delete_poll"@),
            ("poll_id"@, poll_id@),
        ],
        ExecuteMsg::Vote { poll_id, option } => seq![
            ("action"@, "vote"@),
            ("poll_id"@, poll_id@),
            ("option"@, option@),
        ],
        ExecuteMsg::DeleteVote { poll_id } => seq![
            ("action"@, "delete_vote"@),
            ("poll_id"@, poll_id@),
        ],
    }
}

} // verus!

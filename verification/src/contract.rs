//! The entry points: instantiation, the four state-changing operations,
//! and the queries. Each one checks everything before it writes anything.

use vstd::prelude::*;
use crate::assoc::{has_key, key_index};
use crate::config::{labels_view, lemma_position, lemma_same_labels, Ballot, Config, Poll, PollView};
use crate::consistency::{
    lemma_ballot_is_counted, lemma_count_is_tally, lemma_create_poll_consistent,
    lemma_delete_poll_consistent, lemma_delete_vote_consistent, lemma_vote_consistent,
};
use crate::error::ContractError;
use crate::helpers::join;
use crate::model;
use crate::msg::{ExecuteMsg, InstantiateMsg, QueryMsg, QueryResponse};
use crate::response::{empty_response, response_attributes, response_has_extras, with_attribute};
use crate::store::{is_page, poll_page, voter_page, Store, StoreView};
use crate::tally::{consistent, lemma_tally_bounds, lemma_tally_of_ballot, tally};
use crate::validation::{
    authorize_creator_or_admin, validate_option_count, validate_unique_poll_id,
};

verus! {

/// A transition ended as the model says: where the model grants it, the
/// store is the model's next store and the response carries exactly the
/// given attributes; where the model refuses it, the error is the model's
/// and the store is untouched.
pub open spec fn ends_as(
    before: StoreView,
    after: StoreView,
    r: Result<cosmwasm_std::Response<cosmwasm_std::Empty>, ContractError>,
    expected: Result<StoreView, ContractError>,
    attributes: Seq<(Seq<char>, Seq<char>)>,
) -> bool {
    match expected {
        Ok(next) => {
            &&& r is Ok
            &&& after == next
            &&& response_attributes(r->Ok_0) == attributes
            &&& !response_has_extras(r->Ok_0)
        },
        Err(e) => r == Err::<cosmwasm_std::Response<cosmwasm_std::Empty>, ContractError>(e)
            && after == before,
    }
}

/// The address that the host is to validate before instantiation: the
/// admin that the message names, the sender where it names none.
pub fn requested_admin(sender: &str, msg: &InstantiateMsg) -> (admin: String)
    ensures
        admin@ == model::requested_admin(sender@, *msg),
{
    match &msg.admin {
        Some(admin) => admin.clone(),
        None => sender.to_owned(),
    }
}

/// Instantiates the contract with the host's verdict on the requested
/// admin address. A validated address becomes the admin; a failure is
/// handed on unchanged and nothing is written.
pub fn instantiate(store: &mut Store, validated: Result<String, cosmwasm_std::StdError>) -> (r:
    Result<cosmwasm_std::Response<cosmwasm_std::Empty>, ContractError>)
    requires
        old(store).wf(),
    ensures
        final(store).wf(),
        consistent(old(store)@) ==> consistent(final(store)@),
        match validated {
            Ok(admin) => {
                &&& r is Ok
                &&& final(store)@ == model::instantiate(old(store)@, admin@)
                &&& response_attributes(r->Ok_0) == model::instantiate_attributes(admin@)
                &&& !response_has_extras(r->Ok_0)
            },
            Err(e) => r == Err::<cosmwasm_std::Response<cosmwasm_std::Empty>, ContractError>(
                ContractError::Std(e),
            ) && final(store)@ == old(store)@,
        },
{
    match validated {
        Ok(admin) => {
            proof {
                reveal_strlit("action");
                reveal_strlit("admin");
            }
            let response = with_attribute(
                with_attribute(empty_response(), "action", "instantiate"),
                "admin",
                admin.as_str(),
            );
            store.save_config(Config { admin });
            Ok(response)
        },
        Err(e) => Err(ContractError::Std(e)),
    }
}

/// Creates a poll with the sender as its creator and every count at zero.
pub fn execute_create_poll(
    store: &mut Store,
    sender: &str,
    poll_id: String,
    question: String,
    options: Vec<String>,
) -> (r: Result<cosmwasm_std::Response<cosmwasm_std::Empty>, ContractError>)
    requires
        old(store).wf(),
        consistent(old(store)@),
    ensures
        final(store).wf(),
        consistent(final(store)@),
        ends_as(
            old(store)@,
            final(store)@,
            r,
            model::create_poll(old(store)@, sender@, poll_id@, question@, labels_view(options@)),
            model::execute_attributes(
                sender@,
                ExecuteMsg::CreatePoll { poll_id, question, options },
            ),
        ),
{
    match validate_option_count(&options) {
        Err(e) => {
            return Err(e);
        },
        Ok(_) => {},
    }
    match validate_unique_poll_id(store, poll_id.as_str()) {
        Err(e) => {
            return Err(e);
        },
        Ok(_) => {},
    }
    let listed = join(&options, ", ");
    let ghost labels = labels_view(options@);
    assert(labels =~= Seq::new(options@.len(), |i: int| options@[i]@));
    let poll = Poll::new(sender.to_owned(), question, options);
    proof {
        reveal_strlit("action");
        reveal_strlit("creator");
        reveal_strlit("question");
        reveal_strlit("options");
    }
    let response = with_attribute(
        with_attribute(
            with_attribute(
                with_attribute(empty_response(), "action", "create_poll"),
                "creator",
                poll.creator.as_str(),
            ),
            "question",
            poll.question.as_str(),
        ),
        "options",
        listed.as_str(),
    );
    let ghost fresh = poll@;
    store.save_poll(poll_id, poll);
    proof {
        assert(fresh == PollView::fresh(sender@, question@, labels));
        lemma_create_poll_consistent(old(store)@, sender@, poll_id@, question@, labels);
        assert(response_attributes(response) =~= model::execute_attributes(
            sender@,
            ExecuteMsg::CreatePoll { poll_id, question, options },
        ));
    }
    Ok(response)
}

/// Casts the sender's vote on a poll. A sender who has voted on the poll
/// before changes that vote: the earlier one is taken back first.
pub fn execute_vote(store: &mut Store, sender: &str, poll_id: String, option: String) -> (r: Result<
    cosmwasm_std::Response<cosmwasm_std::Empty>,
    ContractError,
>)
    requires
        old(store).wf(),
        consistent(old(store)@),
    ensures
        final(store).wf(),
        consistent(final(store)@),
        ends_as(
            old(store)@,
            final(store)@,
            r,
            model::vote(old(store)@, sender@, poll_id@, option@),
            model::execute_attributes(sender@, ExecuteMsg::Vote { poll_id, option }),
        ),
{
    let ghost before = store@;
    let ghost key = (poll_id@, sender@);
    let mut poll = match store.load_poll(poll_id.as_str()) {
        Ok(poll) => poll,
        Err(e) => {
            return Err(e);
        },
    };
    let target = match poll.find_option(option.as_str()) {
        Some(i) => i,
        None => {
            return Err(ContractError::InvalidOption);
        },
    };
    let ghost loaded = poll@;
    match store.load_ballot(poll_id.as_str(), sender) {
        Some(earlier) => {
            proof {
                lemma_ballot_is_counted(before, key);
            }
            match poll.find_option(earlier.option.as_str()) {
                Some(i) => {
                    poll.remove_vote(i);
                },
                None => {},
            }
        },
        None => {},
    }
    let ghost cleared = poll@;
    proof {
        lemma_same_labels(loaded, cleared);
        lemma_position(loaded, option@);
        store.lemma_finite();
        lemma_count_is_tally(before, poll_id@, option@);
        lemma_tally_bounds(before.ballots, poll_id@, option@);
        if before.ballots.contains_key(key) {
            lemma_tally_of_ballot(before.ballots, key, option@);
        }
    }
    proof {
        reveal_strlit("action");
        reveal_strlit("poll_id");
        reveal_strlit("option");
    }
    let response = with_attribute(
        with_attribute(
            with_attribute(empty_response(), "action", "vote"),
            "poll_id",
            poll_id.as_str(),
        ),
        "option",
        option.as_str(),
    );
    store.save_ballot(poll_id.clone(), sender.to_owned(), Ballot { option });
    proof {
        store.lemma_finite();
        if !before.ballots.contains_key(key) {
            assert(store@.ballots.dom() =~= before.ballots.dom().insert(key));
        }
        assert(loaded.options[target as int].1 == tally(before.ballots, poll_id@, option@));
        assert(cleared.options[target as int].1 < usize::MAX);
        assert(poll@.options[target as int].1 == poll.options@[target as int].1);
    }
    poll.add_vote(target);
    store.save_poll(poll_id, poll);
    proof {
        lemma_vote_consistent(before, sender@, poll_id@, option@);
        assert(response_attributes(response) =~= model::execute_attributes(
            sender@,
            ExecuteMsg::Vote { poll_id, option },
        ));
    }
    Ok(response)
}

/// Takes the sender's vote on a poll back.
pub fn execute_delete_vote(store: &mut Store, sender: &str, poll_id: String) -> (r: Result<
    cosmwasm_std::Response<cosmwasm_std::Empty>,
    ContractError,
>)
    requires
        old(store).wf(),
        consistent(old(store)@),
    ensures
        final(store).wf(),
        consistent(final(store)@),
        ends_as(
            old(store)@,
            final(store)@,
            r,
            model::delete_vote(old(store)@, sender@, poll_id@),
            model::execute_attributes(sender@, ExecuteMsg::DeleteVote { poll_id }),
        ),
{
    let ghost before = store@;
    let ghost key = (poll_id@, sender@);
    let mut poll = match store.load_poll(poll_id.as_str()) {
        Ok(poll) => poll,
        Err(e) => {
            return Err(e);
        },
    };
    let ballot = match store.load_ballot(poll_id.as_str(), sender) {
        Some(ballot) => ballot,
        None => {
            return Err(ContractError::NotVoted);
        },
    };
    proof {
        lemma_ballot_is_counted(before, key);
    }
    match poll.find_option(ballot.option.as_str()) {
        Some(i) => {
            poll.remove_vote(i);
        },
        None => {},
    }
    proof {
        reveal_strlit("action");
        reveal_strlit("poll_id");
    }
    let response = with_attribute(
        with_attribute(empty_response(), "action", "delete_vote"),
        "poll_id",
        poll_id.as_str(),
    );
    store.remove_ballot(poll_id.as_str(), sender);
    store.save_poll(poll_id, poll);
    proof {
        lemma_delete_vote_consistent(before, sender@, poll_id@);
        assert(response_attributes(response) =~= model::execute_attributes(
            sender@,
            ExecuteMsg::DeleteVote { poll_id },
        ));
    }
    Ok(response)
}

/// Deletes a poll and every ballot on it. Only the poll's creator and the
/// admin may do so.
pub fn execute_delete_poll(store: &mut Store, sender: &str, poll_id: String) -> (r: Result<
    cosmwasm_std::Response<cosmwasm_std::Empty>,
    ContractError,
>)
    requires
        old(store).wf(),
        consistent(old(store)@),
    ensures
        final(store).wf(),
        consistent(final(store)@),
        ends_as(
            old(store)@,
            final(store)@,
            r,
            model::delete_poll(old(store)@, sender@, poll_id@),
            model::execute_attributes(sender@, ExecuteMsg::DeletePoll { poll_id }),
        ),
{
    let ghost before = store@;
    let poll = match store.load_poll(poll_id.as_str()) {
        Ok(poll) => poll,
        Err(e) => {
            return Err(e);
        },
    };
    let config = match store.load_config() {
        Ok(config) => config,
        Err(e) => {
            return Err(e);
        },
    };
    match authorize_creator_or_admin(&poll, &config, sender) {
        Err(e) => {
            return Err(e);
        },
        Ok(_) => {},
    }
    let page = store.list_ballots_for_poll(poll_id.as_str());
    let ghost voters = voter_page(page@);
    let mut i: usize = 0;
    while i < page.len()
        invariant
            i <= page@.len(),
            store.wf(),
            voters == voter_page(page@),
            store@.config == before.config,
            store@.polls == before.polls,
            store@.ballots =~= Map::new(
                |k: (Seq<char>, Seq<char>)|
                    before.ballots.contains_key(k) && !(k.0 == poll_id@ && exists|j: int|
                        0 <= j < i && (#[trigger] voters[j]).0 == k.1),
                |k: (Seq<char>, Seq<char>)| before.ballots[k],
            ),
        decreases page@.len() - i,
    {
        let ghost held = store@.ballots;
        store.remove_ballot(poll_id.as_str(), page[i].0.as_str());
        proof {
            let gone = (poll_id@, voters[i as int].0);
            let want = Map::new(
                |k: (Seq<char>, Seq<char>)|
                    before.ballots.contains_key(k) && !(k.0 == poll_id@ && exists|j: int|
                        0 <= j < i + 1 && (#[trigger] voters[j]).0 == k.1),
                |k: (Seq<char>, Seq<char>)| before.ballots[k],
            );
            assert forall|k: (Seq<char>, Seq<char>)| held.remove(gone).contains_key(k)
                <==> want.contains_key(k) by {
                if held.remove(gone).contains_key(k) && k.0 == poll_id@ {
                    if exists|j: int| 0 <= j < i + 1 && (#[trigger] voters[j]).0 == k.1 {
                        let j = choose|j: int| 0 <= j < i + 1 && (#[trigger] voters[j]).0 == k.1;
                        assert(j < i);
                    }
                }
                if want.contains_key(k) {
                    if k == gone {
                        assert(voters[i as int].0 == k.1);
                    }
                }
            }
            assert(store@.ballots =~= want);
        }
        i += 1;
    }
    proof {
        reveal_strlit("action");
        reveal_strlit("poll_id");
    }
    let response = with_attribute(
        with_attribute(empty_response(), "action", "delete_poll"),
        "poll_id",
        poll_id.as_str(),
    );
    store.remove_poll(poll_id.as_str());
    proof {
        let next = model::delete_poll(before, sender@, poll_id@)->Ok_0;
        assert forall|k: (Seq<char>, Seq<char>)| #[trigger]
            before.ballots.contains_key(k) && k.0 == poll_id@ implies exists|j: int|
            0 <= j < voters.len() && (#[trigger] voters[j]).0 == k.1 by {
            assert(before.ballots_on(poll_id@).contains_key(k.1));
            assert(has_key(voters, k.1));
            let j = key_index(voters, k.1);
            assert(voters[j].0 == k.1);
        }
        assert(store@.ballots =~= next.ballots);
        lemma_delete_poll_consistent(before, sender@, poll_id@);
        assert(response_attributes(response) =~= model::execute_attributes(
            sender@,
            ExecuteMsg::DeletePoll { poll_id },
        ));
    }
    Ok(response)
}

/// Executes one message on behalf of `sender`.
pub fn execute(store: &mut Store, sender: &str, msg: ExecuteMsg) -> (r: Result<
    cosmwasm_std::Response<cosmwasm_std::Empty>,
    ContractError,
>)
    requires
        old(store).wf(),
        consistent(old(store)@),
    ensures
        final(store).wf(),
        consistent(final(store)@),
        ends_as(
            old(store)@,
            final(store)@,
            r,
            model::execute(old(store)@, sender@, msg),
            model::execute_attributes(sender@, msg),
        ),
{
    match msg {
        ExecuteMsg::CreatePoll { poll_id, question, options } => execute_create_poll(
            store,
            sender,
            poll_id,
            question,
            options,
        ),
        ExecuteMsg::DeletePoll { poll_id } => execute_delete_poll(store, sender, poll_id),
        ExecuteMsg::Vote { poll_id, option } => execute_vote(store, sender, poll_id, option),
        ExecuteMsg::DeleteVote { poll_id } => execute_delete_vote(store, sender, poll_id),
    }
}

/// What a query is to answer: the configuration, one poll, or a page of
/// the polls in key order.
pub open spec fn answers(s: StoreView, msg: QueryMsg, r: Result<QueryResponse, ContractError>) -> bool {
    match msg {
        QueryMsg::GetConfig {  } => match s.config {
            Some(c) => r matches Ok(QueryResponse::Config(config)) && config@ == c,
            None => r == Err::<QueryResponse, ContractError>(ContractError::NotFound),
        },
        QueryMsg::GetPoll { poll_id } => if s.polls.contains_key(poll_id@) {
            r matches Ok(QueryResponse::Poll(poll)) && poll@ == s.polls[poll_id@]
        } else {
            r == Err::<QueryResponse, ContractError>(ContractError::PollNotFound)
        },
        QueryMsg::ListPolls { start_after, limit } => r matches Ok(QueryResponse::Polls(page))
            && is_page(
            s.polls,
            match start_after {
                Some(start) => Some(start@),
                None => None,
            },
            limit,
            poll_page(page@),
        ),
    }
}

/// Answers a question about the store, which it cannot change.
pub fn query(store: &Store, msg: QueryMsg) -> (r: Result<QueryResponse, ContractError>)
    requires
        store.wf(),
    ensures
        answers(store@, msg, r),
{
    match msg {
        QueryMsg::GetConfig {  } => match store.load_config() {
            Ok(config) => Ok(QueryResponse::Config(config)),
            Err(e) => Err(e),
        },
        QueryMsg::GetPoll { poll_id } => match store.load_poll(poll_id.as_str()) {
            Ok(poll) => Ok(QueryResponse::Poll(poll)),
            Err(e) => Err(e),
        },
        QueryMsg::ListPolls { start_after, limit } => Ok(
            QueryResponse::Polls(store.list_polls(&start_after, limit)),
        ),
    }
}

} // verus!

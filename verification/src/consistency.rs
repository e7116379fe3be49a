//! Every transition keeps the store consistent: after it, as before it,
//! each option's count is the number of ballots that name it.

use vstd::prelude::*;
use crate::config::{lemma_position, lemma_same_labels, BallotView, PollView, MAX_OPTIONS};
use crate::model;
use crate::msg::ExecuteMsg;
use crate::store::StoreView;
use crate::tally::{
    consistent, counts_match, lemma_tally_insert, lemma_tally_none, lemma_tally_of_ballot,
    lemma_tally_remove, tally,
};

verus! {

/// In a consistent store a ballot's vote is counted where its label
/// stands: that count is the label's tally and at least one.
pub proof fn lemma_ballot_is_counted(s: StoreView, key: (Seq<char>, Seq<char>))
    requires
        consistent(s),
        s.ballots.contains_key(key),
    ensures
        s.polls.contains_key(key.0),
        0 <= s.polls[key.0].position(s.ballots[key].option) < s.polls[key.0].options.len(),
        s.polls[key.0].options[s.polls[key.0].position(s.ballots[key].option)].0
            == s.ballots[key].option,
        s.polls[key.0].vote_count(s.ballots[key].option) == tally(
            s.ballots,
            key.0,
            s.ballots[key].option,
        ),
        s.polls[key.0].vote_count(s.ballots[key].option) >= 1,
{
    let poll = s.polls[key.0];
    let label = s.ballots[key].option;
    lemma_position(poll, label);
    lemma_tally_of_ballot(s.ballots, key, label);
    let p = poll.position(label);
    assert(poll.options[p].0 == label);
    assert(poll.position(poll.options[p].0) == p);
}

/// In a consistent store the count of a label on a poll is its tally.
pub proof fn lemma_count_is_tally(s: StoreView, poll_id: Seq<char>, label: Seq<char>)
    requires
        consistent(s),
        s.polls.contains_key(poll_id),
        s.polls[poll_id].has_option(label),
    ensures
        s.polls[poll_id].vote_count(label) == tally(s.ballots, poll_id, label),
{
    let poll = s.polls[poll_id];
    lemma_position(poll, label);
    let p = poll.position(label);
    assert(poll.options[p].0 == label);
    assert(poll.position(poll.options[p].0) == p);
}

/// Instantiation keeps a consistent store consistent.
pub proof fn lemma_instantiate_consistent(s: StoreView, admin: Seq<char>)
    requires
        consistent(s),
    ensures
        consistent(model::instantiate(s, admin)),
{
}

/// Creating a poll keeps a consistent store consistent.
pub proof fn lemma_create_poll_consistent(
    s: StoreView,
    sender: Seq<char>,
    poll_id: Seq<char>,
    question: Seq<char>,
    labels: Seq<Seq<char>>,
)
    requires
        consistent(s),
        model::create_poll(s, sender, poll_id, question, labels) is Ok,
    ensures
        consistent(model::create_poll(s, sender, poll_id, question, labels)->Ok_0),
{
    let after = model::create_poll(s, sender, poll_id, question, labels)->Ok_0;
    let fresh = PollView::fresh(sender, question, labels);
    assert forall|k: (Seq<char>, Seq<char>)| #[trigger] s.ballots.contains_key(k) implies k.0
        != poll_id by {
        assert(s.polls.contains_key(k.0));
    }
    assert forall|id: Seq<char>| #[trigger] after.polls.contains_key(id) implies {
        &&& 1 <= after.polls[id].options.len() <= MAX_OPTIONS
        &&& counts_match(after.polls[id], after.ballots, id)
    } by {
        if id == poll_id {
            assert forall|i: int| 0 <= i < fresh.options.len() implies tally(
                after.ballots,
                id,
                (#[trigger] fresh.options[i]).0,
            ) == 0 by {
                lemma_tally_none(after.ballots, id, fresh.options[i].0);
            }
        } else {
            assert(s.polls.contains_key(id));
        }
    }
    assert forall|k: (Seq<char>, Seq<char>)| #[trigger] after.ballots.contains_key(k) implies {
        &&& after.polls.contains_key(k.0)
        &&& after.polls[k.0].has_option(after.ballots[k].option)
    } by {
        assert(s.polls.contains_key(k.0));
    }
}

/// Voting keeps a consistent store consistent.
pub proof fn lemma_vote_consistent(
    s: StoreView,
    sender: Seq<char>,
    poll_id: Seq<char>,
    label: Seq<char>,
)
    requires
        consistent(s),
        model::vote(s, sender, poll_id, label) is Ok,
    ensures
        consistent(model::vote(s, sender, poll_id, label)->Ok_0),
{
    let after = model::vote(s, sender, poll_id, label)->Ok_0;
    let key = (poll_id, sender);
    let ballot = BallotView { option: label };
    let poll = s.polls[poll_id];
    let voted = s.ballots.contains_key(key);
    let cleared = if voted {
        poll.without_vote(s.ballots[key].option)
    } else {
        poll
    };
    let next = cleared.with_vote(label);
    lemma_position(poll, label);
    if voted {
        lemma_ballot_is_counted(s, key);
    }
    lemma_same_labels(poll, cleared);
    lemma_same_labels(poll, next);
    let pl = poll.position(label);
    assert(cleared.position(label) == pl);
    assert forall|id: Seq<char>| #[trigger] after.polls.contains_key(id) implies {
        &&& 1 <= after.polls[id].options.len() <= MAX_OPTIONS
        &&& counts_match(after.polls[id], after.ballots, id)
    } by {
        if id == poll_id {
            assert(s.polls.contains_key(id));
            assert forall|i: int| 0 <= i < next.options.len() implies (
            #[trigger] next.options[i]).1 == (if next.position(next.options[i].0) == i {
                tally(after.ballots, id, next.options[i].0)
            } else {
                0
            }) by {
                let li = poll.options[i].0;
                assert(next.options[i].0 == li);
                assert(next.position(li) == poll.position(li));
                lemma_tally_insert(s.ballots, key, ballot, id, li);
                lemma_position(poll, li);
                if voted {
                    let pb = poll.position(s.ballots[key].option);
                    assert(poll.position(poll.options[pb].0) == pb);
                }
                assert(poll.position(poll.options[pl].0) == pl);
            }
        } else {
            assert(s.polls.contains_key(id));
            let other = s.polls[id];
            assert forall|i: int| 0 <= i < other.options.len() implies tally(
                after.ballots,
                id,
                (#[trigger] other.options[i]).0,
            ) == tally(s.ballots, id, other.options[i].0) by {
                lemma_tally_insert(s.ballots, key, ballot, id, other.options[i].0);
            }
        }
    }
    assert forall|k: (Seq<char>, Seq<char>)| #[trigger] after.ballots.contains_key(k) implies {
        &&& after.polls.contains_key(k.0)
        &&& after.polls[k.0].has_option(after.ballots[k].option)
    } by {
        if k != key {
            assert(s.ballots.contains_key(k));
        }
    }
}

/// Taking a vote back keeps a consistent store consistent.
pub proof fn lemma_delete_vote_consistent(s: StoreView, sender: Seq<char>, poll_id: Seq<char>)
    requires
        consistent(s),
        model::delete_vote(s, sender, poll_id) is Ok,
    ensures
        consistent(model::delete_vote(s, sender, poll_id)->Ok_0),
{
    let after = model::delete_vote(s, sender, poll_id)->Ok_0;
    let key = (poll_id, sender);
    let poll = s.polls[poll_id];
    let next = poll.without_vote(s.ballots[key].option);
    lemma_ballot_is_counted(s, key);
    lemma_same_labels(poll, next);
    let pb = poll.position(s.ballots[key].option);
    assert forall|id: Seq<char>| #[trigger] after.polls.contains_key(id) implies {
        &&& 1 <= after.polls[id].options.len() <= MAX_OPTIONS
        &&& counts_match(after.polls[id], after.ballots, id)
    } by {
        if id == poll_id {
            assert(s.polls.contains_key(id));
            assert forall|i: int| 0 <= i < next.options.len() implies (
            #[trigger] next.options[i]).1 == (if next.position(next.options[i].0) == i {
                tally(after.ballots, id, next.options[i].0)
            } else {
                0
            }) by {
                let li = poll.options[i].0;
                assert(next.options[i].0 == li);
                assert(next.position(li) == poll.position(li));
                lemma_tally_remove(s.ballots, key, id, li);
                lemma_position(poll, li);
                assert(poll.position(poll.options[pb].0) == pb);
            }
        } else {
            assert(s.polls.contains_key(id));
            let other = s.polls[id];
            assert forall|i: int| 0 <= i < other.options.len() implies tally(
                after.ballots,
                id,
                (#[trigger] other.options[i]).0,
            ) == tally(s.ballots, id, other.options[i].0) by {
                lemma_tally_remove(s.ballots, key, id, other.options[i].0);
            }
        }
    }
    assert forall|k: (Seq<char>, Seq<char>)| #[trigger] after.ballots.contains_key(k) implies {
        &&& after.polls.contains_key(k.0)
        &&& after.polls[k.0].has_option(after.ballots[k].option)
    } by {
        assert(s.ballots.contains_key(k));
    }
}

/// Deleting a poll keeps a consistent store consistent.
pub proof fn lemma_delete_poll_consistent(s: StoreView, sender: Seq<char>, poll_id: Seq<char>)
    requires
        consistent(s),
        model::delete_poll(s, sender, poll_id) is Ok,
    ensures
        consistent(model::delete_poll(s, sender, poll_id)->Ok_0),
{
    let after = model::delete_poll(s, sender, poll_id)->Ok_0;
    assert(after.ballots.dom().subset_of(s.ballots.dom()));
    vstd::set_lib::lemma_len_subset(after.ballots.dom(), s.ballots.dom());
    assert forall|id: Seq<char>| #[trigger] after.polls.contains_key(id) implies {
        &&& 1 <= after.polls[id].options.len() <= MAX_OPTIONS
        &&& counts_match(after.polls[id], after.ballots, id)
    } by {
        assert(s.polls.contains_key(id));
        let other = s.polls[id];
        assert forall|i: int| 0 <= i < other.options.len() implies tally(
            after.ballots,
            id,
            (#[trigger] other.options[i]).0,
        ) == tally(s.ballots, id, other.options[i].0) by {
            assert(crate::tally::ballots_naming(after.ballots, id, other.options[i].0)
                =~= crate::tally::ballots_naming(s.ballots, id, other.options[i].0));
        }
    }
    assert forall|k: (Seq<char>, Seq<char>)| #[trigger] after.ballots.contains_key(k) implies {
        &&& after.polls.contains_key(k.0)
        &&& after.polls[k.0].has_option(after.ballots[k].option)
    } by {
        assert(s.ballots.contains_key(k));
    }
}

/// Whatever message is executed, by whomever, a consistent store stays
/// consistent: a granted transition leads to a consistent store, and a
/// refused one changes nothing.
pub proof fn lemma_execute_consistent(s: StoreView, sender: Seq<char>, msg: ExecuteMsg)
    requires
        consistent(s),
    ensures
        model::execute(s, sender, msg) matches Ok(next) ==> consistent(next),
{
    match msg {
        ExecuteMsg::CreatePoll { poll_id, question, options } => {
            if model::execute(s, sender, msg) is Ok {
                lemma_create_poll_consistent(
                    s,
                    sender,
                    poll_id@,
                    question@,
                    crate::config::labels_view(options@),
                );
            }
        },
        ExecuteMsg::DeletePoll { poll_id } => {
            if model::execute(s, sender, msg) is Ok {
                lemma_delete_poll_consistent(s, sender, poll_id@);
            }
        },
        ExecuteMsg::Vote { poll_id, option } => {
            if model::execute(s, sender, msg) is Ok {
                lemma_vote_consistent(s, sender, poll_id@, option@);
            }
        },
        ExecuteMsg::DeleteVote { poll_id } => {
            if model::execute(s, sender, msg) is Ok {
                lemma_delete_vote_consistent(s, sender, poll_id@);
            }
        },
    }
}

} // verus!

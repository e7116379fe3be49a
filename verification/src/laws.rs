//! What holds of the transitions whatever the store, the sender and the
//! message: the laws of the contract, each proved from the model.

use vstd::prelude::*;
use vstd::set_lib::{lemma_len_subset, lemma_set_disjoint_lens};
use crate::config::{
    count_sum, lemma_position, lemma_same_labels, BallotView, ConfigView, PollView, MAX_OPTIONS,
};
use crate::consistency::{
    lemma_ballot_is_counted, lemma_count_is_tally, lemma_delete_vote_consistent,
    lemma_vote_consistent,
};
use crate::error::ContractError;
use crate::model;
use crate::msg::InstantiateMsg;
use crate::assoc::{has_key, key_index};
use crate::keys::{key_lt, lemma_key_lt_order};
use crate::store::{comes_after, is_page, StoreView};
use crate::tally::{
    ballots_for, ballots_naming, consistent, lemma_tally_bounds, lemma_tally_insert,
    lemma_tally_remove, turnout,
};

verus! {

/// The ballots on a poll whose label is counted at one of the first `n`
/// options.
spec fn counted_below(
    poll: PollView,
    ballots: Map<(Seq<char>, Seq<char>), BallotView>,
    poll_id: Seq<char>,
    n: int,
) -> Set<(Seq<char>, Seq<char>)> {
    Set::new(
        |k: (Seq<char>, Seq<char>)|
            ballots.contains_key(k) && k.0 == poll_id && poll.position(ballots[k].option) < n,
    )
}

proof fn lemma_counted_below(s: StoreView, poll_id: Seq<char>, n: int)
    requires
        consistent(s),
        s.polls.contains_key(poll_id),
        0 <= n <= s.polls[poll_id].options.len(),
    ensures
        counted_below(s.polls[poll_id], s.ballots, poll_id, n).finite(),
        count_sum(s.polls[poll_id].options, n) == counted_below(
            s.polls[poll_id],
            s.ballots,
            poll_id,
            n,
        ).len(),
    decreases n,
{
    let poll = s.polls[poll_id];
    let below = counted_below(poll, s.ballots, poll_id, n);
    lemma_len_subset(below, s.ballots.dom());
    if n == 0 {
        assert forall|k: (Seq<char>, Seq<char>)| !below.contains(k) by {
            if s.ballots.contains_key(k) {
                lemma_position(poll, s.ballots[k].option);
            }
        }
        assert(below =~= Set::empty());
    } else {
        lemma_counted_below(s, poll_id, n - 1);
        let label = poll.options[n - 1].0;
        let earlier = counted_below(poll, s.ballots, poll_id, n - 1);
        let here = Set::new(
            |k: (Seq<char>, Seq<char>)|
                s.ballots.contains_key(k) && k.0 == poll_id && poll.position(s.ballots[k].option)
                    == n - 1,
        );
        lemma_len_subset(here, s.ballots.dom());
        assert forall|k: (Seq<char>, Seq<char>)| below.contains(k) <==> earlier.contains(k)
            || here.contains(k) by {
            if s.ballots.contains_key(k) {
                lemma_position(poll, s.ballots[k].option);
            }
        }
        assert(below =~= earlier + here);
        assert(earlier.disjoint(here));
        lemma_set_disjoint_lens(earlier, here);
        lemma_tally_bounds(s.ballots, poll_id, label);
        if poll.position(label) == n - 1 {
            assert forall|k: (Seq<char>, Seq<char>)| here.contains(k) <==> ballots_naming(
                s.ballots,
                poll_id,
                label,
            ).contains(k) by {
                if s.ballots.contains_key(k) {
                    lemma_position(poll, s.ballots[k].option);
                }
            }
            assert(here =~= ballots_naming(s.ballots, poll_id, label));
        } else {
            assert forall|k: (Seq<char>, Seq<char>)| !here.contains(k) by {
                if s.ballots.contains_key(k) {
                    lemma_position(poll, s.ballots[k].option);
                }
            }
            assert(here =~= Set::empty());
        }
    }
}

/// In a consistent store the counts of a poll add up to the number of
/// ballots on it.
pub proof fn law_counts_add_up_to_ballots(s: StoreView, poll_id: Seq<char>)
    requires
        consistent(s),
        s.polls.contains_key(poll_id),
    ensures
        s.polls[poll_id].total_votes() == turnout(s.ballots, poll_id),
{
    let poll = s.polls[poll_id];
    let n = poll.options.len() as int;
    lemma_counted_below(s, poll_id, n);
    assert forall|k: (Seq<char>, Seq<char>)| ballots_for(s.ballots, poll_id).contains(k)
        <==> counted_below(poll, s.ballots, poll_id, n).contains(k) by {
        if s.ballots.contains_key(k) && k.0 == poll_id {
            lemma_position(poll, s.ballots[k].option);
        }
    }
    assert(ballots_for(s.ballots, poll_id) =~= counted_below(poll, s.ballots, poll_id, n));
}

/// A message without an admin asks for the sender, and the sender, once
/// validated, is the admin after instantiation.
pub proof fn law_admin_defaults_to_sender(s: StoreView, sender: Seq<char>, msg: InstantiateMsg)
    requires
        msg.admin is None,
    ensures
        model::requested_admin(sender, msg) == sender,
        model::instantiate(s, model::requested_admin(sender, msg)).config == Some(
            ConfigView { admin: sender },
        ),
{
}

/// Creating a poll is refused as `TooManyOptions` for more than ten
/// options. With one to ten options and an unused id it is granted, and
/// the new poll has the sender as creator, the labels in their order and
/// every count at zero; nothing else in the store changes.
pub proof fn law_create_poll(
    s: StoreView,
    sender: Seq<char>,
    poll_id: Seq<char>,
    question: Seq<char>,
    labels: Seq<Seq<char>>,
)
    ensures
        labels.len() > MAX_OPTIONS ==> model::create_poll(s, sender, poll_id, question, labels)
            == Err::<StoreView, ContractError>(ContractError::TooManyOptions),
        1 <= labels.len() <= MAX_OPTIONS && !s.polls.contains_key(poll_id) ==> {
            &&& model::create_poll(s, sender, poll_id, question, labels) matches Ok(next)
            &&& next.polls.contains_key(poll_id)
            &&& next.polls[poll_id].creator == sender
            &&& next.polls[poll_id].question == question
            &&& next.polls[poll_id].labels() == labels
            &&& forall|i: int|
                0 <= i < labels.len() ==> (#[trigger] next.polls[poll_id].options[i]).1 == 0
            &&& next.polls.remove(poll_id) == s.polls
            &&& next.ballots == s.ballots
            &&& next.config == s.config
        },
{
    if 1 <= labels.len() <= MAX_OPTIONS && !s.polls.contains_key(poll_id) {
        let next = model::create_poll(s, sender, poll_id, question, labels)->Ok_0;
        assert(next.polls[poll_id].labels() =~= labels);
        assert(next.polls.remove(poll_id) =~= s.polls);
    }
}

/// Creating a poll under an id that is in use is refused as
/// `PollAlreadyExists`, whatever else the message holds, as long as the
/// number of options is in order.
pub proof fn law_create_poll_twice(
    s: StoreView,
    sender: Seq<char>,
    poll_id: Seq<char>,
    question: Seq<char>,
    labels: Seq<Seq<char>>,
)
    requires
        s.polls.contains_key(poll_id),
        1 <= labels.len() <= MAX_OPTIONS,
    ensures
        model::create_poll(s, sender, poll_id, question, labels) == Err::<
            StoreView,
            ContractError,
        >(ContractError::PollAlreadyExists),
{
}

/// A vote for a label on the poll is granted. It writes the sender's
/// ballot and no other; each label's count changes by the vote that the
/// sender gave up, if any, and the vote that the sender gains. A first
/// vote raises the total by one; a changed vote leaves it as it was.
pub proof fn law_vote(s: StoreView, sender: Seq<char>, poll_id: Seq<char>, label: Seq<char>)
    requires
        consistent(s),
        s.polls.contains_key(poll_id),
        s.polls[poll_id].has_option(label),
    ensures
        model::vote(s, sender, poll_id, label) matches Ok(next) && {
            let key = (poll_id, sender);
            let voted = s.ballots.contains_key(key);
            &&& next.ballots == s.ballots.insert(key, BallotView { option: label })
            &&& next.polls.dom() == s.polls.dom()
            &&& forall|other: Seq<char>|
                s.polls[poll_id].has_option(other) ==> #[trigger] next.polls[poll_id].vote_count(
                    other,
                ) == s.polls[poll_id].vote_count(other) - (if voted && s.ballots[key].option
                    == other {
                    1int
                } else {
                    0
                }) + (if label == other {
                    1int
                } else {
                    0
                })
            &&& next.polls[poll_id].total_votes() == s.polls[poll_id].total_votes() + (if voted {
                0int
            } else {
                1
            })
            &&& turnout(next.ballots, poll_id) == turnout(s.ballots, poll_id) + (if voted {
                0int
            } else {
                1
            })
        },
{
    let next = model::vote(s, sender, poll_id, label)->Ok_0;
    let key = (poll_id, sender);
    let ballot = BallotView { option: label };
    lemma_vote_consistent(s, sender, poll_id, label);
    assert(next.polls.dom() =~= s.polls.dom());
    law_counts_add_up_to_ballots(s, poll_id);
    law_counts_add_up_to_ballots(next, poll_id);
    lemma_tally_insert(s.ballots, key, ballot, poll_id, label);
    let poll = s.polls[poll_id];
    let cleared = if s.ballots.contains_key(key) {
        poll.without_vote(s.ballots[key].option)
    } else {
        poll
    };
    lemma_position(poll, label);
    if s.ballots.contains_key(key) {
        lemma_ballot_is_counted(s, key);
    }
    lemma_same_labels(poll, cleared);
    lemma_same_labels(poll, next.polls[poll_id]);
    assert forall|other: Seq<char>| poll.has_option(other) implies #[trigger] next.polls[poll_id].vote_count(
        other,
    ) == poll.vote_count(other) - (if s.ballots.contains_key(key) && s.ballots[key].option
        == other {
        1int
    } else {
        0
    }) + (if label == other {
        1int
    } else {
        0
    }) by {
        lemma_count_is_tally(s, poll_id, other);
        lemma_count_is_tally(next, poll_id, other);
        lemma_tally_insert(s.ballots, key, ballot, poll_id, other);
    }
}

/// Taking a vote back is refused as `NotVoted` for a sender without a
/// ballot on the poll.
pub proof fn law_delete_vote_needs_ballot(s: StoreView, sender: Seq<char>, poll_id: Seq<char>)
    requires
        s.polls.contains_key(poll_id),
        !s.ballots.contains_key((poll_id, sender)),
    ensures
        model::delete_vote(s, sender, poll_id) == Err::<StoreView, ContractError>(
            ContractError::NotVoted,
        ),
{
}

/// Taking a vote back removes the sender's ballot and lowers the count of
/// the label that it named, and the total, by one.
pub proof fn law_delete_vote(s: StoreView, sender: Seq<char>, poll_id: Seq<char>)
    requires
        consistent(s),
        s.polls.contains_key(poll_id),
        s.ballots.contains_key((poll_id, sender)),
    ensures
        model::delete_vote(s, sender, poll_id) matches Ok(next) && {
            let key = (poll_id, sender);
            &&& next.ballots == s.ballots.remove(key)
            &&& forall|other: Seq<char>|
                s.polls[poll_id].has_option(other) ==> #[trigger] next.polls[poll_id].vote_count(
                    other,
                ) == s.polls[poll_id].vote_count(other) - (if s.ballots[key].option == other {
                    1int
                } else {
                    0
                })
            &&& next.polls[poll_id].total_votes() == s.polls[poll_id].total_votes() - 1
        },
{
    let next = model::delete_vote(s, sender, poll_id)->Ok_0;
    let key = (poll_id, sender);
    lemma_delete_vote_consistent(s, sender, poll_id);
    law_counts_add_up_to_ballots(s, poll_id);
    law_counts_add_up_to_ballots(next, poll_id);
    lemma_tally_remove(s.ballots, key, poll_id, s.ballots[key].option);
    let poll = s.polls[poll_id];
    lemma_ballot_is_counted(s, key);
    lemma_same_labels(poll, next.polls[poll_id]);
    assert forall|other: Seq<char>| poll.has_option(other) implies #[trigger] next.polls[poll_id].vote_count(
        other,
    ) == poll.vote_count(other) - (if s.ballots[key].option == other {
        1int
    } else {
        0
    }) by {
        lemma_count_is_tally(s, poll_id, other);
        lemma_count_is_tally(next, poll_id, other);
        lemma_tally_remove(s.ballots, key, poll_id, other);
    }
}

/// A first vote that is taken back leaves no trace: the store is what it
/// was before the vote, the ballot gone and every count at its old value.
pub proof fn law_vote_then_delete(
    s: StoreView,
    sender: Seq<char>,
    poll_id: Seq<char>,
    label: Seq<char>,
)
    requires
        consistent(s),
        s.polls.contains_key(poll_id),
        s.polls[poll_id].has_option(label),
        !s.ballots.contains_key((poll_id, sender)),
    ensures
        model::vote(s, sender, poll_id, label) matches Ok(voted) && model::delete_vote(
            voted,
            sender,
            poll_id,
        ) == Ok::<StoreView, ContractError>(s),
{
    let key = (poll_id, sender);
    let voted = model::vote(s, sender, poll_id, label)->Ok_0;
    let poll = s.polls[poll_id];
    let raised = poll.with_vote(label);
    lemma_position(poll, label);
    lemma_same_labels(poll, raised);
    let back = model::delete_vote(voted, sender, poll_id)->Ok_0;
    assert(back.polls[poll_id].options =~= poll.options);
    assert(back.polls =~= s.polls);
    assert(back.ballots =~= s.ballots);
}

/// Deleting a poll is refused as `Unauthorized` for a caller who is
/// neither its creator nor the admin.
pub proof fn law_delete_poll_needs_authority(s: StoreView, sender: Seq<char>, poll_id: Seq<char>)
    requires
        s.polls.contains_key(poll_id),
        s.config matches Some(config) && sender != config.admin,
        sender != s.polls[poll_id].creator,
    ensures
        model::delete_poll(s, sender, poll_id) == Err::<StoreView, ContractError>(
            ContractError::Unauthorized,
        ),
{
}

/// The creator and the admin may delete a poll. The poll goes and no
/// ballot on it is left; every other poll and ballot stays.
pub proof fn law_delete_poll(s: StoreView, sender: Seq<char>, poll_id: Seq<char>)
    requires
        s.polls.contains_key(poll_id),
        s.config matches Some(config) && (sender == config.admin || sender
            == s.polls[poll_id].creator),
    ensures
        model::delete_poll(s, sender, poll_id) matches Ok(next) && {
            &&& next.polls == s.polls.remove(poll_id)
            &&& next.ballots_on(poll_id) == Map::<Seq<char>, BallotView>::empty()
            &&& forall|k: (Seq<char>, Seq<char>)|
                k.0 != poll_id ==> (#[trigger] next.ballots.contains_key(k)
                    <==> s.ballots.contains_key(k))
            &&& forall|k: (Seq<char>, Seq<char>)| #[trigger]
                next.ballots.contains_key(k) ==> next.ballots[k] == s.ballots[k]
            &&& next.config == s.config
        },
{
    let next = model::delete_poll(s, sender, poll_id)->Ok_0;
    assert(next.ballots_on(poll_id) =~= Map::<Seq<char>, BallotView>::empty());
}

/// Two listings of the same polls from the same start under the same
/// limit agree on their first `n` entries. In the step, the earlier of two
/// differing keys at place `n` would be missing from the other listing.
proof fn lemma_pages_agree(
    polls: Map<Seq<char>, PollView>,
    start_after: Option<Seq<char>>,
    limit: Option<u32>,
    a: Seq<(Seq<char>, PollView)>,
    b: Seq<(Seq<char>, PollView)>,
    n: int,
)
    requires
        is_page(polls, start_after, limit, a),
        is_page(polls, start_after, limit, b),
        0 <= n <= a.len(),
        n <= b.len(),
    ensures
        forall|i: int| 0 <= i < n ==> a[i] == b[i],
    decreases n,
{
    if n > 0 {
        lemma_pages_agree(polls, start_after, limit, a, b, n - 1);
        let m = n - 1;
        let ka = a[m].0;
        let kb = b[m].0;
        lemma_key_lt_order(ka, kb, ka);
        if key_lt(ka, kb) {
            lemma_missing_from_page(polls, start_after, limit, a, b, m);
        } else if key_lt(kb, ka) {
            lemma_missing_from_page(polls, start_after, limit, b, a, m);
        }
        assert(polls[ka] == a[m].1);
        assert(polls[kb] == b[m].1);
    }
}

/// Where two listings agree before place `m`, the key of the one at `m`
/// does not come before the key of the other at `m`.
proof fn lemma_missing_from_page(
    polls: Map<Seq<char>, PollView>,
    start_after: Option<Seq<char>>,
    limit: Option<u32>,
    a: Seq<(Seq<char>, PollView)>,
    b: Seq<(Seq<char>, PollView)>,
    m: int,
)
    requires
        is_page(polls, start_after, limit, a),
        is_page(polls, start_after, limit, b),
        0 <= m < a.len(),
        m < b.len(),
        forall|i: int| 0 <= i < m ==> a[i] == b[i],
    ensures
        !key_lt(a[m].0, b[m].0),
{
    let ka = a[m].0;
    let kb = b[m].0;
    if key_lt(ka, kb) {
        assert(polls.contains_key(ka) && comes_after(start_after, ka));
        if has_key(b, ka) {
            let j = key_index(b, ka);
            if j < m {
                assert(a[j] == b[j]);
                assert(key_lt(a[j].0, a[m].0));
                lemma_key_lt_order(ka, ka, ka);
            } else if j > m {
                assert(key_lt(b[m].0, b[j].0));
                lemma_key_lt_order(ka, kb, ka);
            } else {
                lemma_key_lt_order(ka, ka, ka);
            }
        } else {
            let last = b.last().0;
            assert(key_lt(last, ka));
            if m < b.len() - 1 {
                assert(key_lt(b[m].0, b[b.len() - 1].0));
                lemma_key_lt_order(kb, last, ka);
            }
            lemma_key_lt_order(ka, kb, ka);
        }
    }
}

/// A listing is determined by the polls, the start and the limit: there
/// is one page and no other.
pub proof fn law_page_is_unique(
    polls: Map<Seq<char>, PollView>,
    start_after: Option<Seq<char>>,
    limit: Option<u32>,
    a: Seq<(Seq<char>, PollView)>,
    b: Seq<(Seq<char>, PollView)>,
)
    requires
        is_page(polls, start_after, limit, a),
        is_page(polls, start_after, limit, b),
    ensures
        a == b,
{
    let n = if a.len() <= b.len() {
        a.len() as int
    } else {
        b.len() as int
    };
    lemma_pages_agree(polls, start_after, limit, a, b, n);
    if a.len() < b.len() {
        lemma_page_is_full(polls, start_after, limit, a, b);
    } else if b.len() < a.len() {
        assert forall|i: int| 0 <= i < n implies b[i] == a[i] by {}
        lemma_page_is_full(polls, start_after, limit, b, a);
    }
    assert(a =~= b);
}

/// A listing that is the beginning of another is the whole of it.
proof fn lemma_page_is_full(
    polls: Map<Seq<char>, PollView>,
    start_after: Option<Seq<char>>,
    limit: Option<u32>,
    a: Seq<(Seq<char>, PollView)>,
    b: Seq<(Seq<char>, PollView)>,
)
    requires
        is_page(polls, start_after, limit, a),
        is_page(polls, start_after, limit, b),
        a.len() <= b.len(),
        forall|i: int| 0 <= i < a.len() ==> a[i] == b[i],
    ensures
        a.len() == b.len(),
{
    if a.len() < b.len() {
        let k = b[a.len() as int].0;
        assert(polls.contains_key(k) && comes_after(start_after, k));
        if has_key(a, k) {
            let j = key_index(a, k);
            assert(a[j] == b[j]);
            assert(key_lt(b[j].0, b[a.len() as int].0));
            lemma_key_lt_order(k, k, k);
        }
    }
}

} // verus!

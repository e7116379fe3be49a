//! How the counts on the polls relate to the ballots in the store: each
//! option's count is the number of ballots that name it.

use vstd::prelude::*;
use vstd::set_lib::{lemma_len_subset, lemma_set_empty_equivalency_len};
use crate::config::{BallotView, PollView, MAX_OPTIONS};
use crate::store::StoreView;

verus! {

/// The keys of the ballots on `poll_id`.
pub open spec fn ballots_for(
    ballots: Map<(Seq<char>, Seq<char>), BallotView>,
    poll_id: Seq<char>,
) -> Set<(Seq<char>, Seq<char>)> {
    Set::new(|k: (Seq<char>, Seq<char>)| ballots.contains_key(k) && k.0 == poll_id)
}

/// The keys of the ballots on `poll_id` that name `label`.
pub open spec fn ballots_naming(
    ballots: Map<(Seq<char>, Seq<char>), BallotView>,
    poll_id: Seq<char>,
    label: Seq<char>,
) -> Set<(Seq<char>, Seq<char>)> {
    Set::new(
        |k: (Seq<char>, Seq<char>)|
            ballots.contains_key(k) && k.0 == poll_id && ballots[k].option == label,
    )
}

/// The number of ballots on `poll_id`.
pub open spec fn turnout(
    ballots: Map<(Seq<char>, Seq<char>), BallotView>,
    poll_id: Seq<char>,
) -> nat {
    ballots_for(ballots, poll_id).len()
}

/// The number of ballots on `poll_id` that name `label`.
pub open spec fn tally(
    ballots: Map<(Seq<char>, Seq<char>), BallotView>,
    poll_id: Seq<char>,
    label: Seq<char>,
) -> nat {
    ballots_naming(ballots, poll_id, label).len()
}

/// Each option's count is the tally of its label, kept at the first
/// option that carries the label; a later option with the same label
/// stays at zero.
pub open spec fn counts_match(
    poll: PollView,
    ballots: Map<(Seq<char>, Seq<char>), BallotView>,
    poll_id: Seq<char>,
) -> bool {
    forall|i: int|
        0 <= i < poll.options.len() ==> (#[trigger] poll.options[i]).1 == (if poll.position(
            poll.options[i].0,
        ) == i {
            tally(ballots, poll_id, poll.options[i].0)
        } else {
            0
        })
}

/// The store is consistent: it holds finitely many records, each poll has
/// between one and ten options whose counts match the ballots, and each
/// ballot is on a poll of the store and names one of its options.
pub open spec fn consistent(s: StoreView) -> bool {
    &&& s.polls.dom().finite()
    &&& s.ballots.dom().finite()
    &&& forall|id: Seq<char>| #[trigger]
        s.polls.contains_key(id) ==> {
            &&& 1 <= s.polls[id].options.len() <= MAX_OPTIONS
            &&& counts_match(s.polls[id], s.ballots, id)
        }
    &&& forall|k: (Seq<char>, Seq<char>)| #[trigger]
        s.ballots.contains_key(k) ==> {
            &&& s.polls.contains_key(k.0)
            &&& s.polls[k.0].has_option(s.ballots[k].option)
        }
}

/// Tallies and turnout are counts of ballots of the store.
pub proof fn lemma_tally_bounds(
    ballots: Map<(Seq<char>, Seq<char>), BallotView>,
    poll_id: Seq<char>,
    label: Seq<char>,
)
    requires
        ballots.dom().finite(),
    ensures
        ballots_for(ballots, poll_id).finite(),
        ballots_naming(ballots, poll_id, label).finite(),
        tally(ballots, poll_id, label) <= turnout(ballots, poll_id) <= ballots.dom().len(),
{
    lemma_len_subset(ballots_for(ballots, poll_id), ballots.dom());
    lemma_len_subset(ballots_naming(ballots, poll_id, label), ballots_for(ballots, poll_id));
}

/// A ballot that exists is counted: in its poll's turnout, and in the
/// tally of the label it names and of no other.
pub proof fn lemma_tally_of_ballot(
    ballots: Map<(Seq<char>, Seq<char>), BallotView>,
    key: (Seq<char>, Seq<char>),
    label: Seq<char>,
)
    requires
        ballots.dom().finite(),
        ballots.contains_key(key),
    ensures
        turnout(ballots, key.0) >= 1,
        ballots[key].option == label ==> tally(ballots, key.0, label) >= 1,
        ballots[key].option != label ==> tally(ballots, key.0, label) < ballots.dom().len(),
{
    lemma_tally_bounds(ballots, key.0, label);
    let all = ballots_for(ballots, key.0);
    let named = ballots_naming(ballots, key.0, label);
    assert(all.contains(key));
    lemma_set_empty_equivalency_len(all);
    if ballots[key].option == label {
        assert(named.contains(key));
        lemma_set_empty_equivalency_len(named);
    } else {
        lemma_len_subset(named, ballots.dom().remove(key));
    }
}

/// Writing one ballot changes each tally by what the ballot named before
/// and what it names now.
pub proof fn lemma_tally_insert(
    ballots: Map<(Seq<char>, Seq<char>), BallotView>,
    key: (Seq<char>, Seq<char>),
    ballot: BallotView,
    poll_id: Seq<char>,
    label: Seq<char>,
)
    requires
        ballots.dom().finite(),
    ensures
        tally(ballots.insert(key, ballot), poll_id, label) == tally(ballots, poll_id, label) - (if ballots.contains_key(
            key,
        ) && key.0 == poll_id && ballots[key].option == label {
            1int
        } else {
            0
        }) + (if key.0 == poll_id && ballot.option == label {
            1int
        } else {
            0
        }),
        turnout(ballots.insert(key, ballot), poll_id) == turnout(ballots, poll_id) + (if key.0
            == poll_id && !ballots.contains_key(key) {
            1int
        } else {
            0
        }),
{
    lemma_tally_bounds(ballots, poll_id, label);
    let after = ballots.insert(key, ballot);
    let named = ballots_naming(ballots, poll_id, label);
    let all = ballots_for(ballots, poll_id);
    if key.0 == poll_id && ballot.option == label {
        assert(ballots_naming(after, poll_id, label) =~= named.insert(key));
    } else {
        assert(ballots_naming(after, poll_id, label) =~= named.remove(key));
    }
    if key.0 == poll_id {
        assert(ballots_for(after, poll_id) =~= all.insert(key));
    } else {
        assert(ballots_for(after, poll_id) =~= all);
    }
}

/// Removing one ballot lowers the tally of the label it named, and its
/// poll's turnout, by one.
pub proof fn lemma_tally_remove(
    ballots: Map<(Seq<char>, Seq<char>), BallotView>,
    key: (Seq<char>, Seq<char>),
    poll_id: Seq<char>,
    label: Seq<char>,
)
    requires
        ballots.dom().finite(),
    ensures
        tally(ballots.remove(key), poll_id, label) == tally(ballots, poll_id, label) - (if ballots.contains_key(
            key,
        ) && key.0 == poll_id && ballots[key].option == label {
            1int
        } else {
            0
        }),
        turnout(ballots.remove(key), poll_id) == turnout(ballots, poll_id) - (if key.0 == poll_id
            && ballots.contains_key(key) {
            1int
        } else {
            0
        }),
{
    lemma_tally_bounds(ballots, poll_id, label);
    let after = ballots.remove(key);
    assert(ballots_naming(after, poll_id, label) =~= ballots_naming(
        ballots,
        poll_id,
        label,
    ).remove(key));
    assert(ballots_for(after, poll_id) =~= ballots_for(ballots, poll_id).remove(key));
}

/// A poll without ballots has turnout and tallies zero.
pub proof fn lemma_tally_none(
    ballots: Map<(Seq<char>, Seq<char>), BallotView>,
    poll_id: Seq<char>,
    label: Seq<char>,
)
    requires
        forall|k: (Seq<char>, Seq<char>)| #[trigger] ballots.contains_key(k) ==> k.0 != poll_id,
    ensures
        turnout(ballots, poll_id) == 0,
        tally(ballots, poll_id, label) == 0,
{
    assert(ballots_for(ballots, poll_id) =~= Set::empty());
    assert(ballots_naming(ballots, poll_id, label) =~= Set::empty());
}

} // verus!

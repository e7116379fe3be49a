//! The ledger store and the typed records in it: one configuration, polls
//! by id in key order, and ballots by poll id and voter.

use vstd::prelude::*;
use crate::assoc::{
    as_map, distinct_keys, has_key, key_index, lemma_as_map_entry, lemma_as_map_finite,
    lemma_as_map_insert, lemma_as_map_remove, lemma_as_map_update,
};
use crate::config::{
    lemma_position, Ballot, BallotView, Config, ConfigView, Poll, PollView, MAX_OPTIONS,
};
use crate::error::ContractError;
use crate::keys::{key_is_less, key_is_same, key_lt, lemma_key_lt_order};
use crate::tally::{
    consistent, counts_match, lemma_tally_insert, lemma_tally_none, tally,
};

verus! {

/// What a store holds, as mathematical values.
pub struct StoreView {
    pub config: Option<ConfigView>,
    pub polls: Map<Seq<char>, PollView>,
    pub ballots: Map<(Seq<char>, Seq<char>), BallotView>,
}

impl StoreView {
    /// The store before anything was written.
    pub open spec fn empty() -> StoreView {
        StoreView { config: None, polls: Map::empty(), ballots: Map::empty() }
    }

    /// The ballots on one poll, by voter.
    pub open spec fn ballots_on(self, poll_id: Seq<char>) -> Map<Seq<char>, BallotView> {
        Map::new(
            |voter: Seq<char>| self.ballots.contains_key((poll_id, voter)),
            |voter: Seq<char>| self.ballots[(poll_id, voter)],
        )
    }
}

struct PollEntry {
    id: String,
    poll: Poll,
}

struct BallotEntry {
    poll_id: String,
    voter: String,
    ballot: Ballot,
}

/// The ledger store. Polls are kept in ascending key order, so no id
/// occurs twice; no pair of poll id and voter occurs twice among the
/// ballots.
pub struct Store {
    config: Option<Config>,
    polls: Vec<PollEntry>,
    ballots: Vec<BallotEntry>,
}

/// Keys in strictly ascending order.
pub open spec fn ascending<V>(s: Seq<(Seq<char>, V)>) -> bool {
    forall|i: int, j: int| 0 <= i < j < s.len() ==> key_lt((#[trigger] s[i]).0, (#[trigger] s[j]).0)
}

/// Keys in ascending order are pairwise distinct.
pub proof fn lemma_ascending_distinct<V>(s: Seq<(Seq<char>, V)>)
    requires
        ascending(s),
    ensures
        distinct_keys(s),
{
    assert forall|i: int, j: int| 0 <= i < j < s.len() implies (#[trigger] s[i]).0 != (
    #[trigger] s[j]).0 by {
        lemma_key_lt_order(s[i].0, s[j].0, s[j].0);
    }
}

/// Whether `key` lies behind the place from which a listing starts.
pub open spec fn comes_after(start_after: Option<Seq<char>>, key: Seq<char>) -> bool {
    match start_after {
        Some(s) => key_lt(s, key),
        None => true,
    }
}

/// Ids and polls of a listing, as mathematical values.
pub open spec fn poll_page(page: Seq<(String, Poll)>) -> Seq<(Seq<char>, PollView)> {
    Seq::new(page.len(), |i: int| (page[i].0@, page[i].1@))
}

/// Voters and ballots of a listing, as mathematical values.
pub open spec fn voter_page(page: Seq<(String, Ballot)>) -> Seq<(Seq<char>, BallotView)> {
    Seq::new(page.len(), |i: int| (page[i].0@, page[i].1@))
}

/// `page` is the listing of `polls` behind `start_after`, cut off at
/// `limit`: in key order, only polls of the store behind the start, and
/// with every such poll unless the limit was reached before it.
pub open spec fn is_page(
    polls: Map<Seq<char>, PollView>,
    start_after: Option<Seq<char>>,
    limit: Option<u32>,
    page: Seq<(Seq<char>, PollView)>,
) -> bool {
    &&& ascending(page)
    &&& forall|i: int|
        0 <= i < page.len() ==> {
            &&& polls.contains_key((#[trigger] page[i]).0)
            &&& polls[page[i].0] == page[i].1
            &&& comes_after(start_after, page[i].0)
        }
    &&& limit matches Some(n) ==> page.len() <= n
    &&& forall|k: Seq<char>|
        #[trigger] polls.contains_key(k) && comes_after(start_after, k) ==> {
            ||| has_key(page, k)
            ||| (limit matches Some(n) && page.len() == n && (page.len() > 0 ==> key_lt(
                page.last().0,
                k,
            )))
        }
}

impl Store {
    closed spec fn poll_pairs(&self) -> Seq<(Seq<char>, PollView)> {
        Seq::new(self.polls@.len(), |i: int| (self.polls@[i].id@, self.polls@[i].poll@))
    }

    closed spec fn ballot_pairs(&self) -> Seq<((Seq<char>, Seq<char>), BallotView)> {
        Seq::new(
            self.ballots@.len(),
            |i: int| ((self.ballots@[i].poll_id@, self.ballots@[i].voter@), self.ballots@[i].ballot@),
        )
    }

    /// The store is well formed: its polls are in key order and no ballot
    /// key occurs twice.
    pub closed spec fn wf(&self) -> bool {
        &&& ascending(self.poll_pairs())
        &&& distinct_keys(self.ballot_pairs())
    }

    /// What the store holds.
    pub closed spec fn model(&self) -> StoreView {
        StoreView {
            config: match self.config {
                Some(c) => Some(c@),
                None => None,
            },
            polls: as_map(self.poll_pairs()),
            ballots: as_map(self.ballot_pairs()),
        }
    }

    /// A well-formed store holds finitely many polls and ballots, no more
    /// of either than the machine can count.
    pub proof fn lemma_finite(&self)
        requires
            self.wf(),
        ensures
            self@.polls.dom().finite(),
            self@.ballots.dom().finite(),
            self@.polls.dom().len() <= usize::MAX,
            self@.ballots.dom().len() <= usize::MAX,
    {
        lemma_ascending_distinct(self.poll_pairs());
        lemma_as_map_finite(self.poll_pairs());
        lemma_as_map_finite(self.ballot_pairs());
        vstd::std_specs::vec::axiom_spec_len(&self.polls);
        vstd::std_specs::vec::axiom_spec_len(&self.ballots);
    }

    /// An empty store.
    pub fn new() -> (s: Store)
        ensures
            s.wf(),
            s@ == StoreView::empty(),
            consistent(s@),
    {
        let s = Store { config: None, polls: Vec::new(), ballots: Vec::new() };
        assert(s@.polls =~= Map::empty());
        assert(s@.ballots =~= Map::empty());
        s
    }

    /// The configuration; `NotFound` before one was saved.
    pub fn load_config(&self) -> (r: Result<Config, ContractError>)
        ensures
            match self@.config {
                Some(c) => r is Ok && r->Ok_0@ == c,
                None => r == Err::<Config, ContractError>(ContractError::NotFound),
            },
    {
        match &self.config {
            Some(c) => Ok(c.clone()),
            None => Err(ContractError::NotFound),
        }
    }

    /// Writes the configuration, replacing an earlier one.
    pub fn save_config(&mut self, config: Config)
        requires
            old(self).wf(),
        ensures
            final(self).wf(),
            final(self)@ == (StoreView { config: Some(config@), ..old(self)@ }),
    {
        self.config = Some(config);
    }

    /// Where `id` stands or would stand among the polls, and whether it is
    /// there.
    fn find_poll(&self, id: &str) -> (r: (usize, bool))
        requires
            self.wf(),
        ensures
            r.0 <= self.polls@.len(),
            forall|j: int| 0 <= j < r.0 ==> key_lt(self.polls@[j].id@, id@),
            r.1 ==> r.0 < self.polls@.len() && self.polls@[r.0 as int].id@ == id@,
            !r.1 && r.0 < self.polls@.len() ==> key_lt(id@, self.polls@[r.0 as int].id@),
            r.1 == has_key(self.poll_pairs(), id@),
            r.1 == self@.polls.contains_key(id@),
    {
        let mut i: usize = 0;
        let mut found = false;
        while i < self.polls.len()
            invariant_except_break
                !found,
            invariant
                i <= self.polls@.len(),
                forall|j: int| 0 <= j < i ==> key_lt(self.polls@[j].id@, id@),
            ensures
                found ==> i < self.polls@.len() && self.polls@[i as int].id@ == id@,
                !found && i < self.polls@.len() ==> key_lt(id@, self.polls@[i as int].id@),
            decreases self.polls@.len() - i,
        {
            if key_is_less(self.polls[i].id.as_str(), id) {
                i += 1;
            } else {
                found = key_is_same(self.polls[i].id.as_str(), id);
                proof {
                    lemma_key_lt_order(self.polls@[i as int].id@, id@, id@);
                }
                break ;
            }
        }
        proof {
            let pairs = self.poll_pairs();
            if found {
                assert(pairs[i as int].0 == id@);
            } else {
                assert forall|j: int| 0 <= j < pairs.len() implies (#[trigger] pairs[j]).0
                    != id@ by {
                    lemma_key_lt_order(pairs[j].0, id@, id@);
                    if j > i {
                        assert(key_lt(pairs[i as int].0, pairs[j].0));
                        lemma_key_lt_order(id@, pairs[i as int].0, pairs[j].0);
                    }
                    lemma_key_lt_order(id@, pairs[j].0, pairs[j].0);
                }
            }
        }
        (i, found)
    }

    /// Whether a poll with this id exists.
    pub fn has_poll(&self, id: &str) -> (r: bool)
        requires
            self.wf(),
        ensures
            r == self@.polls.contains_key(id@),
    {
        self.find_poll(id).1
    }

    /// The poll with this id; `PollNotFound` where there is none.
    pub fn load_poll(&self, id: &str) -> (r: Result<Poll, ContractError>)
        requires
            self.wf(),
        ensures
            self@.polls.contains_key(id@) ==> r is Ok && r->Ok_0@ == self@.polls[id@],
            !self@.polls.contains_key(id@) ==> r == Err::<Poll, ContractError>(
                ContractError::PollNotFound,
            ),
    {
        let (i, found) = self.find_poll(id);
        if found {
            proof {
                lemma_ascending_distinct(self.poll_pairs());
                lemma_as_map_entry(self.poll_pairs(), i as int);
            }
            Ok(self.polls[i].poll.clone())
        } else {
            Err(ContractError::PollNotFound)
        }
    }

    /// Writes a poll under `id`, replacing the poll that was there.
    pub fn save_poll(&mut self, id: String, poll: Poll)
        requires
            old(self).wf(),
        ensures
            final(self).wf(),
            final(self)@ == (StoreView {
                polls: old(self)@.polls.insert(id@, poll@),
                ..old(self)@
            }),
    {
        let (i, found) = self.find_poll(id.as_str());
        let ghost before = self.poll_pairs();
        let ghost pair = (id@, poll@);
        proof {
            lemma_ascending_distinct(before);
        }
        if found {
            self.polls.set(i, PollEntry { id, poll });
            proof {
                assert(self.poll_pairs() =~= before.update(i as int, pair));
                lemma_as_map_update(before, i as int, pair.1);
                assert forall|a: int, b: int| 0 <= a < b < self.poll_pairs().len() implies key_lt(
                    (#[trigger] self.poll_pairs()[a]).0,
                    (#[trigger] self.poll_pairs()[b]).0,
                ) by {
                    assert(self.poll_pairs()[a].0 == before[a].0);
                    assert(self.poll_pairs()[b].0 == before[b].0);
                }
            }
        } else {
            self.polls.insert(i, PollEntry { id, poll });
            proof {
                let after = self.poll_pairs();
                assert(after =~= before.insert(i as int, pair));
                lemma_as_map_insert(before, i as int, pair.0, pair.1);
                assert forall|a: int, b: int| 0 <= a < b < after.len() implies key_lt(
                    (#[trigger] after[a]).0,
                    (#[trigger] after[b]).0,
                ) by {
                    let a0 = if a < i {
                        a
                    } else {
                        a - 1
                    };
                    let b0 = if b < i {
                        b
                    } else {
                        b - 1
                    };
                    if a == i {
                        assert(after[b] == before[b0]);
                        if b0 > i {
                            assert(key_lt(before[i as int].0, before[b0].0));
                            lemma_key_lt_order(pair.0, before[i as int].0, before[b0].0);
                        }
                    } else if b == i {
                        assert(after[a] == before[a0]);
                    } else {
                        assert(after[a] == before[a0]);
                        assert(after[b] == before[b0]);
                        if a0 < b0 {
                            assert(key_lt(before[a0].0, before[b0].0));
                        }
                    }
                }
            }
        }
    }

    /// Takes the poll with this id out of the store, if there is one. Its
    /// ballots stay.
    pub fn remove_poll(&mut self, id: &str)
        requires
            old(self).wf(),
        ensures
            final(self).wf(),
            final(self)@ == (StoreView { polls: old(self)@.polls.remove(id@), ..old(self)@ }),
    {
        let (i, found) = self.find_poll(id);
        let ghost before = self.poll_pairs();
        proof {
            lemma_ascending_distinct(before);
        }
        if found {
            self.polls.remove(i);
            proof {
                let after = self.poll_pairs();
                assert(after =~= before.remove(i as int));
                lemma_as_map_remove(before, i as int);
                assert forall|a: int, b: int| 0 <= a < b < after.len() implies key_lt(
                    (#[trigger] after[a]).0,
                    (#[trigger] after[b]).0,
                ) by {
                    let a0 = if a < i {
                        a
                    } else {
                        a + 1
                    };
                    let b0 = if b < i {
                        b
                    } else {
                        b + 1
                    };
                    assert(after[a] == before[a0]);
                    assert(after[b] == before[b0]);
                    assert(key_lt(before[a0].0, before[b0].0));
                }
            }
        } else {
            assert(self@.polls =~= self@.polls.remove(id@));
        }
    }

    /// Where the ballot of `voter` on `poll_id` stands, if there is one.
    fn find_ballot(&self, poll_id: &str, voter: &str) -> (r: Option<usize>)
        requires
            self.wf(),
        ensures
            r matches Some(i) ==> i < self.ballots@.len() && self.ballots@[i as int].poll_id@
                == poll_id@ && self.ballots@[i as int].voter@ == voter@,
            (r is Some) == has_key(self.ballot_pairs(), (poll_id@, voter@)),
            (r is Some) == self@.ballots.contains_key((poll_id@, voter@)),
    {
        let mut i: usize = 0;
        while i < self.ballots.len()
            invariant
                i <= self.ballots@.len(),
                forall|j: int|
                    0 <= j < i ==> !(self.ballots@[j].poll_id@ == poll_id@ && self.ballots@[j].voter@
                        == voter@),
            decreases self.ballots@.len() - i,
        {
            if key_is_same(self.ballots[i].poll_id.as_str(), poll_id) && key_is_same(
                self.ballots[i].voter.as_str(),
                voter,
            ) {
                assert(self.ballot_pairs()[i as int].0 == (poll_id@, voter@));
                return Some(i);
            }
            i += 1;
        }
        assert forall|j: int| 0 <= j < self.ballot_pairs().len() implies (
        #[trigger] self.ballot_pairs()[j]).0 != (poll_id@, voter@) by {}
        None
    }

    /// The number of ballots in the store.
    pub fn ballot_count(&self) -> (n: usize)
        requires
            self.wf(),
        ensures
            n == self@.ballots.dom().len(),
    {
        proof {
            lemma_as_map_finite(self.ballot_pairs());
        }
        self.ballots.len()
    }

    /// The ballot of `voter` on `poll_id`; `None` where the voter has not
    /// voted.
    pub fn load_ballot(&self, poll_id: &str, voter: &str) -> (r: Option<Ballot>)
        requires
            self.wf(),
        ensures
            self@.ballots.contains_key((poll_id@, voter@)) ==> r is Some && r->Some_0@
                == self@.ballots[(poll_id@, voter@)],
            !self@.ballots.contains_key((poll_id@, voter@)) ==> r is None,
    {
        match self.find_ballot(poll_id, voter) {
            Some(i) => {
                proof {
                    lemma_as_map_entry(self.ballot_pairs(), i as int);
                }
                Some(self.ballots[i].ballot.clone())
            },
            None => None,
        }
    }

    /// Writes the ballot of `voter` on `poll_id`, replacing an earlier one.
    pub fn save_ballot(&mut self, poll_id: String, voter: String, ballot: Ballot)
        requires
            old(self).wf(),
        ensures
            final(self).wf(),
            final(self)@ == (StoreView {
                ballots: old(self)@.ballots.insert((poll_id@, voter@), ballot@),
                ..old(self)@
            }),
    {
        let found = self.find_ballot(poll_id.as_str(), voter.as_str());
        let ghost before = self.ballot_pairs();
        let ghost key = (poll_id@, voter@);
        let ghost value = ballot@;
        match found {
            Some(i) => {
                self.ballots.set(i, BallotEntry { poll_id, voter, ballot });
                proof {
                    assert(self.ballot_pairs() =~= before.update(i as int, (key, value)));
                    lemma_as_map_update(before, i as int, value);
                }
            },
            None => {
                let ghost n = self.ballots@.len() as int;
                self.ballots.push(BallotEntry { poll_id, voter, ballot });
                proof {
                    assert(self.ballot_pairs() =~= before.insert(n, (key, value)));
                    lemma_as_map_insert(before, n, key, value);
                }
            },
        }
    }

    /// Takes the ballot of `voter` on `poll_id` out of the store, if there
    /// is one.
    pub fn remove_ballot(&mut self, poll_id: &str, voter: &str)
        requires
            old(self).wf(),
        ensures
            final(self).wf(),
            final(self)@ == (StoreView {
                ballots: old(self)@.ballots.remove((poll_id@, voter@)),
                ..old(self)@
            }),
    {
        let found = self.find_ballot(poll_id, voter);
        let ghost before = self.ballot_pairs();
        match found {
            Some(i) => {
                self.ballots.remove(i);
                proof {
                    assert(self.ballot_pairs() =~= before.remove(i as int));
                    lemma_as_map_remove(before, i as int);
                }
            },
            None => {
                assert(self@.ballots =~= self@.ballots.remove((poll_id@, voter@)));
            },
        }
    }

    /// The ballots on one poll, each with its voter, every voter once. The
    /// order is that of the store.
    pub fn list_ballots_for_poll(&self, poll_id: &str) -> (page: Vec<(String, Ballot)>)
        requires
            self.wf(),
        ensures
            distinct_keys(voter_page(page@)),
            as_map(voter_page(page@)) == self@.ballots_on(poll_id@),
    {
        let mut page: Vec<(String, Ballot)> = Vec::new();
        let ghost mut src: Seq<int> = Seq::empty();
        let mut i: usize = 0;
        while i < self.ballots.len()
            invariant
                i <= self.ballots@.len(),
                src.len() == page@.len(),
                forall|j: int| 0 <= j < src.len() ==> 0 <= #[trigger] src[j] < i,
                forall|j: int, k: int| 0 <= j < k < src.len() ==> src[j] < src[k],
                forall|j: int|
                    0 <= j < src.len() ==> {
                        &&& self.ballots@[#[trigger] src[j]].poll_id@ == poll_id@
                        &&& self.ballots@[src[j]].voter@ == page@[j].0@
                        &&& self.ballots@[src[j]].ballot@ == page@[j].1@
                    },
                forall|k: int|
                    0 <= k < i && (#[trigger] self.ballots@[k]).poll_id@ == poll_id@ ==> exists|
                        j: int,
                    |
                        0 <= j < src.len() && #[trigger] src[j] == k,
            decreases self.ballots@.len() - i,
        {
            if key_is_same(self.ballots[i].poll_id.as_str(), poll_id) {
                page.push((self.ballots[i].voter.clone(), self.ballots[i].ballot.clone()));
                proof {
                    let ghost prev = src;
                    src = src.push(i as int);
                    assert forall|k: int|
                        0 <= k < i + 1 && (#[trigger] self.ballots@[k]).poll_id@
                            == poll_id@ implies exists|j: int|
                        0 <= j < src.len() && #[trigger] src[j] == k by {
                        if k < i {
                            let j = choose|j: int| 0 <= j < prev.len() && #[trigger] prev[j] == k;
                            assert(src[j] == k);
                        } else {
                            assert(src[src.len() - 1] == k);
                        }
                    }
                }
            }
            i += 1;
        }
        proof {
            let pairs = self.ballot_pairs();
            let out = voter_page(page@);
            assert forall|a: int, b: int| 0 <= a < b < out.len() implies (#[trigger] out[a]).0 != (
            #[trigger] out[b]).0 by {
                assert(src[a] < src[b]);
                assert(pairs[src[a]].0 != pairs[src[b]].0);
            }
            let want = self@.ballots_on(poll_id@);
            assert forall|v: Seq<char>| #[trigger] as_map(out).contains_key(v) <==> want.contains_key(
                v,
            ) by {
                if has_key(out, v) {
                    let j = key_index(out, v);
                    assert(pairs[src[j]].0 == (poll_id@, v));
                }
                if has_key(pairs, (poll_id@, v)) {
                    let k = key_index(pairs, (poll_id@, v));
                    assert(self.ballots@[k].poll_id@ == poll_id@);
                    let j = choose|j: int| 0 <= j < src.len() && #[trigger] src[j] == k;
                    assert(out[j].0 == v);
                }
            }
            assert forall|v: Seq<char>| #[trigger] as_map(out).contains_key(v) implies as_map(
                out,
            )[v] == want[v] by {
                let j = key_index(out, v);
                lemma_as_map_entry(out, j);
                assert(pairs[src[j]].0 == (poll_id@, v));
                lemma_as_map_entry(pairs, src[j]);
            }
            assert(as_map(out) =~= want);
        }
        page
    }

    /// Decides `comes_after`.
    fn is_after(start_after: &Option<String>, key: &str) -> (r: bool)
        ensures
            r == comes_after(
                match start_after {
                    Some(s) => Some(s@),
                    None => None,
                },
                key@,
            ),
    {
        match start_after {
            Some(s) => key_is_less(s.as_str(), key),
            None => true,
        }
    }

    /// Whether a listing of `n` entries may grow under `limit`.
    fn has_room(limit: Option<u32>, n: usize) -> (r: bool)
        ensures
            r == (limit matches Some(m) ==> n < m),
    {
        match limit {
            Some(m) => n < m as usize,
            None => true,
        }
    }

    /// The polls behind `start_after` in key order, at most `limit` of
    /// them where a limit is given.
    pub fn list_polls(&self, start_after: &Option<String>, limit: Option<u32>) -> (page: Vec<
        (String, Poll),
    >)
        requires
            self.wf(),
        ensures
            is_page(
                self@.polls,
                match start_after {
                    Some(s) => Some(s@),
                    None => None,
                },
                limit,
                poll_page(page@),
            ),
    {
        let ghost start: Option<Seq<char>> = match start_after {
            Some(s) => Some(s@),
            None => None,
        };
        let ghost pairs = self.poll_pairs();
        let mut i: usize = 0;
        while i < self.polls.len() && !Self::is_after(start_after, self.polls[i].id.as_str())
            invariant
                i <= self.polls@.len(),
                start == match start_after {
                    Some(s) => Some(s@),
                    None => None,
                },
                forall|j: int| 0 <= j < i ==> !comes_after(start, self.polls@[j].id@),
            decreases self.polls@.len() - i,
        {
            i += 1;
        }
        let lo = i;
        let mut page: Vec<(String, Poll)> = Vec::new();
        while i < self.polls.len() && Self::has_room(limit, page.len())
            invariant
                lo <= i <= self.polls@.len(),
                page@.len() == i - lo,
                limit matches Some(n) ==> page@.len() <= n,
                forall|j: int|
                    0 <= j < page@.len() ==> (#[trigger] page@[j]).0@ == self.polls@[lo + j].id@
                        && page@[j].1@ == self.polls@[lo + j].poll@,
            decreases self.polls@.len() - i,
        {
            page.push((self.polls[i].id.clone(), self.polls[i].poll.clone()));
            i += 1;
        }
        proof {
            let out = poll_page(page@);
            lemma_ascending_distinct(pairs);
            assert forall|j: int| 0 <= j < out.len() implies (#[trigger] out[j]) == pairs[lo + j] by {}
            assert forall|j: int| lo <= j < pairs.len() implies comes_after(
                start,
                (#[trigger] pairs[j]).0,
            ) by {
                if start is Some {
                    assert(comes_after(start, pairs[lo as int].0));
                    if j > lo {
                        assert(key_lt(pairs[lo as int].0, pairs[j].0));
                        lemma_key_lt_order(start->Some_0, pairs[lo as int].0, pairs[j].0);
                    }
                }
            }
            assert forall|a: int, b: int| 0 <= a < b < out.len() implies key_lt(
                (#[trigger] out[a]).0,
                (#[trigger] out[b]).0,
            ) by {
                assert(key_lt(pairs[lo + a].0, pairs[lo + b].0));
            }
            assert forall|j: int| 0 <= j < out.len() implies {
                &&& self@.polls.contains_key((#[trigger] out[j]).0)
                &&& self@.polls[out[j].0] == out[j].1
                &&& comes_after(start, out[j].0)
            } by {
                lemma_as_map_entry(pairs, lo + j);
            }
            assert forall|k: Seq<char>|
                #[trigger] self@.polls.contains_key(k) && comes_after(start, k) implies {
                ||| has_key(out, k)
                ||| (limit matches Some(n) && out.len() == n && (out.len() > 0 ==> key_lt(
                    out.last().0,
                    k,
                )))
            } by {
                let m = key_index(pairs, k);
                assert(pairs[m].0 == k);
                if m < lo {
                    assert(!comes_after(start, self.polls@[m].id@));
                } else if m < i {
                    assert(out[m - lo].0 == k);
                } else {
                    if out.len() > 0 {
                        assert(out.last() == pairs[i - 1]);
                        assert(key_lt(pairs[i - 1].0, pairs[m].0));
                    }
                }
            }
        }
        page
    }

    /// The number of ballots on `poll_id` that name `label`.
    fn count_ballots(&self, poll_id: &str, label: &str) -> (n: usize)
        requires
            self.wf(),
        ensures
            n == tally(self@.ballots, poll_id@, label@),
    {
        let ghost pairs = self.ballot_pairs();
        let mut n: usize = 0;
        let mut j: usize = 0;
        proof {
            assert(as_map(pairs.take(0)).dom() =~= Set::empty());
            lemma_tally_none(as_map(pairs.take(0)), poll_id@, label@);
        }
        while j < self.ballots.len()
            invariant
                j <= self.ballots@.len(),
                n <= j,
                self.wf(),
                pairs == self.ballot_pairs(),
                n == tally(as_map(pairs.take(j as int)), poll_id@, label@),
            decreases self.ballots@.len() - j,
        {
            proof {
                let seen = pairs.take(j as int);
                let next = pairs.take(j + 1);
                assert(next =~= seen.insert(j as int, pairs[j as int]));
                assert(distinct_keys(seen)) by {
                    assert forall|a: int, b: int| 0 <= a < b < seen.len() implies (
                    #[trigger] seen[a]).0 != (#[trigger] seen[b]).0 by {
                        assert(pairs[a].0 != pairs[b].0);
                    }
                }
                assert(!has_key(seen, pairs[j as int].0)) by {
                    assert forall|a: int| 0 <= a < seen.len() implies (#[trigger] seen[a]).0
                        != pairs[j as int].0 by {
                        assert(pairs[a].0 != pairs[j as int].0);
                    }
                }
                lemma_as_map_insert(seen, j as int, pairs[j as int].0, pairs[j as int].1);
                lemma_as_map_finite(seen);
                lemma_tally_insert(
                    as_map(seen),
                    pairs[j as int].0,
                    pairs[j as int].1,
                    poll_id@,
                    label@,
                );
            }
            if key_is_same(self.ballots[j].poll_id.as_str(), poll_id) && key_is_same(
                self.ballots[j].ballot.option.as_str(),
                label,
            ) {
                n += 1;
            }
            j += 1;
        }
        assert(pairs.take(j as int) =~= pairs);
        n
    }

    /// Whether every ballot is on a poll of the store and names one of its
    /// options.
    fn ballots_in_order(&self) -> (r: bool)
        requires
            self.wf(),
        ensures
            r == (forall|k: (Seq<char>, Seq<char>)| #[trigger]
                self@.ballots.contains_key(k) ==> {
                    &&& self@.polls.contains_key(k.0)
                    &&& self@.polls[k.0].has_option(self@.ballots[k].option)
                }),
    {
        let ghost pairs = self.ballot_pairs();
        let mut j: usize = 0;
        while j < self.ballots.len()
            invariant
                j <= self.ballots@.len(),
                self.wf(),
                pairs == self.ballot_pairs(),
                forall|a: int|
                    0 <= a < j ==> {
                        &&& self@.polls.contains_key((#[trigger] pairs[a]).0.0)
                        &&& self@.polls[pairs[a].0.0].has_option(pairs[a].1.option)
                    },
            decreases self.ballots@.len() - j,
        {
            proof {
                lemma_as_map_entry(pairs, j as int);
            }
            assert(pairs[j as int].0.0 == self.ballots@[j as int].poll_id@);
            assert(pairs[j as int].1.option == self.ballots@[j as int].ballot.option@);
            match self.load_poll(self.ballots[j].poll_id.as_str()) {
                Ok(poll) => {
                    if poll.find_option(self.ballots[j].ballot.option.as_str()).is_none() {
                        assert(self@.ballots.contains_key(pairs[j as int].0));
                        return false;
                    }
                },
                Err(_) => {
                    assert(self@.ballots.contains_key(pairs[j as int].0));
                    return false;
                },
            }
            j += 1;
        }
        proof {
            assert forall|k: (Seq<char>, Seq<char>)| #[trigger]
                self@.ballots.contains_key(k) implies {
                &&& self@.polls.contains_key(k.0)
                &&& self@.polls[k.0].has_option(self@.ballots[k].option)
            } by {
                let a = key_index(pairs, k);
                lemma_as_map_entry(pairs, a);
            }
        }
        true
    }

    /// Whether the poll at index `p` has between one and ten options and
    /// counts that match the ballots.
    fn poll_in_order(&self, p: usize) -> (r: bool)
        requires
            self.wf(),
            p < self.polls@.len(),
        ensures
            r == ({
                &&& 1 <= self.polls@[p as int].poll@.options.len() <= MAX_OPTIONS
                &&& counts_match(self.polls@[p as int].poll@, self@.ballots, self.polls@[p as int].id@)
            }),
    {
        let poll = &self.polls[p].poll;
        let id = self.polls[p].id.as_str();
        let count = poll.options.len();
        if count < 1 || count > MAX_OPTIONS {
            return false;
        }
        let mut i: usize = 0;
        while i < count
            invariant
                i <= count,
                p < self.polls@.len(),
                *poll == self.polls@[p as int].poll,
                id@ == self.polls@[p as int].id@,
                count == poll.options@.len(),
                count == poll@.options.len(),
                1 <= count <= MAX_OPTIONS,
                self.wf(),
                forall|a: int|
                    0 <= a < i ==> (#[trigger] poll@.options[a]).1 == (if poll@.position(
                        poll@.options[a].0,
                    ) == a {
                        tally(self@.ballots, id@, poll@.options[a].0)
                    } else {
                        0
                    }),
            decreases count - i,
        {
            let label = poll.options[i].0.as_str();
            assert(poll@.options[i as int].0 == label@);
            assert(poll@.options[i as int].1 == poll.options@[i as int].1);
            let first = match poll.find_option(label) {
                Some(at) => at == i,
                None => false,
            };
            let expected: usize = if first {
                self.count_ballots(id, label)
            } else {
                0
            };
            proof {
                lemma_position(poll@, label@);
            }
            if poll.options[i].1 != expected as u64 {
                assert((#[trigger] poll@.options[i as int]).1 != (if poll@.position(
                    poll@.options[i as int].0,
                ) == i {
                    tally(self@.ballots, id@, poll@.options[i as int].0)
                } else {
                    0
                }));
                return false;
            }
            i += 1;
        }
        true
    }

    /// Whether the store is consistent.
    pub fn is_consistent(&self) -> (r: bool)
        requires
            self.wf(),
        ensures
            r == consistent(self@),
    {
        proof {
            self.lemma_finite();
            lemma_ascending_distinct(self.poll_pairs());
        }
        if !self.ballots_in_order() {
            return false;
        }
        let ghost pairs = self.poll_pairs();
        let mut p: usize = 0;
        while p < self.polls.len()
            invariant
                p <= self.polls@.len(),
                self.wf(),
                pairs == self.poll_pairs(),
                distinct_keys(pairs),
                forall|a: int|
                    0 <= a < p ==> {
                        &&& 1 <= (#[trigger] pairs[a]).1.options.len() <= MAX_OPTIONS
                        &&& counts_match(pairs[a].1, self@.ballots, pairs[a].0)
                    },
            decreases self.polls@.len() - p,
        {
            if !self.poll_in_order(p) {
                proof {
                    lemma_as_map_entry(pairs, p as int);
                    assert(self@.polls.contains_key(pairs[p as int].0));
                }
                return false;
            }
            assert(pairs[p as int] == (self.polls@[p as int].id@, self.polls@[p as int].poll@));
            p += 1;
        }
        proof {
            assert forall|id: Seq<char>| #[trigger] self@.polls.contains_key(id) implies {
                &&& 1 <= self@.polls[id].options.len() <= MAX_OPTIONS
                &&& counts_match(self@.polls[id], self@.ballots, id)
            } by {
                let a = key_index(pairs, id);
                lemma_as_map_entry(pairs, a);
            }
        }
        true
    }
}

impl View for Store {
    type V = StoreView;

    open spec fn view(&self) -> StoreView {
        self.model()
    }
}

} // verus!

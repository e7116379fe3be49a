//! The three kinds of record that the contract keeps, and what each one
//! means: a configuration, polls with their running counts, and ballots.

use vstd::prelude::*;
use crate::keys::key_is_same;

verus! {

/// The most options that a poll may have.
pub const MAX_OPTIONS: usize = 10;

/// The singleton configuration record.
#[derive(Debug, PartialEq)]
pub struct Config {
    pub admin: String,
}

/// A poll: who created it, what it asks, and each option's label with the
/// number of votes it currently has.
#[derive(Debug, PartialEq)]
pub struct Poll {
    pub creator: String,
    pub question: String,
    pub options: Vec<(String, u64)>,
}

/// A voter's ballot on one poll: the label chosen last.
#[derive(Debug, PartialEq)]
pub struct Ballot {
    pub option: String,
}

pub struct ConfigView {
    pub admin: Seq<char>,
}

pub struct PollView {
    pub creator: Seq<char>,
    pub question: Seq<char>,
    pub options: Seq<(Seq<char>, nat)>,
}

pub struct BallotView {
    pub option: Seq<char>,
}

impl View for Config {
    type V = ConfigView;

    open spec fn view(&self) -> ConfigView {
        ConfigView { admin: self.admin@ }
    }
}

impl View for Ballot {
    type V = BallotView;

    open spec fn view(&self) -> BallotView {
        BallotView { option: self.option@ }
    }
}

/// Labels and counts of a list of options, as mathematical values.
pub open spec fn options_view(options: Seq<(String, u64)>) -> Seq<(Seq<char>, nat)> {
    Seq::new(options.len(), |i: int| (options[i].0@, options[i].1 as nat))
}

impl View for Poll {
    type V = PollView;

    open spec fn view(&self) -> PollView {
        PollView {
            creator: self.creator@,
            question: self.question@,
            options: options_view(self.options@),
        }
    }
}

/// A list of labels as mathematical values.
pub open spec fn labels_view(labels: Seq<String>) -> Seq<Seq<char>> {
    Seq::new(labels.len(), |i: int| labels[i]@)
}

/// The first index at or after `from` whose label is `label`, or the
/// number of options where there is none.
pub open spec fn first_match(options: Seq<(Seq<char>, nat)>, label: Seq<char>, from: int) -> int
    decreases options.len() - from,
{
    if from < 0 || from >= options.len() {
        options.len() as int
    } else if options[from].0 == label {
        from
    } else {
        first_match(options, label, from + 1)
    }
}

/// The sum of the counts of the first `n` options.
pub open spec fn count_sum(options: Seq<(Seq<char>, nat)>, n: int) -> nat
    decreases n,
{
    if n <= 0 || n > options.len() {
        0
    } else {
        count_sum(options, n - 1) + options[n - 1].1
    }
}

impl PollView {
    /// A new poll: the given labels in their order, none with a vote.
    pub open spec fn fresh(creator: Seq<char>, question: Seq<char>, labels: Seq<Seq<char>>) -> PollView {
        PollView { creator, question, options: Seq::new(labels.len(), |i: int| (labels[i], 0nat)) }
    }

    /// The labels of the options, in their order.
    pub open spec fn labels(self) -> Seq<Seq<char>> {
        Seq::new(self.options.len(), |i: int| self.options[i].0)
    }

    /// Whether some option carries `label`.
    pub open spec fn has_option(self, label: Seq<char>) -> bool {
        exists|i: int| 0 <= i < self.options.len() && (#[trigger] self.options[i]).0 == label
    }

    /// Where votes for `label` are counted: at the first option that
    /// carries the label. Equals the number of options where none does.
    pub open spec fn position(self, label: Seq<char>) -> int {
        first_match(self.options, label, 0)
    }

    /// The number of votes that `label` has; zero for a label that is not
    /// on the poll.
    pub open spec fn vote_count(self, label: Seq<char>) -> nat {
        if self.position(label) < self.options.len() {
            self.options[self.position(label)].1
        } else {
            0
        }
    }

    /// The number of votes on the poll, all options together.
    pub open spec fn total_votes(self) -> nat {
        count_sum(self.options, self.options.len() as int)
    }

    /// The poll after one more vote for `label`.
    pub open spec fn with_vote(self, label: Seq<char>) -> PollView {
        let p = self.position(label);
        if p < self.options.len() {
            PollView { options: self.options.update(p, (label, self.options[p].1 + 1)), ..self }
        } else {
            self
        }
    }

    /// The poll after one vote for `label` is taken back.
    pub open spec fn without_vote(self, label: Seq<char>) -> PollView {
        let p = self.position(label);
        if p < self.options.len() && self.options[p].1 > 0 {
            PollView {
                options: self.options.update(p, (label, (self.options[p].1 - 1) as nat)),
                ..self
            }
        } else {
            self
        }
    }
}

/// What `first_match` finds: nothing before it carries the label, and it
/// carries the label itself unless it is the number of options.
pub proof fn lemma_first_match(options: Seq<(Seq<char>, nat)>, label: Seq<char>, from: int)
    requires
        0 <= from <= options.len(),
    ensures
        from <= first_match(options, label, from) <= options.len(),
        forall|j: int|
            from <= j < first_match(options, label, from) ==> (#[trigger] options[j]).0 != label,
        first_match(options, label, from) < options.len() ==> options[first_match(
            options,
            label,
            from,
        )].0 == label,
    decreases options.len() - from,
{
    if from < options.len() && options[from].0 != label {
        lemma_first_match(options, label, from + 1);
    }
}

/// Two lists of options with the same labels find a label at the same
/// place.
pub proof fn lemma_first_match_labels(
    a: Seq<(Seq<char>, nat)>,
    b: Seq<(Seq<char>, nat)>,
    label: Seq<char>,
    from: int,
)
    requires
        a.len() == b.len(),
        forall|i: int| 0 <= i < a.len() ==> (#[trigger] a[i]).0 == b[i].0,
    ensures
        first_match(a, label, from) == first_match(b, label, from),
    decreases a.len() - from,
{
    if 0 <= from < a.len() && a[from].0 != label {
        lemma_first_match_labels(a, b, label, from + 1);
    }
}

/// Changing counts leaves every label where it was: two polls with the
/// same labels have the same positions and the same options to choose.
pub proof fn lemma_same_labels(a: PollView, b: PollView)
    requires
        a.options.len() == b.options.len(),
        forall|i: int| 0 <= i < a.options.len() ==> (#[trigger] a.options[i]).0 == b.options[i].0,
    ensures
        forall|label: Seq<char>| #[trigger] a.position(label) == b.position(label),
        forall|label: Seq<char>| #[trigger] a.has_option(label) == b.has_option(label),
{
    assert forall|label: Seq<char>| #[trigger] a.position(label) == b.position(label) by {
        lemma_first_match_labels(a.options, b.options, label, 0);
    }
    assert forall|label: Seq<char>| #[trigger] a.has_option(label) == b.has_option(label) by {
        lemma_first_match_labels(a.options, b.options, label, 0);
        lemma_position(a, label);
        lemma_position(b, label);
    }
}

/// A label is on the poll exactly when its position is an index.
pub proof fn lemma_position(poll: PollView, label: Seq<char>)
    ensures
        0 <= poll.position(label) <= poll.options.len(),
        poll.has_option(label) <==> poll.position(label) < poll.options.len(),
        forall|j: int| 0 <= j < poll.position(label) ==> (#[trigger] poll.options[j]).0 != label,
        poll.position(label) < poll.options.len() ==> poll.options[poll.position(label)].0
            == label,
{
    lemma_first_match(poll.options, label, 0);
}

impl Poll {
    /// A new poll with the given labels, none with a vote.
    pub fn new(creator: String, question: String, labels: Vec<String>) -> (poll: Poll)
        ensures
            poll@ == PollView::fresh(creator@, question@, labels_view(labels@)),
    {
        let mut options: Vec<(String, u64)> = Vec::new();
        for label in it: labels
            invariant
                options@.len() == it.index(),
                forall|j: int|
                    0 <= j < options@.len() ==> options@[j].0@ == labels@[j]@ && options@[j].1 == 0,
        {
            options.push((label, 0));
        }
        let poll = Poll { creator, question, options };
        assert(poll@.options =~= PollView::fresh(
            creator@,
            question@,
            labels_view(labels@),
        ).options);
        poll
    }

    /// The index at which votes for `label` are counted, if the label is
    /// on the poll.
    pub fn find_option(&self, label: &str) -> (r: Option<usize>)
        ensures
            (r is Some) == self@.has_option(label@),
            r matches Some(i) ==> i == self@.position(label@) && i < self.options@.len(),
    {
        proof {
            lemma_position(self@, label@);
        }
        let mut i: usize = 0;
        while i < self.options.len()
            invariant
                i <= self.options@.len(),
                self@.options.len() == self.options@.len(),
                first_match(self@.options, label@, 0) == first_match(self@.options, label@, i as int),
            decreases self.options@.len() - i,
        {
            if key_is_same(self.options[i].0.as_str(), label) {
                return Some(i);
            }
            i += 1;
        }
        None
    }

    /// Counts one more vote at option `i`.
    pub(crate) fn add_vote(&mut self, i: usize)
        requires
            i < old(self).options@.len(),
            old(self).options@[i as int].1 < u64::MAX,
        ensures
            final(self)@ == (PollView {
                options: old(self)@.options.update(
                    i as int,
                    (old(self)@.options[i as int].0, old(self)@.options[i as int].1 + 1),
                ),
                ..old(self)@
            }),
    {
        self.options[i].1 = self.options[i].1 + 1;
        assert(self@.options =~= old(self)@.options.update(
            i as int,
            (old(self)@.options[i as int].0, old(self)@.options[i as int].1 + 1),
        ));
    }

    /// Takes one vote back at option `i`.
    pub(crate) fn remove_vote(&mut self, i: usize)
        requires
            i < old(self).options@.len(),
            old(self).options@[i as int].1 > 0,
        ensures
            final(self)@ == (PollView {
                options: old(self)@.options.update(
                    i as int,
                    (
                        old(self)@.options[i as int].0,
                        (old(self)@.options[i as int].1 - 1) as nat,
                    ),
                ),
                ..old(self)@
            }),
    {
        self.options[i].1 = self.options[i].1 - 1;
        assert(self@.options =~= old(self)@.options.update(
            i as int,
            (old(self)@.options[i as int].0, (old(self)@.options[i as int].1 - 1) as nat),
        ));
    }
}

impl Clone for Config {
    fn clone(&self) -> (out: Self)
        ensures
            out@ == self@,
    {
        Config { admin: self.admin.clone() }
    }
}

impl Clone for Ballot {
    fn clone(&self) -> (out: Self)
        ensures
            out@ == self@,
    {
        Ballot { option: self.option.clone() }
    }
}

impl Clone for Poll {
    fn clone(&self) -> (out: Self)
        ensures
            out@ == self@,
    {
        let mut options: Vec<(String, u64)> = Vec::new();
        let mut i: usize = 0;
        while i < self.options.len()
            invariant
                i <= self.options.len(),
                options.len() == i,
                forall|j: int|
                    0 <= j < i ==> options[j].0@ == self.options[j].0@ && options[j].1
                        == self.options[j].1,
            decreases self.options.len() - i,
        {
            options.push((self.options[i].0.clone(), self.options[i].1));
            i += 1;
        }
        assert(options_view(options@) =~= options_view(self.options@));
        Poll { creator: self.creator.clone(), question: self.question.clone(), options }
    }
}

} // verus!

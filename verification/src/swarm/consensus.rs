//! Consensus by vote: one vote per participant, and an option wins when its
//! share of the votes reaches a threshold.

use crate::agent::AgentId;
use crate::agent_map::AgentMap;
use crate::keyed::{distinct_keys, lemma_same_keys, put};
use crate::binary64::Binary64;
use crate::share::{lemma_share_grows_with_count, nearest_share};
use vstd::prelude::*;

verus! {

/// The votes as plain values: each participant with the option it chose.
pub open spec fn votes_view(votes: Seq<(AgentId, String)>) -> Seq<(AgentId, Seq<char>)> {
    votes.map_values(|vote: (AgentId, String)| (vote.0, vote.1@))
}

/// The number of votes for `choice`.
pub open spec fn count_for(votes: Seq<(AgentId, Seq<char>)>, choice: Seq<char>) -> nat
    decreases votes.len(),
{
    if votes.len() == 0 {
        0
    } else if votes.last().1 == choice {
        count_for(votes.drop_last(), choice) + 1
    } else {
        count_for(votes.drop_last(), choice)
    }
}

/// Vote `i` leads among the options of the first `n` votes: none of these
/// options has more votes than the option of vote `i`, and the options of
/// the votes before `i` have fewer. Votes are counted over all of `votes`.
pub open spec fn leads_among(votes: Seq<(AgentId, Seq<char>)>, n: int, i: int) -> bool {
    &&& 0 <= i < n <= votes.len()
    &&& forall|j: int|
        0 <= j < n ==> count_for(votes, (#[trigger] votes[j]).1) <= count_for(votes, votes[i].1)
    &&& forall|j: int|
        0 <= j < i ==> count_for(votes, (#[trigger] votes[j]).1) < count_for(votes, votes[i].1)
}

/// Vote `i` is the leading vote: its option has the most votes, and where
/// several options have the most, it is the first vote for any of them, in
/// the order in which the participants first voted.
pub open spec fn leads(votes: Seq<(AgentId, Seq<char>)>, i: int) -> bool {
    leads_among(votes, votes.len() as int, i)
}

/// What a consensus holds: the vote of each participant, in the order in
/// which the participants first voted, and the threshold.
pub struct ConsensusView {
    pub votes: Seq<(AgentId, Seq<char>)>,
    pub threshold: Binary64,
}

impl ConsensusView {
    /// No participant has two votes.
    pub open spec fn wf(self) -> bool {
        distinct_keys(self.votes)
    }

    /// The position of the leading vote, if there is any vote.
    pub open spec fn leader(self) -> Option<int> {
        if exists|i: int| leads(self.votes, i) {
            Some(choose|i: int| leads(self.votes, i))
        } else {
            None
        }
    }

    /// Consensus is reached when there are votes and the threshold is at
    /// most the share of the votes that the leading option has. The share
    /// is the quotient of the two counts in binary64 arithmetic; a threshold
    /// that is not a number is never reached.
    pub open spec fn is_reached(self) -> bool {
        match self.leader() {
            Some(i) => self.threshold.le(
                nearest_share(count_for(self.votes, self.votes[i].1), self.votes.len()),
            ),
            None => false,
        }
    }

    /// The leading option, where consensus is reached.
    pub open spec fn winner(self) -> Option<Seq<char>> {
        if self.is_reached() {
            Some(self.votes[self.leader().unwrap()].1)
        } else {
            None
        }
    }
}

/// At most one vote leads among the first `n`.
pub proof fn lemma_leader_unique(votes: Seq<(AgentId, Seq<char>)>, n: int, i: int, j: int)
    requires
        leads_among(votes, n, i),
        leads_among(votes, n, j),
    ensures
        i == j,
{
    if i < j {
        assert(count_for(votes, votes[i].1) < count_for(votes, votes[j].1));
        assert(count_for(votes, votes[j].1) <= count_for(votes, votes[i].1));
    } else if j < i {
        assert(count_for(votes, votes[j].1) < count_for(votes, votes[i].1));
        assert(count_for(votes, votes[i].1) <= count_for(votes, votes[j].1));
    }
}

/// Among the first `n` votes, if there are any, one leads.
pub proof fn lemma_leader_exists(votes: Seq<(AgentId, Seq<char>)>, n: int) -> (i: int)
    requires
        0 < n <= votes.len(),
    ensures
        leads_among(votes, n, i),
    decreases n,
{
    if n == 1 {
        0
    } else {
        let b = lemma_leader_exists(votes, n - 1);
        if count_for(votes, votes[b].1) < count_for(votes, votes[n - 1].1) {
            n - 1
        } else {
            b
        }
    }
}

/// An option that has a vote is the option of some vote.
pub proof fn lemma_counted_option_occurs(votes: Seq<(AgentId, Seq<char>)>, choice: Seq<char>) -> (i:
    int)
    requires
        count_for(votes, choice) > 0,
    ensures
        0 <= i < votes.len(),
        votes[i].1 == choice,
        forall|j: int| 0 <= j < i ==> (#[trigger] votes[j]).1 != choice,
    decreases votes.len(),
{
    if count_for(votes.drop_last(), choice) > 0 {
        let i = lemma_counted_option_occurs(votes.drop_last(), choice);
        assert(votes.drop_last()[i] == votes[i]);
        assert forall|j: int| 0 <= j < i implies (#[trigger] votes[j]).1 != choice by {
            assert(votes.drop_last()[j] == votes[j]);
        }
        i
    } else {
        let i = votes.len() - 1;
        assert forall|j: int| 0 <= j < i implies (#[trigger] votes[j]).1 != choice by {
            lemma_vote_is_counted(votes.drop_last(), j);
            assert(votes.drop_last()[j] == votes[j]);
        }
        i
    }
}

/// The option of each vote has at least that one vote.
pub proof fn lemma_vote_is_counted(votes: Seq<(AgentId, Seq<char>)>, i: int)
    requires
        0 <= i < votes.len(),
    ensures
        count_for(votes, votes[i].1) > 0,
    decreases votes.len(),
{
    if i < votes.len() - 1 {
        lemma_vote_is_counted(votes.drop_last(), i);
        assert(votes.drop_last()[i] == votes[i]);
    }
}

/// Without votes, consensus is not reached, whatever the threshold.
pub proof fn lemma_not_reached_without_votes(consensus: ConsensusView)
    requires
        consensus.votes.len() == 0,
    ensures
        !consensus.is_reached(),
        consensus.winner().is_none(),
{
}

/// The number of votes for an option is at most the number of votes.
pub proof fn lemma_count_is_bounded(votes: Seq<(AgentId, Seq<char>)>, choice: Seq<char>)
    ensures
        count_for(votes, choice) <= votes.len(),
    decreases votes.len(),
{
    if votes.len() > 0 {
        lemma_count_is_bounded(votes.drop_last(), choice);
    }
}

/// Consensus is reached exactly when the threshold is at most the share of
/// the votes that some vote's option has: which of several options with
/// the most votes leads makes no difference to it.
pub proof fn lemma_reached_iff_some_option_reaches(consensus: ConsensusView)
    requires
        consensus.votes.len() <= usize::MAX,
    ensures
        consensus.is_reached() <==> exists|i: int|
            0 <= i < consensus.votes.len() && consensus.threshold.le(
                nearest_share(
                    count_for(consensus.votes, (#[trigger] consensus.votes[i]).1),
                    consensus.votes.len(),
                ),
            ),
{
    let votes = consensus.votes;
    if consensus.is_reached() {
        let k = consensus.leader().unwrap();
        assert(leads(votes, k));
        assert(consensus.threshold.le(nearest_share(count_for(votes, votes[k].1), votes.len())));
    }
    if exists|i: int|
        0 <= i < votes.len() && consensus.threshold.le(
            nearest_share(count_for(votes, (#[trigger] votes[i]).1), votes.len()),
        ) {
        let i = choose|i: int|
            0 <= i < votes.len() && consensus.threshold.le(
                nearest_share(count_for(votes, (#[trigger] votes[i]).1), votes.len()),
            );
        let b = lemma_leader_exists(votes, votes.len() as int);
        assert(leads(votes, b));
        let k = consensus.leader().unwrap();
        assert(leads(votes, k));
        assert(count_for(votes, votes[i].1) <= count_for(votes, votes[k].1));
        lemma_count_is_bounded(votes, votes[k].1);
        lemma_share_grows_with_count(
            count_for(votes, votes[i].1),
            count_for(votes, votes[k].1),
            votes.len(),
        );
    }
}

/// An option that has more votes than every other option, and whose share
/// of the votes is at least the threshold, wins.
pub proof fn lemma_strict_leader_wins(consensus: ConsensusView, choice: Seq<char>)
    requires
        forall|other: Seq<char>|
            other != choice ==> #[trigger] count_for(consensus.votes, other) < count_for(
                consensus.votes,
                choice,
            ),
        consensus.threshold.le(
            nearest_share(count_for(consensus.votes, choice), consensus.votes.len()),
        ),
    ensures
        consensus.is_reached(),
        consensus.winner() == Some(choice),
{
    let votes = consensus.votes;
    let other: Seq<char> = choice.push('x');
    assert(other.len() != choice.len());
    assert(count_for(votes, other) < count_for(votes, choice));
    let i = lemma_counted_option_occurs(votes, choice);
    assert forall|j: int| 0 <= j < votes.len() implies count_for(votes, (#[trigger] votes[j]).1)
        <= count_for(votes, votes[i].1) by {
        if votes[j].1 != choice {
            assert(count_for(votes, votes[j].1) < count_for(votes, choice));
        }
    }
    assert forall|j: int| 0 <= j < i implies count_for(votes, (#[trigger] votes[j]).1) < count_for(
        votes,
        votes[i].1,
    ) by {
        assert(votes[j].1 != choice);
    }
    assert(leads(votes, i));
    let k = consensus.leader().unwrap();
    lemma_leader_unique(votes, votes.len() as int, k, i);
}

/// Consensus among the participants of a vote.
///
/// Each participant has one vote; a later vote of the same participant takes
/// the place of its earlier one. The threshold is the share of the votes
/// that an option needs, a number between zero and one.
#[derive(Clone, Debug)]
pub struct Consensus {
    votes: AgentMap<String>,
    threshold: Binary64,
}

impl View for Consensus {
    type V = ConsensusView;

    closed spec fn view(&self) -> ConsensusView {
        ConsensusView { votes: votes_view(self.votes@), threshold: self.threshold }
    }
}

/// Counts, among `votes`, the votes for `choice`.
fn count_votes(votes: &[(AgentId, String)], choice: &String) -> (count: usize)
    ensures
        count == count_for(votes_view(votes@), choice@),
{
    let ghost all = votes_view(votes@);
    let n: usize = votes.len();
    let mut count: usize = 0;
    let mut i: usize = 0;
    while i < n
        invariant
            n == votes.len(),
            all == votes_view(votes@),
            i <= n,
            count <= i,
            count == count_for(all.take(i as int), choice@),
        decreases n - i,
    {
        proof {
            assert(all.take(i + 1).drop_last() =~= all.take(i as int));
            assert(all.take(i + 1).last() == all[i as int]);
        }
        if votes[i].1 == *choice {
            count += 1;
        }
        i += 1;
    }
    proof {
        assert(all.take(n as int) =~= all);
    }
    count
}

impl Consensus {
    /// A consensus without votes, whose threshold is `threshold` clamped to
    /// the range from zero to one.
    pub fn new(threshold: Binary64) -> (consensus: Consensus)
        ensures
            consensus@ == (ConsensusView {
                votes: Seq::empty(),
                threshold: threshold.clamped_to_unit(),
            }),
    {
        let consensus = Consensus { votes: AgentMap::new(), threshold: threshold.clamp_to_unit() };
        assert(consensus@.votes =~= Seq::empty());
        consensus
    }

    /// Records that `agent_id` votes for `choice`. Nothing is kept of a vote
    /// that `agent_id` made before.
    pub fn vote(&mut self, agent_id: AgentId, choice: &str)
        ensures
            final(self)@ == (ConsensusView {
                votes: put(old(self)@.votes, agent_id, choice@),
                ..old(self)@
            }),
            final(self)@.wf(),
    {
        let owned: String = choice.to_owned();
        self.votes.insert(agent_id, owned);
        proof {
            let before = old(self).votes@;
            let after = self.votes@;
            lemma_same_keys(before, votes_view(before));
            assert(votes_view(after) =~= put(votes_view(before), agent_id, choice@));
            lemma_same_keys(after, votes_view(after));
        }
    }

    /// The leading vote and the number of votes for its option.
    fn leading(&self) -> (r: Option<(usize, usize)>)
        ensures
            match r {
                Some((i, count)) => {
                    &&& self@.leader() == Some(i as int)
                    &&& count == count_for(self@.votes, self@.votes[i as int].1)
                    &&& i < self.votes@.len()
                    &&& self.votes@[i as int].1@ == self@.votes[i as int].1
                },
                None => self@.leader().is_none() && self@.votes.len() == 0,
            },
    {
        let votes: &[(AgentId, String)] = self.votes.as_slice();
        let ghost all = votes_view(votes@);
        let n: usize = votes.len();
        if n == 0 {
            return None;
        }
        let mut best: usize = 0;
        let mut best_count: usize = count_votes(votes, &votes[0].1);
        let mut i: usize = 1;
        while i < n
            invariant
                n == votes.len(),
                all == votes_view(votes@),
                1 <= i <= n,
                leads_among(all, i as int, best as int),
                best_count == count_for(all, all[best as int].1),
            decreases n - i,
        {
            let count: usize = count_votes(votes, &votes[i].1);
            if best_count < count {
                best = i;
                best_count = count;
            }
            i += 1;
        }
        proof {
            assert(all == self@.votes);
            assert(leads(all, best as int));
            let k: int = choose|k: int| leads(all, k);
            lemma_leader_unique(all, n as int, k, best as int);
            assert(self@.leader() == Some(best as int));
            assert(all[best as int].1 == votes@[best as int].1@);
        }
        Some((best, best_count))
    }

    /// Tells whether consensus is reached: there are votes, and the share
    /// of them that the option with the most votes has, the quotient of the
    /// two counts in binary64 arithmetic, is at least the threshold.
    pub fn is_reached(&self) -> (r: bool)
        ensures
            r == self@.is_reached(),
    {
        match self.leading() {
            Some((_, count)) => self.threshold.is_at_most_rounded_share(count, self.votes.len()),
            None => false,
        }
    }

    /// The option that wins, where consensus is reached.
    ///
    /// Where several options have the most votes, the winner among them is
    /// the one that comes first in the order of the participants.
    pub fn winner(&self) -> (r: Option<String>)
        ensures
            match r {
                Some(choice) => self@.winner() == Some(choice@),
                None => self@.winner().is_none(),
            },
    {
        match self.leading() {
            Some((i, count)) => {
                if self.threshold.is_at_most_rounded_share(count, self.votes.len()) {
                    let votes: &[(AgentId, String)] = self.votes.as_slice();
                    Some(votes[i].1.clone())
                } else {
                    None
                }
            },
            None => None,
        }
    }

    /// The votes: each participant with its choice, in the order in which
    /// the participants first voted.
    pub fn votes(&self) -> (votes: &AgentMap<String>)
        ensures
            votes_view(votes@) == self@.votes,
    {
        &self.votes
    }

    /// The threshold.
    pub fn threshold(&self) -> (threshold: Binary64)
        ensures
            threshold == self@.threshold,
    {
        self.threshold
    }

    /// Removes every vote. The threshold stays.
    pub fn clear(&mut self)
        ensures
            final(self)@ == (ConsensusView { votes: Seq::empty(), ..old(self)@ }),
    {
        self.votes.clear();
        assert(self@.votes =~= Seq::empty());
    }
}

} // verus!

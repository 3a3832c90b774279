//! Durable term and vote bookkeeping.
use vstd::prelude::*;

verus! {

/// The election state of one node: the current term and the vote cast in it.
pub struct PersistentState {
    current_term: u64,
    voted_for: Option<String>,
}

/// Abstract value of an election state: the term and the vote as characters.
pub struct ElectionView {
    pub term: nat,
    pub vote: Option<Seq<char>>,
}

/// The characters of an optional identifier.
pub open spec fn vote_view(v: Option<String>) -> Option<Seq<char>> {
    match v {
        Some(s) => Some(s@),
        None => None,
    }
}

impl View for PersistentState {
    type V = ElectionView;

    closed spec fn view(&self) -> ElectionView {
        ElectionView { term: self.current_term as nat, vote: vote_view(self.voted_for) }
    }
}

fn copy_vote(v: &Option<String>) -> (r: Option<String>)
    ensures
        vote_view(r) == vote_view(*v),
{
    match v {
        Some(s) => Some(s.clone()),
        None => None,
    }
}

impl PersistentState {
    /// A fresh state: term zero, no vote.
    pub fn new() -> (r: PersistentState)
        ensures
            r@.term == 0,
            r@.vote is None,
    {
        PersistentState { current_term: 0, voted_for: None }
    }

    /// A state read back from storage.
    pub fn restore(term: u64, voted_for: Option<String>) -> (r: PersistentState)
        ensures
            r@.term == term,
            r@.vote == vote_view(voted_for),
    {
        PersistentState { current_term: term, voted_for }
    }

    pub fn current_term(&self) -> (r: u64)
        ensures
            r == self@.term,
    {
        self.current_term
    }

    pub fn voted_for(&self) -> (r: Option<String>)
        ensures
            vote_view(r) == self@.vote,
    {
        copy_vote(&self.voted_for)
    }

    /// Becomes a candidate: the term advances by one and the node votes for itself.
    pub fn start_election(&mut self, self_id: &str)
        requires
            old(self)@.term < u64::MAX,
        ensures
            final(self)@.term == old(self)@.term + 1,
            final(self)@.vote == Some(self_id@),
    {
        self.current_term = self.current_term + 1;
        self.voted_for = Some(self_id.to_owned());
    }

    /// Adopts a term that is not older than the current one, clearing the vote.
    /// Returns the term after the call and whether `new_term` was accepted.
    pub fn update_term(&mut self, new_term: u64) -> (r: (u64, bool))
        ensures
            new_term < old(self)@.term ==> r == (old(self)@.term as u64, false) && final(self)@
                == old(self)@,
            new_term >= old(self)@.term ==> r == (new_term, true) && final(self)@.term == new_term
                && final(self)@.vote is None,
    {
        if new_term < self.current_term {
            (self.current_term, false)
        } else {
            self.current_term = new_term;
            self.voted_for = None;
            (self.current_term, true)
        }
    }

    /// Grants a vote to `candidate` unless the vote of this term went to another node.
    pub fn try_vote(&mut self, candidate: &str) -> (r: bool)
        ensures
            final(self)@.term == old(self)@.term,
            r == (old(self)@.vote is None || old(self)@.vote == Some(candidate@)),
            final(self)@.vote == if old(self)@.vote is None {
                Some(candidate@)
            } else {
                old(self)@.vote
            },
    {
        match &self.voted_for {
            None => {
                self.voted_for = Some(candidate.to_owned());
                true
            },
            Some(recipient) => {
                let c = candidate.to_owned();
                *recipient == c
            },
        }
    }
}

} // verus!

//! The proposal sequencer: takes client proposals, keeps each client's messages in
//! order and free of duplicates, and commits the accepted ones through the state-machine
//! wrapper.
use vstd::prelude::*;
use crate::wal::{Command, CommandView, Entry, EntryView, WAL};
use crate::state_machine::{SMWrapper, StateMachine, UserMessageIdMap};

verus! {

/// A client's proposal: the `message_id`-th message of `client_id`, counting from 1.
pub struct ProposalRequest {
    pub client_id: String,
    pub message_id: u64,
    pub data: Vec<u8>,
}

/// A committed entry: its index in the log and its command, absent for a no-op.
pub struct CommitNotification {
    pub log_index: u64,
    pub command: Option<Command>,
}

impl View for ProposalRequest {
    type V = CommandView;

    open spec fn view(&self) -> CommandView {
        CommandView { client_id: self.client_id@, message_id: self.message_id, data: self.data@ }
    }
}

/// The message ids of `c`'s commands in `log`, in log order.
pub open spec fn client_ids(log: Seq<EntryView>, c: Seq<char>) -> Seq<u64>
    decreases log.len(),
{
    if log.len() == 0 {
        Seq::empty()
    } else {
        let prev = client_ids(log.drop_last(), c);
        match log.last().command {
            Some(cmd) => if cmd.client_id == c {
                prev.push(cmd.message_id)
            } else {
                prev
            },
            None => prev,
        }
    }
}

/// The ids 1, 2, ..., n.
pub open spec fn count_up(n: nat) -> Seq<u64> {
    Seq::new(n, |i: int| (i + 1) as u64)
}

/// The last message id recorded for `c`, 0 when there is none.
pub open spec fn last_id(marks: Map<Seq<char>, u64>, c: Seq<char>) -> nat {
    if marks.contains_key(c) {
        marks[c] as nat
    } else {
        0
    }
}

/// The single-node sequencer: every accepted proposal is committed at once in the term
/// it was created with.
pub struct Sequencer {
    machine: SMWrapper<UserMessageIdMap>,
    term: u64,
}

impl Sequencer {
    /// The committed log.
    pub closed spec fn log(&self) -> Seq<EntryView> {
        self.machine.log()
    }

    /// For each client, the id of their last committed message.
    pub closed spec fn marks(&self) -> Map<Seq<char>, u64> {
        self.machine.live()
    }

    pub closed spec fn term_of(&self) -> u64 {
        self.term
    }

    /// The wrapper is well formed, and each client's committed ids are 1, 2, ... up to
    /// the last one recorded for them.
    pub closed spec fn wf(&self) -> bool {
        &&& self.machine.well_formed()
        &&& forall|c: Seq<char>| #[trigger]
            client_ids(self.log(), c) == count_up(last_id(self.marks(), c))
    }

    /// A sequencer with an empty log that commits in `term`.
    pub fn new(term: u64) -> (r: Sequencer)
        ensures
            r.wf(),
            r.log() == Seq::<EntryView>::empty(),
            r.term_of() == term,
    {
        let machine = SMWrapper::new(WAL::new());
        let r = Sequencer { machine, term };
        assert forall|c: Seq<char>| #[trigger]
            client_ids(r.log(), c) == count_up(last_id(r.marks(), c)) by {
            assert(count_up(0) =~= Seq::<u64>::empty());
        }
        r
    }

    /// The id of the last committed message of `client_id`, if any.
    pub fn last_message_id(&self, client_id: &String) -> (r: Option<u64>)
        ensures
            r == (if self.marks().contains_key(client_id@) {
                Some(self.marks()[client_id@])
            } else {
                None
            }),
    {
        self.machine.state().get(client_id)
    }

    pub fn log_len(&self) -> (r: usize)
        ensures
            r == self.log().len(),
    {
        self.machine.wal().len()
    }

    /// Decides on one proposal. It is committed, and its notification returned, exactly
    /// when its message id is the one after the client's last committed id (1 for a
    /// client with none); otherwise it is dropped and nothing changes.
    pub fn on_proposal(&mut self, req: ProposalRequest) -> (r: Option<CommitNotification>)
        requires
            old(self).wf(),
        ensures
            final(self).wf(),
            final(self).term_of() == old(self).term_of(),
            r is Some <==> req.message_id == last_id(old(self).marks(), req.client_id@) + 1,
            r is None ==> final(self).log() == old(self).log() && final(self).marks() == old(
                self,
            ).marks(),
            r matches Some(n) ==> {
                &&& final(self).log() == old(self).log().push(
                    EntryView { term: old(self).term_of(), command: Some(req@) },
                )
                &&& final(self).marks() == old(self).marks().insert(
                    req.client_id@,
                    req.message_id,
                )
                &&& n.log_index == old(self).log().len()
                &&& n.command matches Some(c) && c@ == req@
            },
    {
        let ghost old_log = self.log();
        let ghost old_marks = self.marks();
        let accept = match self.machine.state().get(&req.client_id) {
            Some(last) => last < u64::MAX && req.message_id == last + 1,
            None => req.message_id == 1,
        };
        if !accept {
            return None;
        }
        let cmd = Command { client_id: req.client_id, message_id: req.message_id, data: req.data };
        let announced = cmd.copy();
        let ghost cv = cmd@;
        let entry = Entry { term: self.term, command: Some(cmd) };
        let idx = self.machine.propose_entry(entry);
        proof {
            let e = EntryView { term: self.term, command: Some(cv) };
            assert(self.log() == old_log.push(e));
            assert(self.marks() == UserMessageIdMap::step(old_marks, cv));
            assert forall|c: Seq<char>| #[trigger]
                client_ids(self.log(), c) == count_up(last_id(self.marks(), c)) by {
                assert(self.log().drop_last() =~= old_log);
                assert(client_ids(old_log, c) == count_up(last_id(old_marks, c)));
                if c == cv.client_id {
                    assert(count_up(last_id(self.marks(), c)) =~= count_up(
                        last_id(old_marks, c),
                    ).push(cv.message_id));
                }
            }
        }
        Some(CommitNotification { log_index: idx, command: Some(announced) })
    }
}

/// Each client's committed message ids are exactly 1, 2, 3, ... with no gap and no
/// repetition, whatever proposals were submitted: the ids of `c`'s entries in the
/// committed log, in order, count up from 1 to the last id recorded for `c`.
pub proof fn lemma_client_ids_contiguous(s: &Sequencer, c: Seq<char>)
    requires
        s.wf(),
    ensures
        client_ids(s.log(), c) == count_up(last_id(s.marks(), c)),
{
}

} // verus!

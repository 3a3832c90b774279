//! Generic state machines driven by log entries, and the wrapper that keeps a live state
//! and a lagging snapshot in step with the replicated log.
use vstd::prelude::*;
use crate::wal::{
    Action, Command, CommandView, Entry, EntryView, WAL, entries_view, prefix_agrees,
    already_present, after_append, lemma_append_idempotent,
};

verus! {

/// The state reached from `v` by applying, in order, the commands of `log`; no-op
/// entries leave the state as it is.
pub open spec fn replay<S: StateMachine>(v: S::V, log: Seq<EntryView>) -> S::V
    decreases log.len(),
{
    if log.len() == 0 {
        v
    } else {
        let prev = replay::<S>(v, log.drop_last());
        match log.last().command {
            Some(c) => S::step(prev, c),
            None => prev,
        }
    }
}

/// A deterministic state machine over client commands.
pub trait StateMachine: View + Sized {
    /// The abstract state of a new machine.
    spec fn initial() -> Self::V;

    /// The abstract state after applying `cmd` to `v`.
    spec fn step(v: Self::V, cmd: CommandView) -> Self::V;

    fn new() -> (r: Self)
        ensures
            r@ == Self::initial(),
    ;

    fn apply(&mut self, cmd: &Command)
        ensures
            final(self)@ == Self::step(old(self)@, cmd@),
    ;

    /// A second machine in the same state.
    fn duplicate(&self) -> (r: Self)
        ensures
            r@ == self@,
    ;
}

/// Applies the commands of `entries` in order, skipping no-op entries.
pub fn apply_entries<S: StateMachine>(sm: &mut S, entries: &[Entry])
    ensures
        final(sm)@ == replay::<S>(old(sm)@, entries_view(entries@)),
{
    let mut i: usize = 0;
    while i < entries.len()
        invariant
            i <= entries@.len(),
            sm@ == replay::<S>(old(sm)@, entries_view(entries@).take(i as int)),
        decreases entries@.len() - i,
    {
        assert(entries_view(entries@).take(i + 1).drop_last() =~= entries_view(entries@).take(
            i as int,
        ));
        assert(entries_view(entries@)[i as int] == entries@[i as int]@);
        if let Some(cmd) = &entries[i].command {
            sm.apply(cmd);
        }
        i = i + 1;
    }
    assert(entries_view(entries@).take(i as int) =~= entries_view(entries@));
}

/// Replaying a log in one go gives the same state as replaying a prefix of it and then
/// the rest from the state that the prefix reached.
pub proof fn lemma_replay_concat<S: StateMachine>(v: S::V, a: Seq<EntryView>, b: Seq<EntryView>)
    ensures
        replay::<S>(v, a + b) == replay::<S>(replay::<S>(v, a), b),
    decreases b.len(),
{
    if b.len() == 0 {
        assert(a + b =~= a);
    } else {
        lemma_replay_concat::<S>(v, a, b.drop_last());
        assert((a + b).drop_last() =~= a + b.drop_last());
        assert((a + b).last() == b.last());
    }
}

/// Snapshot and replay agree: for every log and every snapshot length within it,
/// replaying the whole log from the initial state gives the state obtained by
/// replaying the suffix from the snapshot length onto the snapshot of the prefix.
pub proof fn lemma_snapshot_replay<S: StateMachine>(log: Seq<EntryView>, snapshot_length: int)
    requires
        0 <= snapshot_length <= log.len(),
    ensures
        replay::<S>(S::initial(), log) == replay::<S>(
            replay::<S>(S::initial(), log.take(snapshot_length)),
            log.skip(snapshot_length),
        ),
{
    assert(log =~= log.take(snapshot_length) + log.skip(snapshot_length));
    lemma_replay_concat::<S>(S::initial(), log.take(snapshot_length), log.skip(snapshot_length));
}

/// One client's record: the id of the last message of theirs that was applied.
pub struct ClientMark {
    pub client_id: String,
    pub message_id: u64,
}

/// The map from client to the last applied message id that `marks` spell out; a later
/// record wins over an earlier one.
pub open spec fn marks_map(marks: Seq<ClientMark>) -> Map<Seq<char>, u64>
    decreases marks.len(),
{
    if marks.len() == 0 {
        Map::empty()
    } else {
        marks_map(marks.drop_last()).insert(marks.last().client_id@, marks.last().message_id)
    }
}

proof fn lemma_marks_found(marks: Seq<ClientMark>, i: int)
    requires
        0 <= i < marks.len(),
        forall|j: int| i < j < marks.len() ==> marks[j].client_id@ != marks[i].client_id@,
    ensures
        marks_map(marks).contains_key(marks[i].client_id@),
        marks_map(marks)[marks[i].client_id@] == marks[i].message_id,
    decreases marks.len(),
{
    if i < marks.len() - 1 {
        lemma_marks_found(marks.drop_last(), i);
    }
}

proof fn lemma_marks_absent(marks: Seq<ClientMark>, k: Seq<char>)
    requires
        forall|j: int| 0 <= j < marks.len() ==> marks[j].client_id@ != k,
    ensures
        !marks_map(marks).contains_key(k),
    decreases marks.len(),
{
    if marks.len() > 0 {
        lemma_marks_absent(marks.drop_last(), k);
    }
}

proof fn lemma_marks_update(marks: Seq<ClientMark>, i: int, m: ClientMark)
    requires
        0 <= i < marks.len(),
        m.client_id@ == marks[i].client_id@,
        forall|j: int| i < j < marks.len() ==> marks[j].client_id@ != marks[i].client_id@,
    ensures
        marks_map(marks.update(i, m)) == marks_map(marks).insert(m.client_id@, m.message_id),
    decreases marks.len(),
{
    let marks2 = marks.update(i, m);
    if i == marks.len() - 1 {
        assert(marks2.drop_last() =~= marks.drop_last());
        assert(marks_map(marks2) =~= marks_map(marks).insert(m.client_id@, m.message_id));
    } else {
        lemma_marks_update(marks.drop_last(), i, m);
        assert(marks2.drop_last() =~= marks.drop_last().update(i, m));
        assert(marks_map(marks2) =~= marks_map(marks).insert(m.client_id@, m.message_id));
    }
}

/// For each client, the id of the last message of theirs that was applied. Serves the
/// lookups that filter out duplicate and out-of-order proposals.
pub struct UserMessageIdMap {
    marks: Vec<ClientMark>,
}

impl View for UserMessageIdMap {
    type V = Map<Seq<char>, u64>;

    closed spec fn view(&self) -> Map<Seq<char>, u64> {
        marks_map(self.marks@)
    }
}

impl UserMessageIdMap {
    /// The position of the last record of `client_id`, if any.
    fn position(&self, client_id: &String) -> (r: Option<usize>)
        ensures
            r matches Some(i) ==> i < self.marks@.len() && self.marks@[i as int].client_id@
                == client_id@ && forall|j: int|
                i < j < self.marks@.len() ==> self.marks@[j].client_id@ != client_id@,
            r is None ==> forall|j: int|
                0 <= j < self.marks@.len() ==> self.marks@[j].client_id@ != client_id@,
    {
        let mut i: usize = self.marks.len();
        while i > 0
            invariant
                i <= self.marks@.len(),
                forall|j: int| i <= j < self.marks@.len() ==> self.marks@[j].client_id@ != client_id@,
            decreases i,
        {
            if self.marks[i - 1].client_id == *client_id {
                return Some(i - 1);
            }
            i = i - 1;
        }
        None
    }

    /// The last applied message id of `client_id`, if any was applied.
    pub fn get(&self, client_id: &String) -> (r: Option<u64>)
        ensures
            r == (if self@.contains_key(client_id@) {
                Some(self@[client_id@])
            } else {
                None
            }),
    {
        match self.position(client_id) {
            Some(i) => {
                proof {
                    lemma_marks_found(self.marks@, i as int);
                }
                Some(self.marks[i].message_id)
            },
            None => {
                proof {
                    lemma_marks_absent(self.marks@, client_id@);
                }
                None
            },
        }
    }
}

impl StateMachine for UserMessageIdMap {
    open spec fn initial() -> Map<Seq<char>, u64> {
        Map::empty()
    }

    open spec fn step(v: Map<Seq<char>, u64>, cmd: CommandView) -> Map<Seq<char>, u64> {
        v.insert(cmd.client_id, cmd.message_id)
    }

    fn new() -> (r: Self) {
        UserMessageIdMap { marks: Vec::new() }
    }

    fn apply(&mut self, cmd: &Command) {
        let m = ClientMark { client_id: cmd.client_id.clone(), message_id: cmd.message_id };
        match self.position(&cmd.client_id) {
            Some(i) => {
                proof {
                    lemma_marks_update(self.marks@, i as int, m);
                }
                self.marks.set(i, m);
            },
            None => {
                self.marks.push(m);
                assert(self.marks@.drop_last() =~= old(self).marks@);
            },
        }
    }

    fn duplicate(&self) -> (r: Self) {
        let mut marks: Vec<ClientMark> = Vec::new();
        let mut i: usize = 0;
        while i < self.marks.len()
            invariant
                i <= self.marks@.len(),
                marks_map(marks@) == marks_map(self.marks@.take(i as int)),
            decreases self.marks@.len() - i,
        {
            let m = ClientMark {
                client_id: self.marks[i].client_id.clone(),
                message_id: self.marks[i].message_id,
            };
            let ghost prev = marks@;
            marks.push(m);
            assert(marks@.drop_last() =~= prev);
            assert(self.marks@.take(i + 1).drop_last() =~= self.marks@.take(i as int));
            i = i + 1;
        }
        assert(self.marks@.take(i as int) =~= self.marks@);
        UserMessageIdMap { marks }
    }
}

/// A state machine kept in step with a replicated log: the live state has applied every
/// entry of the log, and a snapshot state has applied its first `snapshot_length`.
pub struct SMWrapper<S> {
    wal: WAL,
    state: S,
    snapshot_length: u64,
    snapshot: S,
}

impl<S: StateMachine> SMWrapper<S> {
    /// The log.
    pub closed spec fn log(&self) -> Seq<EntryView> {
        self.wal@
    }

    /// The abstract live state.
    pub closed spec fn live(&self) -> S::V {
        self.state@
    }

    /// How many entries the snapshot has applied.
    pub closed spec fn snapshot_len(&self) -> nat {
        self.snapshot_length as nat
    }

    /// The abstract snapshot state.
    pub closed spec fn snapshot_state(&self) -> S::V {
        self.snapshot@
    }

    /// The live state is the replay of the whole log, and the snapshot the replay of the
    /// log's first `snapshot_len` entries.
    pub open spec fn well_formed(&self) -> bool {
        &&& self.snapshot_len() <= self.log().len()
        &&& self.live() == replay::<S>(S::initial(), self.log())
        &&& self.snapshot_state() == replay::<S>(S::initial(), self.log().take(self.snapshot_len() as int))
    }

    /// A wrapper over `wal` whose live state has applied all of it and whose snapshot
    /// has applied nothing.
    pub fn new(wal: WAL) -> (r: Self)
        ensures
            r.well_formed(),
            r.log() == wal@,
            r.snapshot_len() == 0,
    {
        let mut state = S::new();
        apply_entries(&mut state, wal.as_slice());
        let snapshot = S::new();
        let r = SMWrapper { wal, state, snapshot_length: 0, snapshot };
        assert(r.log().take(0) =~= Seq::<EntryView>::empty());
        r
    }

    pub fn wal(&self) -> (r: &WAL)
        ensures
            r@ == self.log(),
    {
        &self.wal
    }

    pub fn state(&self) -> (r: &S)
        ensures
            r@ == self.live(),
    {
        &self.state
    }

    pub fn snapshot_length(&self) -> (r: u64)
        ensures
            r == self.snapshot_len(),
    {
        self.snapshot_length
    }

    /// Folds the entries from the snapshot length up to `len` into the snapshot.
    pub fn take_snapshot(&mut self, len: u64)
        requires
            old(self).well_formed(),
            old(self).snapshot_len() <= len <= old(self).log().len(),
        ensures
            final(self).well_formed(),
            final(self).log() == old(self).log(),
            final(self).live() == old(self).live(),
            final(self).snapshot_len() == len,
    {
        let n = self.wal.len();
        assert(len <= n);
        let from = self.snapshot_length as usize;
        let to = len as usize;
        let entries = self.wal.as_slice();
        let mut i: usize = from;
        while i < to
            invariant
                from <= i <= to,
                to <= entries@.len(),
                entries_view(entries@) == self.wal@,
                self.wal@ == old(self).wal@,
                self.state@ == old(self).state@,
                self.snapshot_length == old(self).snapshot_length,
                self.snapshot@ == replay::<S>(S::initial(), self.wal@.take(i as int)),
            decreases to - i,
        {
            assert(self.wal@.take(i + 1).drop_last() =~= self.wal@.take(i as int));
            assert(entries_view(entries@)[i as int] == entries@[i as int]@);
            if let Some(cmd) = &entries[i].command {
                self.snapshot.apply(cmd);
            }
            i = i + 1;
        }
        self.snapshot_length = len;
    }

    /// Applies the entry's command to the live state, then appends the entry to the log.
    /// Returns the entry's index.
    pub fn propose_entry(&mut self, entry: Entry) -> (r: u64)
        requires
            old(self).well_formed(),
        ensures
            final(self).well_formed(),
            final(self).log() == old(self).log().push(entry@),
            final(self).snapshot_len() == old(self).snapshot_len(),
            final(self).live() == match entry@.command {
                Some(c) => S::step(old(self).live(), c),
                None => old(self).live(),
            },
            r == old(self).log().len(),
    {
        if let Some(cmd) = &entry.command {
            self.state.apply(cmd);
        }
        let ghost old_log = self.wal@;
        let r = self.wal.propose_entry(entry);
        assert(self.wal@.drop_last() =~= old_log);
        assert(self.wal@.take(self.snapshot_length as int) =~= old_log.take(
            self.snapshot_length as int,
        ));
        r
    }

    /// The follower-side append, keeping the live state in step with the log. When the
    /// log's tail is replaced, the live state is rebuilt from the snapshot. Returns the
    /// length that the log is known to match, or `None` when the entry before
    /// `prev_length` is missing or from another term.
    pub fn append_entries(&mut self, prev_length: u64, prev_term: u64, entries: &[Entry]) -> (r:
        Option<u64>)
        requires
            old(self).well_formed(),
            prefix_agrees(old(self).log(), prev_length as int, prev_term) && !already_present(
                old(self).log(),
                prev_length as int,
                entries_view(entries@),
            ) ==> old(self).snapshot_len() <= prev_length,
        ensures
            final(self).well_formed(),
            final(self).log() == after_append(
                old(self).log(),
                prev_length as int,
                prev_term,
                entries_view(entries@),
            ),
            final(self).snapshot_len() == old(self).snapshot_len(),
            r == (if !prefix_agrees(old(self).log(), prev_length as int, prev_term) {
                None
            } else if already_present(old(self).log(), prev_length as int, entries_view(entries@)) {
                Some(old(self).log().len() as u64)
            } else {
                Some((prev_length + entries@.len()) as u64)
            }),
    {
        let ghost old_log = self.wal@;
        let action = self.wal.append_entries(prev_length, prev_term, entries);
        match action {
            Some(Action::Update(l, _)) => {
                let n = self.wal.len();
                assert(self.snapshot_length <= n);
                let from = self.snapshot_length as usize;
                assert(self.wal@.take(from as int) =~= old_log.take(from as int));
                self.state = self.snapshot.duplicate();
                let all = self.wal.as_slice();
                let mut i: usize = from;
                while i < all.len()
                    invariant
                        from <= i <= all@.len(),
                        entries_view(all@) == self.wal@,
                        self.wal@ == after_append(
                            old(self).log(),
                            prev_length as int,
                            prev_term,
                            entries_view(entries@),
                        ),
                        self.snapshot_length == old(self).snapshot_length,
                        self.snapshot@ == old(self).snapshot@,
                        self.state@ == replay::<S>(S::initial(), self.wal@.take(i as int)),
                    decreases all@.len() - i,
                {
                    assert(self.wal@.take(i + 1).drop_last() =~= self.wal@.take(i as int));
                    assert(entries_view(all@)[i as int] == all@[i as int]@);
                    if let Some(cmd) = &all[i].command {
                        self.state.apply(cmd);
                    }
                    i = i + 1;
                }
                assert(self.wal@.take(i as int) =~= self.wal@);
                Some(self.wal.len() as u64)
            },
            Some(Action::Id(n)) => Some(n),
            None => None,
        }
    }
}

/// An append repeated with the same arguments changes nothing: if `first` is a wrapper
/// as one append left it and `second` as the same append then left `first`, both hold
/// the same log and the same live state, and the second append found the entries in
/// place whenever the first one was accepted.
pub proof fn lemma_wrapper_append_idempotent<S: StateMachine>(
    before: Seq<EntryView>,
    first: &SMWrapper<S>,
    second: &SMWrapper<S>,
    prev_length: u64,
    prev_term: u64,
    entries: Seq<EntryView>,
)
    requires
        first.well_formed(),
        second.well_formed(),
        first.log() == after_append(before, prev_length as int, prev_term, entries),
        second.log() == after_append(first.log(), prev_length as int, prev_term, entries),
    ensures
        second.log() == first.log(),
        second.live() == first.live(),
        prefix_agrees(before, prev_length as int, prev_term) ==> already_present(
            first.log(),
            prev_length as int,
            entries,
        ),
{
    lemma_append_idempotent(before, prev_length as int, prev_term, entries);
}

} // verus!

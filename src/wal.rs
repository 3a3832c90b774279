//! The replicated log: an append-only sequence of entries, indexed from 0, with the
//! follower-side consistency-checked append.
use vstd::prelude::*;

verus! {

/// A client's command carried by a log entry.
pub struct Command {
    pub client_id: String,
    pub message_id: u64,
    pub data: Vec<u8>,
}

/// One log entry: the term in which it was created and its command, absent for a no-op.
pub struct Entry {
    pub term: u64,
    pub command: Option<Command>,
}

pub struct CommandView {
    pub client_id: Seq<char>,
    pub message_id: u64,
    pub data: Seq<u8>,
}

pub struct EntryView {
    pub term: u64,
    pub command: Option<CommandView>,
}

impl View for Command {
    type V = CommandView;

    open spec fn view(&self) -> CommandView {
        CommandView { client_id: self.client_id@, message_id: self.message_id, data: self.data@ }
    }
}

impl View for Entry {
    type V = EntryView;

    open spec fn view(&self) -> EntryView {
        EntryView {
            term: self.term,
            command: match self.command {
                Some(c) => Some(c@),
                None => None,
            },
        }
    }
}

/// The abstract values of a sequence of entries.
pub open spec fn entries_view(s: Seq<Entry>) -> Seq<EntryView> {
    s.map_values(|e: Entry| e@)
}

fn copy_bytes(b: &Vec<u8>) -> (r: Vec<u8>)
    ensures
        r@ == b@,
{
    let mut r: Vec<u8> = Vec::new();
    let mut i: usize = 0;
    while i < b.len()
        invariant
            i <= b.len(),
            r@ == b@.take(i as int),
        decreases b.len() - i,
    {
        r.push(b[i]);
        i = i + 1;
        assert(r@ =~= b@.take(i as int));
    }
    assert(r@ =~= b@);
    r
}

fn bytes_equal(a: &Vec<u8>, b: &Vec<u8>) -> (r: bool)
    ensures
        r == (a@ == b@),
{
    if a.len() != b.len() {
        return false;
    }
    let mut i: usize = 0;
    while i < a.len()
        invariant
            i <= a.len(),
            a.len() == b.len(),
            a@.take(i as int) == b@.take(i as int),
        decreases a.len() - i,
    {
        if a[i] != b[i] {
            assert(a@[i as int] != b@[i as int]);
            return false;
        }
        assert(a@.take(i + 1) =~= a@.take(i as int).push(a@[i as int]));
        assert(b@.take(i + 1) =~= b@.take(i as int).push(b@[i as int]));
        i = i + 1;
    }
    assert(a@ =~= a@.take(i as int));
    assert(b@ =~= b@.take(i as int));
    true
}

impl Command {
    /// A copy of the command with the same client, message id and payload.
    pub fn copy(&self) -> (r: Command)
        ensures
            r@ == self@,
    {
        Command {
            client_id: self.client_id.clone(),
            message_id: self.message_id,
            data: copy_bytes(&self.data),
        }
    }

    /// Whether two commands are the same, field by field.
    pub fn same(&self, other: &Command) -> (r: bool)
        ensures
            r == (self@ == other@),
    {
        self.client_id == other.client_id && self.message_id == other.message_id && bytes_equal(
            &self.data,
            &other.data,
        )
    }
}

impl Entry {
    /// A copy of the entry.
    pub fn copy(&self) -> (r: Entry)
        ensures
            r@ == self@,
    {
        let command = match &self.command {
            Some(c) => Some(c.copy()),
            None => None,
        };
        Entry { term: self.term, command }
    }

    /// Whether two entries are the same: same term and same command.
    pub fn same(&self, other: &Entry) -> (r: bool)
        ensures
            r == (self@ == other@),
    {
        if self.term != other.term {
            return false;
        }
        match (&self.command, &other.command) {
            (Some(a), Some(b)) => a.same(b),
            (None, None) => true,
            _ => false,
        }
    }
}

/// What a consistency-checked append did to the log.
pub enum Action {
    /// The tail from the given length was replaced by the given entries.
    Update(u64, Vec<Entry>),
    /// The entries were already present; the log, of the given length, is unchanged.
    Id(u64),
}

/// The entry before `prev_length` exists and was created in `prev_term`.
pub open spec fn prefix_agrees(log: Seq<EntryView>, prev_length: int, prev_term: u64) -> bool {
    &&& prev_length <= log.len()
    &&& (prev_length == 0 || log[prev_length - 1].term == prev_term)
}

/// The log already holds `entries` from `prev_length` on.
pub open spec fn already_present(log: Seq<EntryView>, prev_length: int, entries: Seq<EntryView>) -> bool {
    &&& prev_length + entries.len() <= log.len()
    &&& log.subrange(prev_length, prev_length + entries.len()) == entries
}

/// The log cut at `prev_length` and continued with `entries`.
pub open spec fn replaced(log: Seq<EntryView>, prev_length: int, entries: Seq<EntryView>) -> Seq<EntryView> {
    log.take(prev_length) + entries
}

/// The log after a consistency-checked append.
pub open spec fn after_append(log: Seq<EntryView>, prev_length: int, prev_term: u64, entries: Seq<EntryView>) -> Seq<EntryView> {
    if !prefix_agrees(log, prev_length, prev_term) || already_present(log, prev_length, entries) {
        log
    } else {
        replaced(log, prev_length, entries)
    }
}

/// The replicated log.
pub struct WAL {
    entries: Vec<Entry>,
}

impl View for WAL {
    type V = Seq<EntryView>;

    closed spec fn view(&self) -> Seq<EntryView> {
        entries_view(self.entries@)
    }
}

impl WAL {
    /// An empty log.
    pub fn new() -> (r: WAL)
        ensures
            r@ == Seq::<EntryView>::empty(),
    {
        let r = WAL { entries: Vec::new() };
        assert(r@ =~= Seq::<EntryView>::empty());
        r
    }

    /// A log that holds the given entries, in order.
    pub fn from_entries(entries: Vec<Entry>) -> (r: WAL)
        ensures
            r@ == entries_view(entries@),
    {
        WAL { entries }
    }

    pub fn len(&self) -> (r: usize)
        ensures
            r == self@.len(),
    {
        self.entries.len()
    }

    pub fn as_slice(&self) -> (r: &[Entry])
        ensures
            entries_view(r@) == self@,
    {
        self.entries.as_slice()
    }

    /// Appends an entry at the tail and returns its index.
    pub fn propose_entry(&mut self, entry: Entry) -> (r: u64)
        ensures
            final(self)@ == old(self)@.push(entry@),
            r == old(self)@.len(),
    {
        let idx = self.entries.len() as u64;
        self.entries.push(entry);
        assert(entries_view(self.entries@) =~= entries_view(old(self).entries@).push(entry@));
        idx
    }

    fn present_from(&self, start: usize, entries: &[Entry]) -> (r: bool)
        requires
            start <= self@.len(),
        ensures
            r == already_present(self@, start as int, entries_view(entries@)),
    {
        let n = entries.len();
        if n > self.entries.len() - start {
            return false;
        }
        let total = self.entries.len();
        let mut i: usize = 0;
        while i < n
            invariant
                total == self.entries@.len(),
                i <= n,
                n == entries@.len(),
                start + n <= self@.len(),
                self@.len() == self.entries@.len(),
                forall|j: int|
                    0 <= j < i ==> self@[start + j] == #[trigger] entries_view(entries@)[j],
            decreases n - i,
        {
            if !self.entries[start + i].same(&entries[i]) {
                assert(self@.subrange(start as int, start + n)[i as int] != entries_view(
                    entries@,
                )[i as int]);
                return false;
            }
            assert(self@[start + i] == self.entries@[start + i]@);
            assert(entries_view(entries@)[i as int] == entries@[i as int]@);
            i = i + 1;
        }
        assert(self@.subrange(start as int, start + n) =~= entries_view(entries@));
        true
    }

    /// The follower-side append. Fails with `None` when the entry before `prev_length`
    /// is missing or from another term than `prev_term`; leaves the log as it is when it
    /// already holds `entries` from `prev_length` on; else cuts the log at `prev_length`
    /// and appends `entries`.
    pub fn append_entries(&mut self, prev_length: u64, prev_term: u64, entries: &[Entry]) -> (r:
        Option<Action>)
        ensures
            final(self)@ == after_append(
                old(self)@,
                prev_length as int,
                prev_term,
                entries_view(entries@),
            ),
            !prefix_agrees(old(self)@, prev_length as int, prev_term) ==> r is None,
            prefix_agrees(old(self)@, prev_length as int, prev_term) && already_present(
                old(self)@,
                prev_length as int,
                entries_view(entries@),
            ) ==> (r matches Some(Action::Id(n)) && n == old(self)@.len()),
            prefix_agrees(old(self)@, prev_length as int, prev_term) && !already_present(
                old(self)@,
                prev_length as int,
                entries_view(entries@),
            ) ==> (r matches Some(Action::Update(l, es)) && l == prev_length && entries_view(es@)
                == entries_view(entries@)),
    {
        let len = self.entries.len();
        if prev_length > len as u64 {
            return None;
        }
        let start = prev_length as usize;
        if start > 0 && self.entries[start - 1].term != prev_term {
            return None;
        }
        if self.present_from(start, entries) {
            return Some(Action::Id(len as u64));
        }
        self.entries.truncate(start);
        let mut copied: Vec<Entry> = Vec::new();
        let mut i: usize = 0;
        let ghost base = self.entries@;
        while i < entries.len()
            invariant
                i <= entries@.len(),
                base == old(self).entries@.take(start as int),
                entries_view(self.entries@) == entries_view(base) + entries_view(entries@).take(
                    i as int,
                ),
                entries_view(copied@) == entries_view(entries@).take(i as int),
            decreases entries@.len() - i,
        {
            let e = entries[i].copy();
            let e2 = entries[i].copy();
            assert(entries_view(entries@)[i as int] == entries@[i as int]@);
            let ghost before = self.entries@;
            self.entries.push(e);
            assert(entries_view(self.entries@) =~= entries_view(before).push(e@));
            assert(entries_view(entries@).take(i + 1) =~= entries_view(entries@).take(
                i as int,
            ).push(e@));
            copied.push(e2);
            assert(entries_view(self.entries@) =~= entries_view(base) + entries_view(
                entries@,
            ).take(i + 1));
            assert(entries_view(copied@) =~= entries_view(entries@).take(i + 1));
            i = i + 1;
        }
        assert(entries_view(entries@).take(i as int) =~= entries_view(entries@));
        assert(entries_view(base) =~= old(self)@.take(start as int));
        Some(Action::Update(prev_length, copied))
    }
}

/// Retransmitting an append is harmless: a second call with the same arguments finds
/// the entries in place, answers with the log's length, and leaves the log as the
/// first call left it.
pub proof fn lemma_append_idempotent(
    log: Seq<EntryView>,
    prev_length: int,
    prev_term: u64,
    entries: Seq<EntryView>,
)
    requires
        0 <= prev_length,
    ensures
        after_append(after_append(log, prev_length, prev_term, entries), prev_length, prev_term, entries)
            == after_append(log, prev_length, prev_term, entries),
        prefix_agrees(log, prev_length, prev_term) ==> {
            let once = after_append(log, prev_length, prev_term, entries);
            &&& prefix_agrees(once, prev_length, prev_term)
            &&& already_present(once, prev_length, entries)
        },
{
    if prefix_agrees(log, prev_length, prev_term) && !already_present(log, prev_length, entries) {
        let once = replaced(log, prev_length, entries);
        assert(once.subrange(prev_length, prev_length + entries.len()) =~= entries);
        if prev_length > 0 {
            assert(once[prev_length - 1] == log[prev_length - 1]);
        }
    }
}

} // verus!

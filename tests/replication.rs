use raftchat::state_machine::{SMWrapper, StateMachine, UserMessageIdMap};
use raftchat::wal::{Action, Command, Entry, WAL};

fn entry(term: u64, client: &str, id: u64) -> Entry {
    Entry {
        term,
        command: Some(Command {
            client_id: String::from(client),
            message_id: id,
            data: vec![id as u8, 7],
        }),
    }
}

fn noop(term: u64) -> Entry {
    Entry { term, command: None }
}

fn five() -> Vec<Entry> {
    vec![
        entry(1, "a", 1),
        entry(1, "b", 1),
        entry(1, "a", 2),
        entry(2, "b", 2),
        entry(2, "c", 1),
    ]
}

fn lookup(sm: &SMWrapper<UserMessageIdMap>, c: &str) -> Option<u64> {
    sm.state().get(&String::from(c))
}

#[test]
fn user_message_id_map_keeps_last_id() {
    let mut m = UserMessageIdMap::new();
    assert_eq!(m.get(&String::from("a")), None);
    m.apply(&Command { client_id: String::from("a"), message_id: 1, data: vec![] });
    m.apply(&Command { client_id: String::from("b"), message_id: 4, data: vec![] });
    m.apply(&Command { client_id: String::from("a"), message_id: 3, data: vec![] });
    assert_eq!(m.get(&String::from("a")), Some(3));
    assert_eq!(m.get(&String::from("b")), Some(4));
    let d = m.duplicate();
    assert_eq!(d.get(&String::from("a")), Some(3));
}

#[test]
fn wal_propose_returns_index() {
    let mut w = WAL::new();
    assert_eq!(w.propose_entry(entry(0, "a", 1)), 0);
    assert_eq!(w.propose_entry(noop(0)), 1);
    assert_eq!(w.len(), 2);
}

#[test]
fn wal_append_rejects_missing_or_mismatched_prefix() {
    let mut w = WAL::from_entries(five());
    assert!(w.append_entries(6, 2, &[entry(3, "d", 1)]).is_none());
    assert!(w.append_entries(3, 2, &[entry(3, "d", 1)]).is_none());
    assert_eq!(w.len(), 5);
}

#[test]
fn wal_append_present_entries_is_identity() {
    let mut w = WAL::from_entries(five());
    match w.append_entries(2, 1, &[entry(1, "a", 2)]) {
        Some(Action::Id(n)) => assert_eq!(n, 5),
        _ => panic!("expected Id"),
    }
    assert_eq!(w.len(), 5);
}

#[test]
fn wal_append_replaces_tail() {
    let mut w = WAL::from_entries(five());
    match w.append_entries(2, 1, &[entry(3, "d", 1)]) {
        Some(Action::Update(l, es)) => {
            assert_eq!(l, 2);
            assert_eq!(es.len(), 1);
        }
        _ => panic!("expected Update"),
    }
    assert_eq!(w.len(), 3);
    assert_eq!(w.as_slice()[2].term, 3);
}

#[test]
fn wrapper_new_replays_log() {
    let sm: SMWrapper<UserMessageIdMap> = SMWrapper::new(WAL::from_entries(five()));
    assert_eq!(lookup(&sm, "a"), Some(2));
    assert_eq!(lookup(&sm, "b"), Some(2));
    assert_eq!(lookup(&sm, "c"), Some(1));
    assert_eq!(sm.snapshot_length(), 0);
}

#[test]
fn wrapper_propose_applies_and_appends() {
    let mut sm: SMWrapper<UserMessageIdMap> = SMWrapper::new(WAL::new());
    assert_eq!(sm.propose_entry(entry(0, "a", 1)), 0);
    assert_eq!(sm.propose_entry(noop(0)), 1);
    assert_eq!(sm.propose_entry(entry(0, "a", 2)), 2);
    assert_eq!(lookup(&sm, "a"), Some(2));
    assert_eq!(sm.wal().len(), 3);
}

#[test]
fn append_entries_truncates_and_rebuilds_state() {
    let mut sm: SMWrapper<UserMessageIdMap> = SMWrapper::new(WAL::from_entries(five()));
    sm.take_snapshot(1);
    let r = sm.append_entries(2, 1, &[entry(3, "d", 1), entry(3, "a", 9)]);
    assert_eq!(r, Some(4));
    assert_eq!(sm.wal().len(), 4);
    assert_eq!(lookup(&sm, "a"), Some(9));
    assert_eq!(lookup(&sm, "b"), Some(1));
    assert_eq!(lookup(&sm, "c"), None);
    assert_eq!(lookup(&sm, "d"), Some(1));
}

#[test]
fn append_entries_twice_is_idempotent() {
    let mut sm: SMWrapper<UserMessageIdMap> = SMWrapper::new(WAL::from_entries(five()));
    let new = [entry(3, "d", 1)];
    assert_eq!(sm.append_entries(2, 1, &new), Some(3));
    let after_first = (lookup(&sm, "a"), lookup(&sm, "b"), lookup(&sm, "c"), lookup(&sm, "d"));
    assert_eq!(sm.append_entries(2, 1, &new), Some(3));
    let after_second = (lookup(&sm, "a"), lookup(&sm, "b"), lookup(&sm, "c"), lookup(&sm, "d"));
    assert_eq!(after_first, after_second);
    assert_eq!(sm.wal().len(), 3);
}

#[test]
fn append_entries_mismatch_changes_nothing() {
    let mut sm: SMWrapper<UserMessageIdMap> = SMWrapper::new(WAL::from_entries(five()));
    assert_eq!(sm.append_entries(4, 1, &[entry(3, "d", 1)]), None);
    assert_eq!(sm.wal().len(), 5);
    assert_eq!(lookup(&sm, "d"), None);
}

#[test]
fn heartbeat_append_reports_length() {
    let mut sm: SMWrapper<UserMessageIdMap> = SMWrapper::new(WAL::from_entries(five()));
    assert_eq!(sm.append_entries(5, 2, &[]), Some(5));
    assert_eq!(sm.append_entries(0, 0, &[]), Some(5));
}

#[test]
fn snapshot_then_replay_matches_full_replay() {
    let mut with_snapshot: SMWrapper<UserMessageIdMap> = SMWrapper::new(WAL::from_entries(five()));
    with_snapshot.take_snapshot(3);
    assert_eq!(with_snapshot.snapshot_length(), 3);
    with_snapshot.take_snapshot(3);
    // A replacement beyond the snapshot rebuilds the live state from it.
    with_snapshot.append_entries(4, 2, &[noop(2)]);
    let mut full = UserMessageIdMap::new();
    let mut all = five();
    all.truncate(4);
    all.push(noop(2));
    raftchat::state_machine::apply_entries(&mut full, &all);
    for c in ["a", "b", "c"] {
        assert_eq!(lookup(&with_snapshot, c), full.get(&String::from(c)));
    }
    assert_eq!(lookup(&with_snapshot, "c"), None);
}

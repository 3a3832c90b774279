use raftchat::publisher::Publisher;
use raftchat::sequencer::{ProposalRequest, Sequencer};

fn req(client: &str, id: u64) -> ProposalRequest {
    ProposalRequest { client_id: String::from(client), message_id: id, data: vec![1, 2, 3] }
}

#[test]
fn sequencer_accepts_in_order_and_drops_replays() {
    let mut s = Sequencer::new(0);
    let n = s.on_proposal(req("A", 1)).expect("first message commits");
    assert_eq!(n.log_index, 0);
    let c = n.command.expect("command");
    assert_eq!(c.client_id, "A");
    assert_eq!(c.message_id, 1);
    assert_eq!(c.data, vec![1, 2, 3]);
    assert!(s.on_proposal(req("A", 1)).is_none());
    assert_eq!(s.log_len(), 1);
    assert_eq!(s.on_proposal(req("A", 2)).expect("second").log_index, 1);
    assert_eq!(s.last_message_id(&String::from("A")), Some(2));
}

#[test]
fn sequencer_drops_out_of_order_and_keeps_clients_apart() {
    let mut s = Sequencer::new(3);
    assert!(s.on_proposal(req("A", 2)).is_none());
    assert!(s.on_proposal(req("B", 0)).is_none());
    assert_eq!(s.on_proposal(req("B", 1)).expect("b1").log_index, 0);
    assert_eq!(s.on_proposal(req("A", 1)).expect("a1").log_index, 1);
    assert!(s.on_proposal(req("A", 3)).is_none());
    assert_eq!(s.on_proposal(req("A", 2)).expect("a2").log_index, 2);
    assert_eq!(s.last_message_id(&String::from("C")), None);
}

#[test]
fn committed_ids_count_up_per_client() {
    let mut s = Sequencer::new(0);
    let mut seen = Vec::new();
    for id in [1u64, 1, 3, 2, 2, 3, 5, 4, 4] {
        if let Some(n) = s.on_proposal(req("A", id)) {
            seen.push(n.command.expect("command").message_id);
        }
    }
    assert_eq!(seen, vec![1, 2, 3, 4]);
}

#[test]
fn late_subscriber_catches_up_in_one_periodic_batch() {
    let mut s = Sequencer::new(0);
    let mut p = Publisher::new(0);
    assert_eq!(s.on_proposal(req("A", 1)).expect("a1").log_index, 0);
    assert!(p.on_commit().is_empty());
    assert!(s.on_proposal(req("A", 1)).is_none());
    assert_eq!(s.on_proposal(req("A", 2)).expect("a2").log_index, 1);
    assert!(p.on_commit().is_empty());
    p.register(String::from("sub"));
    let round = p.periodic_round();
    assert_eq!(round.len(), 1);
    assert_eq!(round[0].addr, "sub");
    assert_eq!((round[0].from, round[0].to), (0, 1));
    p.delivered(&String::from("sub"), 1);
    assert_eq!(p.cursor(&String::from("sub")), Some(2));
    assert!(p.periodic_round().is_empty());
}

#[test]
fn periodic_round_with_nothing_committed_is_empty() {
    let mut p = Publisher::new(0);
    p.register(String::from("x"));
    assert!(p.periodic_round().is_empty());
}

#[test]
fn event_round_covers_each_cursor_to_new_last_index() {
    let mut p = Publisher::new(3);
    p.register(String::from("x"));
    p.register(String::from("y"));
    p.set_cursor(&String::from("y"), 2);
    p.register(String::from("y"));
    assert_eq!(p.cursor(&String::from("y")), Some(2));
    let round = p.on_commit();
    assert_eq!(p.committed(), 4);
    assert_eq!(round.len(), 2);
    assert_eq!((round[0].addr.as_str(), round[0].from, round[0].to), ("x", 0, 3));
    assert_eq!((round[1].addr.as_str(), round[1].from, round[1].to), ("y", 2, 3));
}

#[test]
fn subscriber_ahead_of_log_gets_nothing() {
    let mut p = Publisher::new(2);
    p.register(String::from("x"));
    p.set_cursor(&String::from("x"), 5);
    assert!(p.periodic_round().is_empty());
}

#[test]
fn evicted_subscriber_gets_no_further_batches() {
    let mut p = Publisher::new(0);
    p.register(String::from("good"));
    p.register(String::from("bad"));
    let round = p.on_commit();
    assert_eq!(round.len(), 2);
    p.delivered(&String::from("good"), 0);
    p.evict(&String::from("bad"));
    assert!(!p.is_registered(&String::from("bad")));
    assert_eq!(p.subscriber_count(), 1);
    for _ in 0..3 {
        for d in p.on_commit() {
            assert_ne!(d.addr, "bad");
        }
    }
    for d in p.periodic_round() {
        assert_ne!(d.addr, "bad");
    }
    assert_eq!(p.cursor(&String::from("bad")), None);
}

use raftchat::election::PersistentState;

#[test]
fn new_state_is_term_zero_without_vote() {
    let s = PersistentState::new();
    assert_eq!(s.current_term(), 0);
    assert_eq!(s.voted_for(), None);
}

#[test]
fn start_election_bumps_term_and_votes_for_self() {
    let mut s = PersistentState::new();
    s.start_election("n1");
    assert_eq!(s.current_term(), 1);
    assert_eq!(s.voted_for(), Some(String::from("n1")));
    s.start_election("n1");
    assert_eq!(s.current_term(), 2);
}

#[test]
fn update_term_rejects_lower_term_and_keeps_vote() {
    let mut s = PersistentState::restore(5, Some(String::from("n2")));
    assert_eq!(s.update_term(3), (5, false));
    assert_eq!(s.current_term(), 5);
    assert_eq!(s.voted_for(), Some(String::from("n2")));
}

#[test]
fn update_term_accepts_higher_term_and_clears_vote() {
    let mut s = PersistentState::restore(5, Some(String::from("n2")));
    assert_eq!(s.update_term(7), (7, true));
    assert_eq!(s.current_term(), 7);
    assert_eq!(s.voted_for(), None);
}

#[test]
fn update_term_accepts_equal_term_and_clears_vote() {
    let mut s = PersistentState::restore(4, Some(String::from("n2")));
    assert_eq!(s.update_term(4), (4, true));
    assert_eq!(s.voted_for(), None);
}

#[test]
fn try_vote_grants_once_per_term() {
    let mut s = PersistentState::new();
    assert!(s.try_vote("a"));
    assert_eq!(s.voted_for(), Some(String::from("a")));
    assert!(s.try_vote("a"));
    assert!(!s.try_vote("b"));
    assert_eq!(s.voted_for(), Some(String::from("a")));
    s.update_term(1);
    assert!(s.try_vote("b"));
}

use devscan::kill::{KillSession, kill_failure_message, kill_spawn_failure_message};

#[test]
fn kill_session_walks_pids_in_order() {
    let mut s = KillSession::new(vec![10, 20, 30]);
    assert_eq!(s.pending(), Some(10));
    s.note_killed();
    assert_eq!(s.pending(), Some(20));
    s.note_killed();
    assert_eq!(s.pending(), Some(30));
    s.note_killed();
    assert_eq!(s.pending(), None);
    assert_eq!(s.failure(), None);
}

#[test]
fn kill_session_stops_at_first_failure() {
    let mut s = KillSession::new(vec![111, 222]);
    assert_eq!(s.pending(), Some(111));
    s.note_failed();
    // pid 222 is never offered for a kill attempt
    assert_eq!(s.pending(), None);
    assert_eq!(s.failure(), Some(111));
}

#[test]
fn kill_session_empty_list_finishes_at_once() {
    let s = KillSession::new(Vec::new());
    assert_eq!(s.pending(), None);
    assert_eq!(s.failure(), None);
}

#[test]
fn kill_failure_messages_name_the_pid() {
    assert_eq!(kill_failure_message(99, "denied"), "Failed to kill PID 99: denied");
    assert_eq!(
        kill_failure_message(4042310, ""),
        "Failed to kill PID 4042310: "
    );
    assert_eq!(
        kill_spawn_failure_message(0, "no such file"),
        "Failed to kill process 0: no such file"
    );
}

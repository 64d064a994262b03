use rehearsa::lock::{acquire_decision, lock_file_contents, parse_lock_pid, LockDecision};

#[test]
fn lock_file_round_trips_the_pid() {
    let content = lock_file_contents(4242, "host-a", "2026-01-02T03:04:05+00:00");
    assert_eq!(
        content,
        "pid: 4242\nhostname: host-a\ntimestamp: 2026-01-02T03:04:05+00:00\n"
    );
    assert_eq!(parse_lock_pid(&content), Some(4242));
}

#[test]
fn unreadable_lock_yields_no_pid() {
    assert_eq!(parse_lock_pid("gibberish"), None);
    assert_eq!(parse_lock_pid(""), None);
}

#[test]
fn creation_wins_and_contention_reports_the_holder() {
    // the caller whose exclusive create succeeded holds the lock
    assert!(matches!(acquire_decision(true, None, false), LockDecision::Acquired));
    // the other reads the live holder back and is told who holds it
    assert!(matches!(acquire_decision(false, Some(4242), true), LockDecision::Held(4242)));
}

#[test]
fn dead_or_unreadable_holders_are_reclaimed() {
    assert!(matches!(acquire_decision(false, Some(4242), false), LockDecision::Reclaim));
    assert!(matches!(acquire_decision(false, None, false), LockDecision::Reclaim));
}

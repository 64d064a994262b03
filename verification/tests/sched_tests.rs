use rehearsa::sched::{
    cron_expr_ok, cron_prev_fire, full_cron_expr, resolve_concurrency, scheduler_step,
    DaemonConfig, SchedulerAction,
};

#[test]
fn missed_slot_without_catch_up_is_recorded_not_fired() {
    // the daemon was down across two fire times; on restart the state
    // advances to the newest slot and nothing is dispatched
    let t2 = 2_000_000i64;
    let step = scheduler_step(Some(1_000_000), Some(t2), false);
    assert!(matches!(step, SchedulerAction::RecordOnly(t) if t == t2));
    // without catch-up, a later window is again recorded silently
    let t3 = 3_000_000i64;
    let next = scheduler_step(Some(t2), Some(t3), false);
    assert!(matches!(next, SchedulerAction::RecordOnly(t) if t == t3));
}

#[test]
fn missed_slot_with_catch_up_fires() {
    let step = scheduler_step(Some(1_000_000), Some(2_000_000), true);
    assert!(matches!(step, SchedulerAction::Fire(2_000_000)));
}

#[test]
fn covered_slot_skips() {
    assert!(matches!(scheduler_step(Some(2_000_000), Some(2_000_000), true), SchedulerAction::Skip));
    assert!(matches!(scheduler_step(Some(3_000_000), Some(2_000_000), false), SchedulerAction::Skip));
    assert!(matches!(scheduler_step(Some(1), None, true), SchedulerAction::Skip));
}

#[test]
fn first_evaluation_fires_the_latest_slot() {
    assert!(matches!(scheduler_step(None, Some(42), false), SchedulerAction::Fire(42)));
}

#[test]
fn repeated_evaluation_dispatches_at_most_once() {
    // evaluate, apply the state update, evaluate again: the second
    // pass must skip
    let fire = 2_000_000i64;
    let first = scheduler_step(Some(1_000_000), Some(fire), true);
    let new_state = match first {
        SchedulerAction::Fire(t) | SchedulerAction::RecordOnly(t) => Some(t),
        SchedulerAction::Skip => Some(1_000_000),
    };
    assert!(matches!(scheduler_step(new_state, Some(fire), true), SchedulerAction::Skip));
}

#[test]
fn cron_evaluation_finds_the_most_recent_fire() {
    // daily at 03:00; at noon on 2021-01-02 the most recent fire was
    // 03:00 that day
    let expr = full_cron_expr("0 3 * * *");
    assert_eq!(expr, "0 0 3 * * *");
    assert!(cron_expr_ok(&expr));
    assert!(!cron_expr_ok("not a schedule"));
    let noon = 1_609_588_800i64; // 2021-01-02T12:00:00+00:00
    let three = 1_609_556_400i64; // 2021-01-02T03:00:00+00:00
    assert_eq!(cron_prev_fire(&expr, noon), Some(three));
}

#[test]
fn concurrency_resolves_in_three_tiers() {
    let cfg_none = DaemonConfig { max_concurrent_rehearsals: None };
    let cfg_four = DaemonConfig { max_concurrent_rehearsals: Some(4) };
    let env = "8".to_string();
    assert_eq!(resolve_concurrency(Some(&env), &cfg_four), 8);
    assert_eq!(resolve_concurrency(None, &cfg_four), 4);
    assert_eq!(resolve_concurrency(None, &cfg_none), 1);
    let zero = "0".to_string();
    assert_eq!(resolve_concurrency(Some(&zero), &cfg_four), 4);
    let junk = "many".to_string();
    assert_eq!(resolve_concurrency(Some(&junk), &cfg_none), 1);
}

#[test]
fn unit_file_names_binary_and_user() {
    let unit = rehearsa::sched::generate_unit("deploy", "/usr/local/bin/rehearsa");
    assert!(unit.contains("ExecStart=/usr/local/bin/rehearsa daemon run"));
    assert!(unit.contains("User=deploy"));
    assert!(unit.starts_with("[Unit]\n"));
    assert!(unit.ends_with("WantedBy=multi-user.target\n"));
}

use rehearsa::baseline::BaselineDrift;
use rehearsa::policy::StackPolicy;
use rehearsa::record::RunRecord;
use rehearsa::report::{
    build_report, coverage_bar, resolve_output_path, score_bar, trend_of_window,
};

fn latest() -> RunRecord {
    RunRecord {
        stack: "web".to_string(),
        timestamp: "2026-01-05T00:00:00+00:00".to_string(),
        duration_seconds: 12,
        readiness: Some(95),
        confidence: 85,
        risk: "MODERATE".to_string(),
        exit_code: 0,
        services: vec![("api".to_string(), 85)],
        hash: None,
    }
}

#[test]
fn trend_reads_the_last_two_runs() {
    assert_eq!(trend_of_window(&vec![50, 60]), "UP");
    assert_eq!(trend_of_window(&vec![80, 60]), "DOWN");
    assert_eq!(trend_of_window(&vec![60, 60]), "SAME");
    assert_eq!(trend_of_window(&vec![60]), "INSUFFICIENT_DATA");
}

#[test]
fn report_verdict_warns_on_middling_confidence() {
    let r = build_report(
        &"web".to_string(),
        &"2026-01-05T01:00:00+00:00".to_string(),
        &"r-1".to_string(),
        &latest(),
        vec![],
        &vec![80, 85],
        82,
        None,
        None,
        None,
        None,
    );
    assert_eq!(r.summary.verdict, "WARN");
    assert_eq!(r.meta.scope, "stack");
    assert_eq!(r.baseline.status, "NO_BASELINE");
    assert_eq!(r.policy.verdict, "NOT_CONFIGURED");
    assert!(!r.summary.policy_violated);
    assert_eq!(r.history.trend, "UP");
}

#[test]
fn report_fails_on_policy_violation() {
    let policy = StackPolicy {
        min_confidence: Some(90),
        min_readiness: None,
        block_on_regression: None,
        fail_on_new_service_failure: None,
        fail_on_duration_spike: None,
        duration_spike_percent: None,
        fail_on_baseline_drift: None,
    };
    let r = build_report(
        &"web".to_string(),
        &"2026-01-05T01:00:00+00:00".to_string(),
        &"r-2".to_string(),
        &latest(),
        vec![],
        &vec![85],
        85,
        None,
        None,
        Some(&policy),
        None,
    );
    assert!(r.summary.policy_violated);
    assert_eq!(r.summary.verdict, "FAIL");
    assert_eq!(r.policy.verdict, "FAIL");
    assert_eq!(r.policy.checks.len(), 1);
    assert_eq!(r.policy.checks[0].result, "FAIL");
}

#[test]
fn report_flags_drift() {
    let drift = BaselineDrift {
        new_services: vec!["z".to_string()],
        missing_services: vec![],
        confidence_delta: 0,
        readiness_delta: None,
        duration_delta_percent: None,
    };
    let baseline = rehearsa::baseline::StackBaseline {
        stack: "web".to_string(),
        expected_services: vec!["api".to_string()],
        expected_confidence: 85,
        expected_readiness: Some(95),
        expected_duration: 12,
        service_scores: vec![("api".to_string(), 85)],
        pinned_at: None,
        promoted_at: None,
    };
    let r = build_report(
        &"web".to_string(),
        &"2026-01-05T01:00:00+00:00".to_string(),
        &"r-3".to_string(),
        &latest(),
        vec![],
        &vec![85],
        85,
        Some(&baseline),
        Some(drift),
        None,
        None,
    );
    assert!(r.summary.baseline_drift);
    assert_eq!(r.baseline.status, "DRIFT_DETECTED");
    assert_eq!(r.summary.verdict, "FAIL");
}

#[test]
fn bars_have_fixed_width() {
    assert_eq!(score_bar(100), "[##########]");
    assert_eq!(score_bar(50), "[#####.....]");
    assert_eq!(score_bar(0), "[..........]");
    assert_eq!(coverage_bar(100), "[####################]");
    assert_eq!(coverage_bar(25), "[#####...............]");
}

#[test]
fn output_paths_resolve() {
    assert_eq!(resolve_output_path(&None, false, "web", "json"), "-");
    assert_eq!(resolve_output_path(&None, false, "web", "pdf"), "web-report.pdf");
    assert_eq!(
        resolve_output_path(&Some("out/".to_string()), true, "web", "pdf"),
        "out/web-report.pdf"
    );
    assert_eq!(
        resolve_output_path(&Some("custom.json".to_string()), false, "web", "json"),
        "custom.json"
    );
}

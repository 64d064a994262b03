use rehearsa::baseline::{baseline_from_record, compare_to_baseline, drift_present, StackBaseline};
use rehearsa::engine::exit_code_of;
use rehearsa::record::RunRecord;

fn baseline_xy() -> StackBaseline {
    StackBaseline {
        stack: "shop".to_string(),
        expected_services: vec!["x".to_string(), "y".to_string()],
        expected_confidence: 92,
        expected_readiness: Some(100),
        expected_duration: 10,
        service_scores: vec![("x".to_string(), 92), ("y".to_string(), 92)],
        pinned_at: Some("2026-01-01T00:00:00+00:00".to_string()),
        promoted_at: Some("2026-01-01T01:00:00+00:00".to_string()),
    }
}

#[test]
fn added_service_appears_only_in_new_services() {
    // baseline {x,y}; current run has {x,y,z} at the same confidence
    let current = vec![
        ("x".to_string(), 92u32),
        ("y".to_string(), 92u32),
        ("z".to_string(), 92u32),
    ];
    let d = compare_to_baseline(&baseline_xy(), &current, 92, Some(100), 10);
    assert_eq!(d.new_services, vec!["z".to_string()]);
    assert!(d.missing_services.is_empty());
    assert_eq!(d.confidence_delta, 0);
    assert!(drift_present(&d));
    // without enforcement the run passes; with it, exit 5
    assert_eq!(exit_code_of(false, true, false, 92), 0);
    assert_eq!(exit_code_of(false, true, true, 92), 5);
}

#[test]
fn removed_service_appears_only_in_missing_services() {
    let current = vec![("x".to_string(), 92u32)];
    let d = compare_to_baseline(&baseline_xy(), &current, 92, Some(100), 10);
    assert!(d.new_services.is_empty());
    assert_eq!(d.missing_services, vec!["y".to_string()]);
}

#[test]
fn no_name_stands_in_both_lists() {
    let current = vec![("z".to_string(), 80u32)];
    let d = compare_to_baseline(&baseline_xy(), &current, 80, Some(100), 10);
    for n in &d.new_services {
        assert!(!d.missing_services.contains(n));
    }
    assert_eq!(d.new_services, vec!["z".to_string()]);
    let mut missing = d.missing_services.clone();
    missing.sort();
    assert_eq!(missing, vec!["x".to_string(), "y".to_string()]);
}

#[test]
fn deltas_are_current_minus_expected() {
    let current = vec![("x".to_string(), 80u32), ("y".to_string(), 80u32)];
    let d = compare_to_baseline(&baseline_xy(), &current, 80, Some(90), 15);
    assert_eq!(d.confidence_delta, -12);
    assert_eq!(d.readiness_delta, Some(-10));
    assert_eq!(d.duration_delta_percent, Some(50));
    assert!(drift_present(&d));
}

#[test]
fn identical_run_shows_no_drift() {
    let current = vec![("x".to_string(), 92u32), ("y".to_string(), 92u32)];
    let d = compare_to_baseline(&baseline_xy(), &current, 92, Some(100), 10);
    assert!(!drift_present(&d));
}

#[test]
fn zero_expected_duration_yields_no_duration_delta() {
    let mut b = baseline_xy();
    b.expected_duration = 0;
    let current = vec![("x".to_string(), 92u32), ("y".to_string(), 92u32)];
    let d = compare_to_baseline(&b, &current, 92, Some(100), 10);
    assert_eq!(d.duration_delta_percent, None);
}

#[test]
fn promoted_baseline_mirrors_the_run() {
    let rec = RunRecord {
        stack: "shop".to_string(),
        timestamp: "2026-02-03T04:05:06+00:00".to_string(),
        duration_seconds: 21,
        readiness: Some(95),
        confidence: 88,
        risk: "MODERATE".to_string(),
        exit_code: 0,
        services: vec![("x".to_string(), 88), ("y".to_string(), 88)],
        hash: None,
    };
    let now = "2026-02-03T05:00:00+00:00".to_string();
    let b = baseline_from_record(&"shop".to_string(), &rec, &now);
    assert_eq!(b.stack, "shop");
    assert_eq!(b.expected_services, vec!["x".to_string(), "y".to_string()]);
    assert_eq!(b.expected_confidence, 88);
    assert_eq!(b.expected_readiness, Some(95));
    assert_eq!(b.expected_duration, 21);
    assert_eq!(b.service_scores, rec.services);
    assert_eq!(b.pinned_at.as_deref(), Some("2026-02-03T04:05:06+00:00"));
    assert_eq!(b.promoted_at.as_deref(), Some("2026-02-03T05:00:00+00:00"));
}

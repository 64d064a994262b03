use rehearsa::history::{
    analyze_regression, calculate_stability, latest_index, ts_filename,
};
use rehearsa::record::RunRecord;

#[test]
fn latest_index_picks_greatest_timestamp() {
    let ts = vec![
        "2026-01-01T00:00:00+00:00".to_string(),
        "2026-03-01T00:00:00+00:00".to_string(),
        "2026-02-01T00:00:00+00:00".to_string(),
    ];
    assert_eq!(latest_index(&ts), Some(1));
    assert_eq!(latest_index(&Vec::new()), None);
}

#[test]
fn stability_is_mean_over_window() {
    let c = vec![10, 20, 90, 100];
    assert_eq!(calculate_stability(&c, 2), 95);
    assert_eq!(calculate_stability(&c, 10), 55);
    assert_eq!(calculate_stability(&Vec::new(), 5), 100);
}

fn prev_record(confidence: u32, readiness: Option<u32>, duration: u64) -> RunRecord {
    RunRecord {
        stack: "web".to_string(),
        timestamp: "2026-01-01T00:00:00+00:00".to_string(),
        duration_seconds: duration,
        readiness,
        confidence,
        risk: "LOW".to_string(),
        exit_code: 0,
        services: vec![],
        hash: None,
    }
}

#[test]
fn regression_deltas_and_trends() {
    let prev = prev_record(90, Some(80), 10);
    let r = analyze_regression(Some(&prev), 95, Some(70), 15);
    assert_eq!(r.previous_confidence, Some(90));
    assert_eq!(r.confidence_delta, Some(5));
    assert_eq!(r.confidence_trend.as_deref(), Some("UP"));
    assert_eq!(r.readiness_delta, Some(-10));
    assert_eq!(r.readiness_trend.as_deref(), Some("DOWN"));
    assert_eq!(r.duration_delta_percent, Some(50));
}

#[test]
fn regression_without_previous_run_is_empty() {
    let r = analyze_regression(None, 95, Some(70), 15);
    assert!(r.previous_confidence.is_none());
    assert!(r.confidence_delta.is_none());
    assert!(r.confidence_trend.is_none());
    assert!(r.readiness_delta.is_none());
    assert!(r.readiness_trend.is_none());
    assert!(r.duration_delta_percent.is_none());
}

#[test]
fn regression_same_confidence_is_flat() {
    let prev = prev_record(95, None, 0);
    let r = analyze_regression(Some(&prev), 95, Some(70), 15);
    assert_eq!(r.confidence_trend.as_deref(), Some("SAME"));
    assert_eq!(r.readiness_delta, None);
    // zero previous duration: no delta
    assert_eq!(r.duration_delta_percent, None);
}

#[test]
fn shorter_run_gives_negative_duration_delta() {
    let prev = prev_record(95, None, 10);
    let r = analyze_regression(Some(&prev), 95, None, 4);
    assert_eq!(r.duration_delta_percent, Some(-60));
}

#[test]
fn timestamp_filenames_are_filesystem_safe() {
    assert_eq!(
        ts_filename("2026-01-02T03:04:05+00:00"),
        "2026-01-02T03-04-05+00-00.json"
    );
    assert_eq!(ts_filename("plain"), "plain.json");
}

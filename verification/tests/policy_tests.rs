use rehearsa::policy::{evaluate_policy, StackPolicy};

fn empty_policy() -> StackPolicy {
    StackPolicy {
        min_confidence: None,
        min_readiness: None,
        block_on_regression: None,
        fail_on_new_service_failure: None,
        fail_on_duration_spike: None,
        duration_spike_percent: None,
        fail_on_baseline_drift: None,
    }
}

#[test]
fn min_confidence_gate_trips_below_threshold() {
    // threshold 90, actual 85: violated, the run still exits with 4
    let mut p = empty_policy();
    p.min_confidence = Some(90);
    let v = evaluate_policy(&p, 85, 100, &vec![], None, None);
    assert!(v.violated);
    assert_eq!(v.reasons.len(), 1);
    assert_eq!(rehearsa::engine::exit_code_of(v.violated, false, false, 85), 4);
    let ok = evaluate_policy(&p, 90, 100, &vec![], None, None);
    assert!(!ok.violated);
    assert!(ok.reasons.is_empty());
}

#[test]
fn min_readiness_gate() {
    let mut p = empty_policy();
    p.min_readiness = Some(80);
    assert!(evaluate_policy(&p, 100, 79, &vec![], None, None).violated);
    assert!(!evaluate_policy(&p, 100, 80, &vec![], None, None).violated);
}

#[test]
fn regression_gate_needs_negative_delta() {
    let mut p = empty_policy();
    p.block_on_regression = Some(true);
    assert!(evaluate_policy(&p, 80, 100, &vec![], Some(-1), None).violated);
    assert!(!evaluate_policy(&p, 80, 100, &vec![], Some(0), None).violated);
    assert!(!evaluate_policy(&p, 80, 100, &vec![], None, None).violated);
}

#[test]
fn service_failure_gate_fires_on_zero_score() {
    let mut p = empty_policy();
    p.fail_on_new_service_failure = Some(true);
    let failed = vec![("api".to_string(), 0u32), ("db".to_string(), 100u32)];
    let fine = vec![("api".to_string(), 85u32)];
    assert!(evaluate_policy(&p, 50, 100, &failed, None, None).violated);
    assert!(!evaluate_policy(&p, 85, 100, &fine, None, None).violated);
}

#[test]
fn duration_spike_uses_default_threshold_of_fifty() {
    let mut p = empty_policy();
    p.fail_on_duration_spike = Some(true);
    assert!(evaluate_policy(&p, 80, 100, &vec![], None, Some(51)).violated);
    assert!(!evaluate_policy(&p, 80, 100, &vec![], None, Some(50)).violated);
    p.duration_spike_percent = Some(10);
    assert!(evaluate_policy(&p, 80, 100, &vec![], None, Some(11)).violated);
}

#[test]
fn enforced_drift_exits_five_not_four() {
    // drift enforcement alone is not a policy violation: the run
    // exits 5, never 4
    let mut p = empty_policy();
    p.fail_on_baseline_drift = Some(true);
    let v = evaluate_policy(&p, 92, 100, &vec![], None, None);
    assert!(!v.violated);
    let fail_on_drift = p.fail_on_baseline_drift == Some(true);
    assert_eq!(rehearsa::engine::exit_code_of(v.violated, true, fail_on_drift, 92), 5);
    assert_eq!(rehearsa::engine::exit_code_of(v.violated, false, fail_on_drift, 92), 0);
}

#[test]
fn violations_accumulate() {
    let mut p = empty_policy();
    p.min_confidence = Some(90);
    p.min_readiness = Some(90);
    let v = evaluate_policy(&p, 10, 10, &vec![], None, None);
    assert!(v.violated);
    assert_eq!(v.reasons.len(), 2);
}

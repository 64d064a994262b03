use rehearsa::engine::{
    apply_injection, build_run_record, confidence_of, container_name, exit_code_of, image_action,
    is_ephemeral_name, network_name, poll_outcome, risk_band, ContainerStatus, HealthStatus,
    ImageAction, PullPolicy,
};
use rehearsa::history::record_intact;

#[test]
fn poll_outcomes_follow_the_table() {
    assert_eq!(poll_outcome(&ContainerStatus::Running, &HealthStatus::Healthy), Some(100));
    assert_eq!(poll_outcome(&ContainerStatus::Running, &HealthStatus::Unhealthy), Some(40));
    assert_eq!(poll_outcome(&ContainerStatus::Running, &HealthStatus::NoHealthcheck), Some(85));
    assert_eq!(poll_outcome(&ContainerStatus::Running, &HealthStatus::Pending), None);
    assert_eq!(poll_outcome(&ContainerStatus::Exited, &HealthStatus::Pending), Some(0));
    assert_eq!(poll_outcome(&ContainerStatus::Dead, &HealthStatus::Pending), Some(0));
    assert_eq!(poll_outcome(&ContainerStatus::Other, &HealthStatus::Healthy), None);
}

#[test]
fn healthy_two_service_stack_scores_one_hundred() {
    // both services healthy: confidence 100, risk LOW, exit 0
    let scores = vec![("api".to_string(), 100u32), ("db".to_string(), 100u32)];
    let confidence = confidence_of(&scores);
    assert_eq!(confidence, 100);
    assert_eq!(risk_band(confidence), "LOW");
    assert_eq!(exit_code_of(false, false, false, confidence), 0);
}

#[test]
fn injected_failure_halves_confidence() {
    // api forced to zero: {api:0, db:100}, confidence 50, risk HIGH, exit 3
    let inject = Some("api".to_string());
    let api = apply_injection(100, &"api".to_string(), &inject);
    let db = apply_injection(100, &"db".to_string(), &inject);
    assert_eq!(api, 0);
    assert_eq!(db, 100);
    let scores = vec![("api".to_string(), api), ("db".to_string(), db)];
    let confidence = confidence_of(&scores);
    assert_eq!(confidence, 50);
    assert_eq!(risk_band(confidence), "HIGH");
    // confidence 50 sits in the soft-fail band
    assert_eq!(exit_code_of(false, false, false, confidence), 2);
}

#[test]
fn risk_bands_at_their_boundaries() {
    assert_eq!(risk_band(100), "LOW");
    assert_eq!(risk_band(90), "LOW");
    assert_eq!(risk_band(89), "MODERATE");
    assert_eq!(risk_band(70), "MODERATE");
    assert_eq!(risk_band(69), "HIGH");
    assert_eq!(risk_band(40), "HIGH");
    assert_eq!(risk_band(39), "CRITICAL");
    assert_eq!(risk_band(0), "CRITICAL");
}

#[test]
fn exit_codes_cover_every_band() {
    assert_eq!(exit_code_of(true, false, false, 100), 4);
    assert_eq!(exit_code_of(false, true, true, 100), 5);
    assert_eq!(exit_code_of(false, true, false, 92), 0);
    assert_eq!(exit_code_of(false, false, false, 70), 0);
    assert_eq!(exit_code_of(false, false, false, 69), 2);
    assert_eq!(exit_code_of(false, false, false, 40), 2);
    assert_eq!(exit_code_of(false, false, false, 39), 3);
}

#[test]
fn image_actions_follow_policy() {
    assert!(matches!(image_action(&PullPolicy::Always, true), ImageAction::Pull));
    assert!(matches!(image_action(&PullPolicy::Always, false), ImageAction::Pull));
    assert!(matches!(image_action(&PullPolicy::IfMissing, true), ImageAction::UseLocal));
    assert!(matches!(image_action(&PullPolicy::IfMissing, false), ImageAction::Pull));
    assert!(matches!(image_action(&PullPolicy::Never, true), ImageAction::UseLocal));
    assert!(matches!(image_action(&PullPolicy::Never, false), ImageAction::Fail));
}

#[test]
fn run_resources_carry_the_run_id() {
    assert_eq!(network_name("abc123"), "rehearsa_stack_abc123");
    assert_eq!(container_name("abc123", "db"), "rehearsa_abc123_db");
}

#[test]
fn built_record_is_sealed_and_banded() {
    let rec = build_run_record(
        "web".to_string(),
        "2026-01-02T03:04:05+00:00".to_string(),
        7,
        100,
        50,
        3,
        vec![("api".to_string(), 0), ("db".to_string(), 100)],
    );
    assert!(record_intact(&rec));
    assert_eq!(rec.risk, "HIGH");
    assert_eq!(rec.confidence, 50);
    assert!(rec.hash.is_some());
}

#[test]
fn cleanup_sweep_matches_only_rehearsal_names() {
    assert!(is_ephemeral_name("rehearsa_abc_db"));
    assert!(is_ephemeral_name("rehearsa_stack_abc"));
    assert!(!is_ephemeral_name("postgres"));
    assert!(!is_ephemeral_name(""));
}

use rehearsa::notify::{
    build_email_config, find_channel, resolve_channel, summary_event, webhook_payload,
    EmailProvider, NotifyChannel, NotifyEvent, NotifyRegistry, Severity,
};

#[test]
fn events_map_to_their_severities() {
    assert!(matches!(NotifyEvent::RehearsalFatalError.severity(), Severity::Critical));
    assert!(matches!(NotifyEvent::ProviderVerificationFailed.severity(), Severity::Critical));
    assert!(matches!(NotifyEvent::PolicyViolation.severity(), Severity::Warning));
    assert!(matches!(NotifyEvent::BaselineDrift.severity(), Severity::Warning));
    assert!(matches!(NotifyEvent::RehearsalRecovered.severity(), Severity::Recovery));
}

#[test]
fn events_carry_their_labels() {
    assert_eq!(NotifyEvent::PolicyViolation.label(), "Policy Violation");
    assert_eq!(NotifyEvent::BaselineDrift.label(), "Baseline Drift Detected");
    assert_eq!(Severity::Critical.name(), "CRITICAL");
}

#[test]
fn summary_event_prefers_policy_over_drift() {
    assert!(matches!(summary_event(true, true), NotifyEvent::PolicyViolation));
    assert!(matches!(summary_event(false, true), NotifyEvent::BaselineDrift));
    assert!(matches!(summary_event(false, false), NotifyEvent::RehearsalRecovered));
}

#[test]
fn payload_fields_are_filled() {
    let p = webhook_payload(
        &NotifyEvent::PolicyViolation,
        &"web".to_string(),
        &"confidence 85 below 90".to_string(),
        &"2026-01-02T03:04:05+00:00".to_string(),
    );
    assert_eq!(p.source, "rehearsa");
    assert_eq!(p.severity, "WARNING");
    assert_eq!(p.event, "Policy Violation");
    assert_eq!(p.stack, "web");
}

fn channel(name: &str) -> NotifyChannel {
    NotifyChannel {
        name: name.to_string(),
        url: Some("https://example.invalid/hook".to_string()),
        secret: None,
        email: None,
    }
}

#[test]
fn per_stack_channel_wins_over_default() {
    let reg = NotifyRegistry {
        channels: vec![
            ("ops".to_string(), channel("ops")),
            ("night".to_string(), channel("night")),
        ],
        default_channel: Some("ops".to_string()),
    };
    let night = "night".to_string();
    assert_eq!(resolve_channel(&reg, Some(&night)).unwrap().name, "night");
    assert_eq!(resolve_channel(&reg, None).unwrap().name, "ops");
    let nothing = NotifyRegistry { channels: vec![], default_channel: None };
    assert!(resolve_channel(&nothing, None).is_none());
    assert!(find_channel(&reg, &"absent".to_string()).is_none());
}

#[test]
fn channel_transport_labels() {
    let c = channel("ops");
    assert_eq!(c.transport_label(), "webhook");
    let none = NotifyChannel { name: "x".to_string(), url: None, secret: None, email: None };
    assert_eq!(none.transport_label(), "none");
}

#[test]
fn email_channel_validation() {
    let ok = build_email_config(
        EmailProvider::Smtp,
        "alerts@example.invalid".to_string(),
        vec!["ops@example.invalid".to_string()],
        Some("mail.example.invalid".to_string()),
        Some(587),
        None,
        None,
        None,
        true,
        None,
        None,
    );
    assert!(ok.is_ok());
    let no_recipients = build_email_config(
        EmailProvider::Smtp,
        "a@example.invalid".to_string(),
        vec![],
        Some("mail.example.invalid".to_string()),
        None,
        None,
        None,
        None,
        true,
        None,
        None,
    );
    assert!(no_recipients.is_err());
    let no_host = build_email_config(
        EmailProvider::Smtp,
        "a@example.invalid".to_string(),
        vec!["b@example.invalid".to_string()],
        None,
        None,
        None,
        None,
        None,
        true,
        None,
        None,
    );
    assert!(no_host.is_err());
    let both_passwords = build_email_config(
        EmailProvider::Smtp,
        "a@example.invalid".to_string(),
        vec!["b@example.invalid".to_string()],
        Some("mail.example.invalid".to_string()),
        None,
        None,
        Some("SECRET-REDACTED".to_string()),
        Some("MAIL_PASSWORD".to_string()),
        true,
        None,
        None,
    );
    assert!(both_passwords.is_err());
    let api_key_missing = build_email_config(
        EmailProvider::Sendgrid,
        "a@example.invalid".to_string(),
        vec!["b@example.invalid".to_string()],
        None,
        None,
        None,
        None,
        None,
        true,
        None,
        None,
    );
    assert!(api_key_missing.is_err());
}

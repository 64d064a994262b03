use rehearsa::record::{record_from_json, record_to_json, RunRecord};
use rehearsa::history::{record_hash, record_intact, sealed_record, validate_stack_integrity};

fn sample_record() -> RunRecord {
    RunRecord {
        stack: "web".to_string(),
        timestamp: "2026-01-02T03:04:05+00:00".to_string(),
        duration_seconds: 12,
        readiness: Some(100),
        confidence: 100,
        risk: "LOW".to_string(),
        exit_code: 0,
        services: vec![("api".to_string(), 100), ("db".to_string(), 100)],
        hash: None,
    }
}

#[test]
fn record_renders_canonical_json() {
    let json = record_to_json(&sample_record());
    assert_eq!(
        json,
        "{\"stack\":\"web\",\"timestamp\":\"2026-01-02T03:04:05+00:00\",\"duration_seconds\":12,\
         \"readiness\":100,\"confidence\":100,\"risk\":\"LOW\",\"exit_code\":0,\
         \"services\":{\"api\":100,\"db\":100},\"hash\":null}"
    );
}

#[test]
fn record_round_trips_through_json() {
    let rec = sample_record();
    let json = record_to_json(&rec);
    let back = record_from_json(&json).expect("canonical document must parse");
    assert_eq!(back.stack, rec.stack);
    assert_eq!(back.timestamp, rec.timestamp);
    assert_eq!(back.duration_seconds, rec.duration_seconds);
    assert_eq!(back.readiness, rec.readiness);
    assert_eq!(back.confidence, rec.confidence);
    assert_eq!(back.risk, rec.risk);
    assert_eq!(back.exit_code, rec.exit_code);
    assert_eq!(back.services, rec.services);
    assert_eq!(back.hash, rec.hash);
}

#[test]
fn sealed_record_round_trips_and_negative_exit_parses() {
    let mut rec = sample_record();
    rec.exit_code = -7;
    rec.readiness = None;
    let sealed = sealed_record(&rec);
    let json = record_to_json(&sealed);
    let back = record_from_json(&json).expect("sealed document must parse");
    assert_eq!(back.exit_code, -7);
    assert_eq!(back.readiness, None);
    assert_eq!(back.hash, sealed.hash);
}

#[test]
fn tampered_json_is_rejected() {
    let json = record_to_json(&sample_record());
    let tampered = json.replace("\"confidence\":100", "\"confidence\":1o0");
    assert!(record_from_json(&tampered).is_none());
    assert!(record_from_json("not json at all").is_none());
    assert!(record_from_json("").is_none());
}

#[test]
fn record_digest_matches_reference_sha256() {
    // SHA-256 of the canonical document with the hash field cleared,
    // computed independently.
    let h = record_hash(&sample_record());
    assert_eq!(h, "a4a8f6bb2c966724a6f80d19f6f45c5bb6c1184b0fdc6478ddb33af30fcb9b05");
}

#[test]
fn integrity_check_accepts_sealed_and_rejects_tampered() {
    let sealed = sealed_record(&sample_record());
    assert!(record_intact(&sealed));
    let mut tampered = sealed_record(&sample_record());
    tampered.confidence = 99;
    assert!(!record_intact(&tampered));
    let records = vec![sealed, tampered];
    assert_eq!(validate_stack_integrity(&records), Err(1));
}

#[test]
fn unhashed_record_passes_integrity() {
    let rec = sample_record();
    assert!(record_intact(&rec));
}

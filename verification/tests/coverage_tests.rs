use rehearsa::baseline::BaselineDrift;
use rehearsa::coverage::{build_coverage, StackStanding};

fn drift_none() -> BaselineDrift {
    BaselineDrift {
        new_services: vec![],
        missing_services: vec![],
        confidence_delta: 0,
        readiness_delta: Some(0),
        duration_delta_percent: Some(0),
    }
}

#[test]
fn coverage_counts_every_category() {
    let standings = vec![
        StackStanding {
            stack: "honoured".to_string(),
            latest: Some((95, Some(100))),
            has_baseline: true,
            drift: Some(drift_none()),
        },
        StackStanding {
            stack: "drifted".to_string(),
            latest: Some((60, Some(80))),
            has_baseline: true,
            drift: Some(BaselineDrift { confidence_delta: -30, ..drift_none() }),
        },
        StackStanding {
            stack: "blind".to_string(),
            latest: Some((70, None)),
            has_baseline: false,
            drift: None,
        },
        StackStanding {
            stack: "new".to_string(),
            latest: None,
            has_baseline: false,
            drift: None,
        },
    ];
    let s = build_coverage(&standings);
    assert_eq!(s.total_watched, 4);
    assert_eq!(s.with_baseline, 2);
    assert_eq!(s.honouring_contract, 1);
    assert_eq!(s.uncontracted, 1);
    assert_eq!(s.never_rehearsed, 1);
    assert_eq!(s.coverage_pct, 25);
    assert_eq!(s.stacks[0].status, "CONTRACT_HONOURED");
    assert_eq!(s.stacks[1].status, "DRIFT_DETECTED");
    assert_eq!(s.stacks[2].status, "NO_BASELINE");
    assert_eq!(s.stacks[3].status, "NO_RUNS");
}

#[test]
fn small_noise_is_tolerated() {
    let standings = vec![StackStanding {
        stack: "steady".to_string(),
        latest: Some((90, Some(95))),
        has_baseline: true,
        drift: Some(BaselineDrift {
            confidence_delta: -5,
            readiness_delta: Some(-5),
            duration_delta_percent: Some(20),
            ..drift_none()
        }),
    }];
    let s = build_coverage(&standings);
    assert_eq!(s.stacks[0].status, "CONTRACT_HONOURED");
    assert_eq!(s.coverage_pct, 100);
}

#[test]
fn empty_fleet_has_zero_coverage() {
    let s = build_coverage(&vec![]);
    assert_eq!(s.total_watched, 0);
    assert_eq!(s.coverage_pct, 0);
}

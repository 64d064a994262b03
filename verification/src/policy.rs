//! Per-stack policy: thresholds and gates applied after scoring.

use vstd::prelude::*;
use vstd::string::StringExecFns;

verus! {

/// The optional thresholds a stack's operator may set.
pub struct StackPolicy {
    pub min_confidence: Option<u32>,
    pub min_readiness: Option<u32>,
    pub block_on_regression: Option<bool>,
    pub fail_on_new_service_failure: Option<bool>,
    pub fail_on_duration_spike: Option<bool>,
    pub duration_spike_percent: Option<u32>,
    pub fail_on_baseline_drift: Option<bool>,
}

/// What the policy evaluation decided: whether any rule was
/// violated, and one reason for each violated rule.
pub struct PolicyVerdict {
    pub violated: bool,
    pub reasons: Vec<String>,
}

pub open spec fn viol_min_confidence(p: &StackPolicy, confidence: u32) -> bool {
    p.min_confidence matches Some(m) && confidence < m
}

pub open spec fn viol_min_readiness(p: &StackPolicy, readiness: u32) -> bool {
    p.min_readiness matches Some(m) && readiness < m
}

pub open spec fn viol_regression(p: &StackPolicy, confidence_delta: Option<i32>) -> bool {
    p.block_on_regression == Some(true) && (confidence_delta matches Some(d) && d < 0)
}

pub open spec fn viol_service_failure(p: &StackPolicy, scores: Seq<(String, u32)>) -> bool {
    p.fail_on_new_service_failure == Some(true) && exists|i: int|
        0 <= i < scores.len() && (#[trigger] scores[i]).1 == 0
}

/// The duration-spike threshold: configured, or 50 percent.
pub open spec fn spike_threshold(p: &StackPolicy) -> int {
    match p.duration_spike_percent {
        Some(t) => t as int,
        None => 50,
    }
}

pub open spec fn viol_duration_spike(p: &StackPolicy, duration_delta_percent: Option<i64>) -> bool {
    p.fail_on_duration_spike == Some(true) && (duration_delta_percent matches Some(d) && d
        > spike_threshold(p))
}

/// Any gating rule is violated.  Baseline drift is deliberately not
/// here: enforced drift is its own outcome, with its own exit code
/// and notification, decided after the policy gate.
pub open spec fn policy_violated(
    p: &StackPolicy,
    confidence: u32,
    readiness: u32,
    scores: Seq<(String, u32)>,
    confidence_delta: Option<i32>,
    duration_delta_percent: Option<i64>,
) -> bool {
    ||| viol_min_confidence(p, confidence)
    ||| viol_min_readiness(p, readiness)
    ||| viol_regression(p, confidence_delta)
    ||| viol_service_failure(p, scores)
    ||| viol_duration_spike(p, duration_delta_percent)
}

/// Apply every configured gating rule to the finished run.  Rules
/// are additive: each violated rule contributes one reason.  Drift
/// enforcement is decided separately (it carries exit code 5 and its
/// own notification, not the policy gate's 4).
pub fn evaluate_policy(
    p: &StackPolicy,
    confidence: u32,
    readiness: u32,
    scores: &Vec<(String, u32)>,
    confidence_delta: Option<i32>,
    duration_delta_percent: Option<i64>,
) -> (v: PolicyVerdict)
    ensures
        v.violated == policy_violated(
            p,
            confidence,
            readiness,
            scores@,
            confidence_delta,
            duration_delta_percent,
        ),
        v.violated <==> v.reasons@.len() > 0,
{
    let mut reasons: Vec<String> = Vec::new();
    if match p.min_confidence {
        Some(m) => confidence < m,
        None => false,
    } {
        reasons.push(String::from_str("confidence below minimum"));
    }
    if match p.min_readiness {
        Some(m) => readiness < m,
        None => false,
    } {
        reasons.push(String::from_str("restore readiness below minimum"));
    }
    if match (p.block_on_regression, confidence_delta) {
        (Some(true), Some(d)) => d < 0,
        _ => false,
    } {
        reasons.push(String::from_str("confidence regression detected"));
    }
    if p.fail_on_new_service_failure == Some(true) && any_zero_score(scores) {
        reasons.push(String::from_str("a service failed to boot"));
    }
    if match (p.fail_on_duration_spike, duration_delta_percent) {
        (Some(true), Some(d)) => d > spike_threshold_exec(p) as i64,
        _ => false,
    } {
        reasons.push(String::from_str("duration spike over threshold"));
    }
    let violated = reasons.len() > 0;
    PolicyVerdict { violated, reasons }
}

/// Some service scored zero.
fn any_zero_score(scores: &Vec<(String, u32)>) -> (r: bool)
    ensures
        r == exists|i: int| 0 <= i < scores@.len() && (#[trigger] scores@[i]).1 == 0,
{
    let n = scores.len();
    let mut i: usize = 0;
    while i < n
        invariant
            0 <= i <= n,
            n == scores@.len(),
            forall|j: int| 0 <= j < i ==> (#[trigger] scores@[j]).1 != 0,
        decreases n - i,
    {
        if scores[i].1 == 0 {
            return true;
        }
        i = i + 1;
    }
    false
}

/// The configured spike threshold, or the default of 50 percent.
pub fn spike_threshold_exec(p: &StackPolicy) -> (r: u32)
    ensures
        r as int == spike_threshold(p),
{
    match p.duration_spike_percent {
        Some(t) => t,
        None => 50,
    }
}

} // verus!

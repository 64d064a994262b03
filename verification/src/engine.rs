//! The rehearsal executor's decisions: image policy, health scoring,
//! fault injection, confidence, risk banding, exit codes, resource
//! names, and the sealed run record.

use vstd::prelude::*;
use vstd::string::StrSliceExecFns;
use vstd::string::StringExecFns;
use crate::strutil::has_prefix;
use crate::strutil::str_has_prefix;
use crate::record::RunRecord;
use crate::history::sum_of;
use crate::history::sealed_record;
use crate::history::record_sealed;

verus! {

/// When to pull a service's image.
pub enum PullPolicy {
    Always,
    IfMissing,
    Never,
}

/// What to do about an image, given the policy and whether the image
/// is already present locally.
pub enum ImageAction {
    Pull,
    UseLocal,
    Fail,
}

/// The image decision table.
pub fn image_action(policy: &PullPolicy, present: bool) -> (a: ImageAction)
    ensures
        a == match policy {
            PullPolicy::Always => ImageAction::Pull,
            PullPolicy::IfMissing => if present {
                ImageAction::UseLocal
            } else {
                ImageAction::Pull
            },
            PullPolicy::Never => if present {
                ImageAction::UseLocal
            } else {
                ImageAction::Fail
            },
        },
{
    match policy {
        PullPolicy::Always => ImageAction::Pull,
        PullPolicy::IfMissing => if present {
            ImageAction::UseLocal
        } else {
            ImageAction::Pull
        },
        PullPolicy::Never => if present {
            ImageAction::UseLocal
        } else {
            ImageAction::Fail
        },
    }
}

/// One observation of a container's state.
pub enum ContainerStatus {
    Running,
    Exited,
    Dead,
    Other,
}

/// One observation of a container's health probe.
pub enum HealthStatus {
    Healthy,
    Unhealthy,
    NoHealthcheck,
    Pending,
}

/// The score a single observation decides, if it decides one: a
/// healthy running service scores 100, an unhealthy one 40, one with
/// no healthcheck 85, a stopped one 0; anything else waits.
pub open spec fn poll_outcome_spec(status: ContainerStatus, health: HealthStatus) -> Option<u32> {
    match status {
        ContainerStatus::Running => match health {
            HealthStatus::Healthy => Some(100u32),
            HealthStatus::Unhealthy => Some(40u32),
            HealthStatus::NoHealthcheck => Some(85u32),
            HealthStatus::Pending => None,
        },
        ContainerStatus::Exited => Some(0u32),
        ContainerStatus::Dead => Some(0u32),
        ContainerStatus::Other => None,
    }
}

/// Decide a service's score from one poll of its container, or keep
/// waiting.  A wait that exhausts the timeout scores 0.
pub fn poll_outcome(status: &ContainerStatus, health: &HealthStatus) -> (r: Option<u32>)
    ensures
        r == poll_outcome_spec(*status, *health),
        r matches Some(v) ==> v <= 100,
{
    match status {
        ContainerStatus::Running => match health {
            HealthStatus::Healthy => Some(100),
            HealthStatus::Unhealthy => Some(40),
            HealthStatus::NoHealthcheck => Some(85),
            HealthStatus::Pending => None,
        },
        ContainerStatus::Exited => Some(0),
        ContainerStatus::Dead => Some(0),
        ContainerStatus::Other => None,
    }
}

/// Fault injection: the targeted service's score is forced to zero.
pub fn apply_injection(score: u32, service: &String, inject: &Option<String>) -> (r: u32)
    ensures
        r == if (match inject {
            Some(t) => t@ == service@,
            None => false,
        }) {
            0u32
        } else {
            score
        },
        score <= 100 ==> r <= 100,
{
    match inject {
        Some(t) => {
            if t.eq(service) {
                0
            } else {
                score
            }
        },
        None => score,
    }
}

// ------------------------------------------------------------------
// Aggregation
// ------------------------------------------------------------------

pub open spec fn scores_of(s: Seq<(String, u32)>) -> Seq<u32> {
    s.map_values(|p: (String, u32)| p.1)
}

/// The integer mean of the service scores.
pub open spec fn confidence_spec(s: Seq<(String, u32)>) -> int {
    sum_of(scores_of(s)) / (s.len() as int)
}

/// Confidence is the integer mean of the per-service scores; with
/// every score in [0,100] it stays in [0,100].
pub fn confidence_of(scores: &Vec<(String, u32)>) -> (r: u32)
    requires
        scores@.len() >= 1,
        scores@.len() <= 0xffff_ffff,
        forall|i: int| 0 <= i < scores@.len() ==> (#[trigger] scores@[i]).1 <= 100,
    ensures
        r as int == confidence_spec(scores@),
        r <= 100,
{
    let n = scores.len();
    let mut total: u64 = 0;
    let mut i: usize = 0;
    while i < n
        invariant
            0 <= i <= n,
            1 <= n <= 0xffff_ffff,
            n == scores@.len(),
            forall|k: int| 0 <= k < n ==> (#[trigger] scores@[k]).1 <= 100,
            total == sum_of(scores_of(scores@).subrange(0, i as int)),
            total <= 100 * (i as int),
        decreases n - i,
    {
        proof {
            let sc = scores_of(scores@);
            assert(sc.subrange(0, i + 1).drop_last() =~= sc.subrange(0, i as int));
            assert(sc.subrange(0, i + 1).last() == sc[i as int]);
            assert(sc[i as int] == scores@[i as int].1);
        }
        total = total + scores[i].1 as u64;
        i = i + 1;
    }
    proof {
        assert(scores_of(scores@).subrange(0, n as int) =~= scores_of(scores@));
    }
    let count = n as u64;
    let mean = total / count;
    proof {
        assert(mean <= 100) by (nonlinear_arith)
            requires
                total <= 100 * count,
                count > 0,
                mean == total / count,
        ;
    }
    mean as u32
}

/// The risk band of a confidence score: 90 and up is LOW, 70 to 89
/// MODERATE, 40 to 69 HIGH, below 40 CRITICAL.
pub open spec fn risk_of(confidence: u32) -> Seq<char> {
    if confidence >= 90 {
        ("LOW")@
    } else if confidence >= 70 {
        ("MODERATE")@
    } else if confidence >= 40 {
        ("HIGH")@
    } else {
        ("CRITICAL")@
    }
}

/// Band a confidence score.
pub fn risk_band(confidence: u32) -> (r: String)
    ensures
        r@ == risk_of(confidence),
{
    if confidence >= 90 {
        String::from_str("LOW")
    } else if confidence >= 70 {
        String::from_str("MODERATE")
    } else if confidence >= 40 {
        String::from_str("HIGH")
    } else {
        String::from_str("CRITICAL")
    }
}

/// The process exit code of a finished rehearsal: 4 on a policy
/// violation (drift is not one: it has its own code); 5 on drift
/// when drift is enforced; otherwise banded by confidence (70 and up
/// passes with 0, 40 to 69 soft-fails with 2, below 40 hard-fails
/// with 3).
pub open spec fn exit_code_spec(
    policy_violated: bool,
    drift: bool,
    fail_on_drift: bool,
    confidence: u32,
) -> int {
    if policy_violated {
        4
    } else if drift && fail_on_drift {
        5
    } else if confidence >= 70 {
        0
    } else if confidence >= 40 {
        2
    } else {
        3
    }
}

/// Decide the exit code.
pub fn exit_code_of(policy_violated: bool, drift: bool, fail_on_drift: bool, confidence: u32) -> (r:
    i32)
    ensures
        r as int == exit_code_spec(policy_violated, drift, fail_on_drift, confidence),
{
    if policy_violated {
        4
    } else if drift && fail_on_drift {
        5
    } else if confidence >= 70 {
        0
    } else if confidence >= 40 {
        2
    } else {
        3
    }
}

// ------------------------------------------------------------------
// Resource names
// ------------------------------------------------------------------

/// The name of the run's ephemeral isolated network.
pub fn network_name(run_id: &str) -> (r: String)
    ensures
        r@ == ("rehearsa_stack_")@ + run_id@,
{
    let mut s = String::from_str("rehearsa_stack_");
    s.append(run_id);
    s
}

/// Whether a container or network name belongs to a rehearsal: the
/// cleanup sweep removes exactly these.
pub fn is_ephemeral_name(name: &str) -> (r: bool)
    ensures
        r == has_prefix(name@, ("rehearsa_")@),
{
    str_has_prefix(name, "rehearsa_")
}

/// The name of one service's container within a run.
pub fn container_name(run_id: &str, service: &str) -> (r: String)
    ensures
        r@ == ("rehearsa_")@ + run_id@ + ("_")@ + service@,
{
    let mut s = String::from_str("rehearsa_");
    s.append(run_id);
    s.append("_");
    s.append(service);
    s
}

// ------------------------------------------------------------------
// Record and summary assembly
// ------------------------------------------------------------------

/// What the executor hands back to its caller.
pub struct StackRunSummary {
    pub stack: String,
    pub readiness: u32,
    pub confidence: u32,
    pub duration: u64,
    pub risk: String,
    pub service_scores: Vec<(String, u32)>,
    pub policy_violated: bool,
    pub baseline_drift: bool,
}

/// Assemble and seal the run record: every field as given, the risk
/// banded from the confidence, and the hash field holding the
/// record's own content digest.
pub fn build_run_record(
    stack: String,
    timestamp: String,
    duration_seconds: u64,
    readiness: u32,
    confidence: u32,
    exit_code: i32,
    services: Vec<(String, u32)>,
) -> (out: RunRecord)
    ensures
        record_sealed(out@),
        out@.stack == stack@,
        out@.timestamp == timestamp@,
        out@.duration_seconds == duration_seconds,
        out@.readiness == Some(readiness),
        out@.confidence == confidence,
        out@.risk == risk_of(confidence),
        out@.exit_code == exit_code,
        out@.services == crate::record::svc_views(services@),
{
    let bare = RunRecord {
        stack,
        timestamp,
        duration_seconds,
        readiness: Some(readiness),
        confidence,
        risk: risk_band(confidence),
        exit_code,
        services,
        hash: None,
    };
    sealed_record(&bare)
}

} // verus!

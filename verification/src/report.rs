//! The compliance report: a pure assembly over the stores' data.
//! Rendering to JSON or PDF is a presentation concern outside the
//! library.

use vstd::prelude::*;
use vstd::string::StrSliceExecFns;
use vstd::string::StringExecFns;
use crate::record::RunRecord;
use crate::baseline::StackBaseline;
use crate::baseline::BaselineDrift;
use crate::baseline::drift_present_spec;
use crate::baseline::drift_present;
use crate::policy::StackPolicy;
use crate::provider::ProviderConfig;
use crate::strutil::push_char;

verus! {

/// The whole report.
pub struct ComplianceReport {
    pub meta: ReportMeta,
    pub summary: ReportSummary,
    pub rehearsal: RehearsalSection,
    pub history: HistorySection,
    pub baseline: BaselineSection,
    pub policy: PolicySection,
    pub preflight: PreflightSection,
    pub provider: ProviderSection,
}

pub struct ReportMeta {
    pub scope: String,
    pub target: String,
    pub generated_at: String,
    pub report_id: String,
}

pub struct ReportSummary {
    pub verdict: String,
    pub confidence: u32,
    pub readiness: u32,
    pub risk: String,
    pub stability: u32,
    pub policy_violated: bool,
    pub baseline_drift: bool,
    pub provider_ok: Option<bool>,
}

pub struct RehearsalSection {
    pub timestamp: String,
    pub duration_seconds: u64,
    pub confidence: u32,
    pub readiness: u32,
    pub risk: String,
    pub exit_code: i32,
    pub services: Vec<(String, u32)>,
}

pub struct HistorySection {
    pub window: usize,
    pub stability: u32,
    pub trend: String,
    pub runs: Vec<HistoryRun>,
}

pub struct HistoryRun {
    pub timestamp: String,
    pub confidence: u32,
    pub readiness: Option<u32>,
    pub duration_seconds: u64,
    pub risk: String,
    pub exit_code: i32,
}

pub struct BaselineSection {
    pub pinned: bool,
    pub status: String,
    pub expected_confidence: Option<u32>,
    pub expected_readiness: Option<u32>,
    pub expected_duration: Option<u64>,
    pub expected_services: Vec<String>,
    pub confidence_delta: Option<i32>,
    pub readiness_delta: Option<i32>,
    pub duration_delta_pct: Option<i64>,
    pub new_services: Vec<String>,
    pub missing_services: Vec<String>,
}

pub struct PolicySection {
    pub configured: bool,
    pub verdict: String,
    pub checks: Vec<PolicyCheck>,
}

pub struct PolicyCheck {
    pub rule: String,
    pub setting: String,
    pub result: String,
    pub detail: String,
}

pub struct PreflightSection {
    pub restore_readiness_score: u32,
    pub findings: Vec<PreflightFinding>,
}

/// A flattened finding for the report.
pub struct PreflightFinding {
    pub severity: String,
    pub message: String,
}

pub struct ProviderSection {
    pub attached: bool,
    pub name: Option<String>,
    pub kind: Option<String>,
    pub repository: Option<String>,
    pub verified: Option<bool>,
}

/// What a report is built over.
pub struct ReportOptions {
    pub stack: String,
    pub history_window: usize,
    pub provider_name: Option<String>,
}

/// How the report entry point was invoked.
pub struct ReportArgs {
    pub stack: Option<String>,
    pub format: ReportFormat,
    pub output: Option<String>,
    pub provider: Option<String>,
    pub window: usize,
}

pub enum ReportFormat {
    Json,
    Pdf,
    Both,
}

// ------------------------------------------------------------------
// Decisions
// ------------------------------------------------------------------

/// The trend over the last two runs of the window.
pub open spec fn trend_spec(confidences: Seq<u32>) -> Seq<char> {
    if confidences.len() < 2 {
        ("INSUFFICIENT_DATA")@
    } else if confidences.last() > confidences[confidences.len() - 2] {
        ("UP")@
    } else if confidences.last() < confidences[confidences.len() - 2] {
        ("DOWN")@
    } else {
        ("SAME")@
    }
}

/// The headline outcome: FAIL on a policy violation, drift, or low
/// confidence; WARN on middling confidence or a downward trend; else
/// PASS.
pub open spec fn verdict_spec(
    policy_violated: bool,
    baseline_drift: bool,
    confidence: u32,
    trend: Seq<char>,
) -> Seq<char> {
    if policy_violated || baseline_drift {
        ("FAIL")@
    } else if confidence < 70 {
        ("FAIL")@
    } else if confidence < 90 || trend == ("DOWN")@ {
        ("WARN")@
    } else {
        ("PASS")@
    }
}

/// Compute the trend tag from the window's confidences, oldest
/// first.
pub fn trend_of_window(confidences: &Vec<u32>) -> (r: String)
    ensures
        r@ == trend_spec(confidences@),
{
    let n = confidences.len();
    if n < 2 {
        String::from_str("INSUFFICIENT_DATA")
    } else if confidences[n - 1] > confidences[n - 2] {
        String::from_str("UP")
    } else if confidences[n - 1] < confidences[n - 2] {
        String::from_str("DOWN")
    } else {
        String::from_str("SAME")
    }
}

/// The baseline section's status label.
pub open spec fn baseline_status_spec(pinned: bool, drifted: bool) -> Seq<char> {
    if !pinned {
        ("NO_BASELINE")@
    } else if drifted {
        ("DRIFT_DETECTED")@
    } else {
        ("CONTRACT_HONOURED")@
    }
}

// ------------------------------------------------------------------
// Assembly
// ------------------------------------------------------------------

/// Build the baseline section from the comparison, when a baseline is
/// pinned.
pub fn baseline_section(baseline: Option<&StackBaseline>, drift: Option<BaselineDrift>) -> (s:
    BaselineSection)
    requires
        baseline is Some <==> drift is Some,
    ensures
        s.pinned == (baseline is Some),
        baseline is None ==> s.status@ == ("NO_BASELINE")@,
        baseline matches Some(b) ==> drift matches Some(d) ==> {
            &&& s.status@ == baseline_status_spec(true, drift_present_spec(&d))
            &&& s.expected_confidence == Some(b.expected_confidence)
            &&& s.expected_readiness == b.expected_readiness
            &&& s.expected_duration == Some(b.expected_duration)
            &&& s.confidence_delta == Some(d.confidence_delta)
            &&& s.readiness_delta == d.readiness_delta
            &&& s.duration_delta_pct == d.duration_delta_percent
        },
{
    match (baseline, drift) {
        (Some(b), Some(d)) => {
            let drifted = drift_present(&d);
            let status = if drifted {
                String::from_str("DRIFT_DETECTED")
            } else {
                String::from_str("CONTRACT_HONOURED")
            };
            BaselineSection {
                pinned: true,
                status,
                expected_confidence: Some(b.expected_confidence),
                expected_readiness: b.expected_readiness,
                expected_duration: Some(b.expected_duration),
                expected_services: crate::model::clone_strings(&b.expected_services),
                confidence_delta: Some(d.confidence_delta),
                readiness_delta: d.readiness_delta,
                duration_delta_pct: d.duration_delta_percent,
                new_services: d.new_services,
                missing_services: d.missing_services,
            }
        },
        _ => BaselineSection {
            pinned: false,
            status: String::from_str("NO_BASELINE"),
            expected_confidence: None,
            expected_readiness: None,
            expected_duration: None,
            expected_services: Vec::new(),
            confidence_delta: None,
            readiness_delta: None,
            duration_delta_pct: None,
            new_services: Vec::new(),
            missing_services: Vec::new(),
        },
    }
}

/// The check rows the report shows: one per configured rule, in the
/// fixed order, each with whether it passed.
pub open spec fn policy_rows(
    p: &StackPolicy,
    confidence: u32,
    readiness: u32,
    trend: Seq<char>,
    baseline_drift: bool,
    any_zero: bool,
) -> Seq<(Seq<char>, bool)> {
    (match p.min_confidence {
        Some(m) => seq![(("min_confidence")@, confidence >= m)],
        None => Seq::<(Seq<char>, bool)>::empty(),
    }) + (match p.min_readiness {
        Some(m) => seq![(("min_readiness")@, readiness >= m)],
        None => Seq::<(Seq<char>, bool)>::empty(),
    }) + (if p.block_on_regression == Some(true) {
        seq![(("block_on_regression")@, trend != ("DOWN")@)]
    } else {
        Seq::<(Seq<char>, bool)>::empty()
    }) + (if p.fail_on_baseline_drift == Some(true) {
        seq![(("fail_on_baseline_drift")@, !baseline_drift)]
    } else {
        Seq::<(Seq<char>, bool)>::empty()
    }) + (if p.fail_on_new_service_failure == Some(true) {
        seq![(("fail_on_new_service_failure")@, !any_zero)]
    } else {
        Seq::<(Seq<char>, bool)>::empty()
    })
}

/// Each row's rule name and whether its result reads PASS.
pub open spec fn rows_of(checks: Seq<PolicyCheck>) -> Seq<(Seq<char>, bool)> {
    checks.map_values(|c: PolicyCheck| (c.rule@, c.result@ == ("PASS")@))
}

/// Whether any configured policy rule fails for the latest run, as
/// the report judges it.
pub open spec fn report_policy_fail(
    p: &StackPolicy,
    confidence: u32,
    readiness: u32,
    trend: Seq<char>,
    baseline_drift: bool,
    any_zero: bool,
) -> bool {
    ||| (p.min_confidence matches Some(m) && confidence < m)
    ||| (p.min_readiness matches Some(m) && readiness < m)
    ||| (p.block_on_regression == Some(true) && trend == ("DOWN")@)
    ||| (p.fail_on_baseline_drift == Some(true) && baseline_drift)
    ||| (p.fail_on_new_service_failure == Some(true) && any_zero)
}

/// Build the policy section: one check per configured rule, PASS or
/// FAIL each, and an overall verdict that fails exactly when some
/// check does.
pub fn policy_section(
    policy: Option<&StackPolicy>,
    confidence: u32,
    readiness: u32,
    trend: &String,
    baseline_drift: bool,
    services: &Vec<(String, u32)>,
) -> (s: PolicySection)
    ensures
        s.configured == (policy is Some),
        policy is None ==> s.verdict@ == ("NOT_CONFIGURED")@ && s.checks@.len() == 0,
        policy matches Some(p) ==> s.verdict@ == (if report_policy_fail(
            p,
            confidence,
            readiness,
            trend@,
            baseline_drift,
            exists|i: int| 0 <= i < services@.len() && (#[trigger] services@[i]).1 == 0,
        ) {
            ("FAIL")@
        } else {
            ("PASS")@
        }),
        policy matches Some(p) ==> rows_of(s.checks@) == policy_rows(
            p,
            confidence,
            readiness,
            trend@,
            baseline_drift,
            exists|i: int| 0 <= i < services@.len() && (#[trigger] services@[i]).1 == 0,
        ),
{
    proof {
        reveal_strlit("DOWN");
        reveal_strlit("PASS");
        reveal_strlit("FAIL");
        assert(("PASS")@ != ("FAIL")@) by {
            assert(("PASS")@[0] == 'P' && ("FAIL")@[0] == 'F');
        }
    }
    let p = match policy {
        Some(p) => p,
        None => {
            return PolicySection {
                configured: false,
                verdict: String::from_str("NOT_CONFIGURED"),
                checks: Vec::new(),
            };
        },
    };
    let mut checks: Vec<PolicyCheck> = Vec::new();
    let mut any_fail = false;
    let ghost any_zero = exists|i: int|
        0 <= i < services@.len() && (#[trigger] services@[i]).1 == 0;
    match p.min_confidence {
        Some(m) => {
            let pass = confidence >= m;
            if !pass {
                any_fail = true;
            }
            checks.push(check_row("min_confidence", pass));
        },
        None => {},
    }
    proof {
        assert(any_fail == (p.min_confidence matches Some(m) && confidence < m));
    }
    match p.min_readiness {
        Some(m) => {
            let pass = readiness >= m;
            if !pass {
                any_fail = true;
            }
            checks.push(check_row("min_readiness", pass));
        },
        None => {},
    }
    if p.block_on_regression == Some(true) {
        let down = trend.eq(&String::from_str("DOWN"));
        if down {
            any_fail = true;
        }
        checks.push(check_row("block_on_regression", !down));
    }
    if p.fail_on_baseline_drift == Some(true) {
        if baseline_drift {
            any_fail = true;
        }
        checks.push(check_row("fail_on_baseline_drift", !baseline_drift));
    }
    if p.fail_on_new_service_failure == Some(true) {
        let failed = has_zero(services);
        if failed {
            any_fail = true;
        }
        checks.push(check_row("fail_on_new_service_failure", !failed));
    }
    let verdict = if any_fail {
        String::from_str("FAIL")
    } else {
        String::from_str("PASS")
    };
    proof {
        assert(rows_of(checks@) =~~= policy_rows(
            p,
            confidence,
            readiness,
            trend@,
            baseline_drift,
            any_zero,
        ));
    }
    PolicySection { configured: true, verdict, checks }
}

/// One row of the policy table.
fn check_row(rule: &str, pass: bool) -> (c: PolicyCheck)
    ensures
        c.rule@ == rule@,
        c.result@ == (if pass {
            ("PASS")@
        } else {
            ("FAIL")@
        }),
{
    PolicyCheck {
        rule: rule.to_owned(),
        setting: String::from_str("configured"),
        result: if pass {
            String::from_str("PASS")
        } else {
            String::from_str("FAIL")
        },
        detail: String::new(),
    }
}

/// Some service scored zero.
fn has_zero(services: &Vec<(String, u32)>) -> (r: bool)
    ensures
        r == exists|i: int| 0 <= i < services@.len() && (#[trigger] services@[i]).1 == 0,
{
    let n = services.len();
    let mut i: usize = 0;
    while i < n
        invariant
            0 <= i <= n,
            n == services@.len(),
            forall|j: int| 0 <= j < i ==> (#[trigger] services@[j]).1 != 0,
        decreases n - i,
    {
        if services[i].1 == 0 {
            return true;
        }
        i = i + 1;
    }
    false
}

/// The headline verdict.
pub fn report_verdict(
    policy_violated: bool,
    baseline_drift: bool,
    confidence: u32,
    trend: &String,
) -> (r: String)
    ensures
        r@ == verdict_spec(policy_violated, baseline_drift, confidence, trend@),
{
    proof {
        reveal_strlit("DOWN");
    }
    if policy_violated || baseline_drift {
        String::from_str("FAIL")
    } else if confidence < 70 {
        String::from_str("FAIL")
    } else if confidence < 90 || trend.eq(&String::from_str("DOWN")) {
        String::from_str("WARN")
    } else {
        String::from_str("PASS")
    }
}

// ------------------------------------------------------------------
// Score bars
// ------------------------------------------------------------------

/// `count` copies of one character.
pub open spec fn repeated(c: char, count: int) -> Seq<char>
    decreases count,
{
    if count <= 0 {
        Seq::<char>::empty()
    } else {
        repeated(c, count - 1).push(c)
    }
}

/// Append `count` copies of a character.
fn push_repeat(s: &mut String, c: char, count: usize)
    ensures
        final(s)@ == old(s)@ + repeated(c, count as int),
{
    let mut i: usize = 0;
    proof {
        assert(s@ =~= old(s)@ + repeated(c, 0));
    }
    while i < count
        invariant
            0 <= i <= count,
            s@ == old(s)@ + repeated(c, i as int),
        decreases count - i,
    {
        push_char(s, c);
        i = i + 1;
    }
}

/// A ten-cell bar for a score in [0,100]: one filled cell per ten
/// points, the rest empty, in brackets.
pub fn score_bar(score: u32) -> (r: String)
    requires
        score <= 100,
    ensures
        r@ == ("[")@ + repeated('#', (score / 10) as int) + repeated(
            '.',
            10 - (score / 10) as int,
        ) + ("]")@,
{
    let filled = score / 10;
    let empty = 10 - filled;
    let mut s = String::from_str("[");
    push_repeat(&mut s, '#', filled as usize);
    push_repeat(&mut s, '.', empty as usize);
    s.append("]");
    proof {
        assert(s@ =~= ("[")@ + repeated('#', (score / 10) as int) + repeated(
            '.',
            10 - (score / 10) as int,
        ) + ("]")@);
    }
    s
}

/// A twenty-cell coverage bar.
pub fn coverage_bar(pct: u32) -> (r: String)
    requires
        pct <= 100,
    ensures
        r@ == ("[")@ + repeated('#', ((pct as int) * 20) / 100) + repeated(
            '.',
            20 - ((pct as int) * 20) / 100,
        ) + ("]")@,
{
    let filled = ((pct as u64) * 20 / 100) as u32;
    proof {
        assert(filled <= 20) by (nonlinear_arith)
            requires
                pct <= 100,
                filled as int == ((pct as int) * 20) / 100,
        ;
    }
    let empty = 20 - filled;
    let mut s = String::from_str("[");
    push_repeat(&mut s, '#', filled as usize);
    push_repeat(&mut s, '.', empty as usize);
    s.append("]");
    proof {
        assert(s@ =~= ("[")@ + repeated('#', ((pct as int) * 20) / 100) + repeated(
            '.',
            20 - ((pct as int) * 20) / 100,
        ) + ("]")@);
    }
    s
}

// ------------------------------------------------------------------
// The report builder
// ------------------------------------------------------------------

/// Assemble a stack's compliance report from its stores' data: the
/// latest run, the windowed history (oldest first), the stability
/// value, the pinned baseline with its drift against the latest run,
/// the policy, and the provider, if attached.
pub fn build_report(
    target: &String,
    generated_at: &String,
    report_id: &String,
    latest: &RunRecord,
    window_runs: Vec<HistoryRun>,
    window_confidences: &Vec<u32>,
    stability: u32,
    baseline: Option<&StackBaseline>,
    drift: Option<BaselineDrift>,
    policy: Option<&StackPolicy>,
    provider: Option<&ProviderConfig>,
) -> (r: ComplianceReport)
    requires
        baseline is Some <==> drift is Some,
    ensures
        r.meta.target@ == target@,
        r.meta.scope@ == ("stack")@,
        r.rehearsal.timestamp@ == latest.timestamp@,
        r.rehearsal.confidence == latest.confidence,
        r.rehearsal.duration_seconds == latest.duration_seconds,
        r.rehearsal.exit_code == latest.exit_code,
        r.rehearsal.readiness == (match latest.readiness {
            Some(x) => x,
            None => 0u32,
        }),
        r.rehearsal.risk@ == latest.risk@,
        crate::record::svc_views(r.rehearsal.services@) == crate::record::svc_views(
            latest.services@,
        ),
        r.summary.risk@ == latest.risk@,
        r.summary.readiness == (match latest.readiness {
            Some(x) => x,
            None => 0u32,
        }),
        r.history.trend@ == trend_spec(window_confidences@),
        r.history.stability == stability,
        r.baseline.pinned == (baseline is Some),
        r.policy.configured == (policy is Some),
        r.summary.baseline_drift == (drift matches Some(d) && drift_present_spec(&d)),
        r.summary.policy_violated == (r.policy.verdict@ == ("FAIL")@),
        r.summary.verdict@ == verdict_spec(
            r.summary.policy_violated,
            r.summary.baseline_drift,
            latest.confidence,
            trend_spec(window_confidences@),
        ),
        r.summary.confidence == latest.confidence,
        r.summary.stability == stability,
        r.provider.attached == (provider is Some),
{
    proof {
        reveal_strlit("FAIL");
        reveal_strlit("PASS");
        reveal_strlit("NOT_CONFIGURED");
    }
    let meta = ReportMeta {
        scope: String::from_str("stack"),
        target: target.clone(),
        generated_at: generated_at.clone(),
        report_id: report_id.clone(),
    };
    let readiness = match latest.readiness {
        Some(x) => x,
        None => 0,
    };
    let mut services: Vec<(String, u32)> = Vec::new();
    let sn = latest.services.len();
    let mut si: usize = 0;
    while si < sn
        invariant
            0 <= si <= sn,
            sn == latest.services@.len(),
            services@.len() == si,
            forall|k: int|
                0 <= k < si ==> (#[trigger] services@[k]).0@ == latest.services@[k].0@
                    && services@[k].1 == latest.services@[k].1,
        decreases sn - si,
    {
        services.push((latest.services[si].0.clone(), latest.services[si].1));
        si = si + 1;
    }
    proof {
        assert(crate::record::svc_views(services@) =~= crate::record::svc_views(
            latest.services@,
        ));
    }
    let rehearsal = RehearsalSection {
        timestamp: latest.timestamp.clone(),
        duration_seconds: latest.duration_seconds,
        confidence: latest.confidence,
        readiness,
        risk: latest.risk.clone(),
        exit_code: latest.exit_code,
        services,
    };
    let trend = trend_of_window(window_confidences);
    let window = window_runs.len();
    let history = HistorySection { window, stability, trend: trend.clone(), runs: window_runs };
    let baseline_drifted = match &drift {
        Some(d) => drift_present(d),
        None => false,
    };
    let bsection = baseline_section(baseline, drift);
    let psection = policy_section(
        policy,
        latest.confidence,
        readiness,
        &trend,
        baseline_drifted,
        &latest.services,
    );
    let policy_violated = psection.verdict.eq(&String::from_str("FAIL"));
    proof {
        assert(("FAIL")@ != ("PASS")@ && ("FAIL")@ != ("NOT_CONFIGURED")@) by {
            assert(("FAIL")@.len() != ("PASS")@.len() || ("FAIL")@[0] != ("PASS")@[0]);
            assert(("FAIL")@.len() != ("NOT_CONFIGURED")@.len());
        }
    }
    let preflight = PreflightSection { restore_readiness_score: readiness, findings: Vec::new() };
    let provider_section = match provider {
        Some(p) => ProviderSection {
            attached: true,
            name: Some(p.name.clone()),
            kind: Some(p.kind.name().to_owned()),
            repository: Some(p.repository.clone()),
            verified: None,
        },
        None => ProviderSection {
            attached: false,
            name: None,
            kind: None,
            repository: None,
            verified: None,
        },
    };
    let verdict = report_verdict(policy_violated, baseline_drifted, latest.confidence, &trend);
    let summary = ReportSummary {
        verdict,
        confidence: latest.confidence,
        readiness,
        risk: latest.risk.clone(),
        stability,
        policy_violated,
        baseline_drift: baseline_drifted,
        provider_ok: None,
    };
    ComplianceReport {
        meta,
        summary,
        rehearsal,
        history,
        baseline: bsection,
        policy: psection,
        preflight,
        provider: provider_section,
    }
}

/// Where a rendered report goes: into a directory, to the named
/// file, or (for text output with no destination) to standard
/// output, written as "-".
pub fn resolve_output_path(output_arg: &Option<String>, output_is_dir: bool, stem: &str, ext: &str) -> (r:
    String)
    ensures
        output_arg matches Some(p) ==> (output_is_dir ==> r@ == p@ + stem@ + ("-report.")@ + ext@)
            && (!output_is_dir ==> r@ == p@),
        output_arg is None && ext@ == ("pdf")@ ==> r@ == stem@ + ("-report.pdf")@,
        output_arg is None && ext@ != ("pdf")@ ==> r@ == ("-")@,
{
    proof {
        reveal_strlit("pdf");
    }
    match output_arg {
        Some(path) => {
            if output_is_dir {
                let mut s = path.clone();
                s.append(stem);
                s.append("-report.");
                s.append(ext);
                proof {
                    assert(s@ =~= path@ + stem@ + ("-report.")@ + ext@);
                }
                s
            } else {
                path.clone()
            }
        },
        None => {
            let is_pdf = str_eq_pdf(ext);
            if is_pdf {
                let mut s = String::from_str(stem);
                s.append("-report.pdf");
                proof {
                    assert(s@ =~= stem@ + ("-report.pdf")@);
                }
                s
            } else {
                String::from_str("-")
            }
        },
    }
}

/// Whether the extension is "pdf".
fn str_eq_pdf(ext: &str) -> (r: bool)
    ensures
        r == (ext@ == ("pdf")@),
{
    let e = ext.to_owned();
    let p = String::from_str("pdf");
    e.eq(&p)
}

} // verus!

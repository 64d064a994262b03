//! Fleet coverage: a read-only aggregation of which watched stacks
//! have history, a pinned contract, and an honoured one.

use vstd::prelude::*;
use vstd::string::StringExecFns;
use crate::baseline::BaselineDrift;

verus! {

/// Coverage status for a single stack.
pub struct StackCoverage {
    pub stack: String,
    pub watched: bool,
    pub has_baseline: bool,
    pub has_history: bool,
    pub status: String,
    pub confidence: Option<u32>,
    pub readiness: Option<u32>,
}

/// Fleet-wide coverage summary.
pub struct CoverageSummary {
    pub total_watched: usize,
    pub with_baseline: usize,
    pub honouring_contract: usize,
    pub uncontracted: usize,
    pub never_rehearsed: usize,
    pub coverage_pct: u32,
    pub stacks: Vec<StackCoverage>,
}

/// What is known of one watched stack when coverage is assembled.
pub struct StackStanding {
    pub stack: String,
    /// The latest run's confidence and readiness, if any run exists.
    pub latest: Option<(u32, Option<u32>)>,
    pub has_baseline: bool,
    /// The drift of the latest run against the baseline, when both
    /// exist.
    pub drift: Option<BaselineDrift>,
}

/// Coverage tolerates small noise: only a clearly lower score or a
/// larger duration swing counts as drift here.
pub open spec fn coverage_drifted(d: &BaselineDrift) -> bool {
    ||| d.new_services@.len() > 0
    ||| d.missing_services@.len() > 0
    ||| d.confidence_delta < -5
    ||| (d.readiness_delta matches Some(r) && r < -5)
    ||| (d.duration_delta_percent matches Some(p) && (p > 20 || p < -20))
}

/// The status label of one standing.
pub open spec fn status_of(s: &StackStanding) -> Seq<char> {
    match (s.latest, &s.drift) {
        (None, _) => ("NO_RUNS")@,
        (Some(_), None) => ("NO_BASELINE")@,
        (Some(_), Some(d)) => if coverage_drifted(d) {
            ("DRIFT_DETECTED")@
        } else {
            ("CONTRACT_HONOURED")@
        },
    }
}

/// Whether drift is tolerably small, as executable code.
pub fn coverage_drift_check(d: &BaselineDrift) -> (r: bool)
    ensures
        r == coverage_drifted(d),
{
    if d.new_services.len() > 0 {
        return true;
    }
    if d.missing_services.len() > 0 {
        return true;
    }
    if d.confidence_delta < -5 {
        return true;
    }
    match d.readiness_delta {
        Some(rd) => {
            if rd < -5 {
                return true;
            }
        },
        None => {},
    }
    match d.duration_delta_percent {
        Some(p) => {
            if p > 20 || p < -20 {
                return true;
            }
        },
        None => {},
    }
    false
}

/// How many standings have each status.
pub open spec fn count_with(stacks: Seq<StackStanding>, label: Seq<char>) -> int
    decreases stacks.len(),
{
    if stacks.len() == 0 {
        0
    } else {
        count_with(stacks.drop_last(), label) + if status_of(&stacks.last()) == label {
            1int
        } else {
            0int
        }
    }
}

pub open spec fn count_baselined(stacks: Seq<StackStanding>) -> int
    decreases stacks.len(),
{
    if stacks.len() == 0 {
        0
    } else {
        count_baselined(stacks.drop_last()) + if stacks.last().has_baseline {
            1int
        } else {
            0int
        }
    }
}

pub open spec fn count_never(stacks: Seq<StackStanding>) -> int
    decreases stacks.len(),
{
    if stacks.len() == 0 {
        0
    } else {
        count_never(stacks.drop_last()) + if stacks.last().latest is None {
            1int
        } else {
            0int
        }
    }
}

pub open spec fn count_uncontracted(stacks: Seq<StackStanding>) -> int
    decreases stacks.len(),
{
    if stacks.len() == 0 {
        0
    } else {
        count_uncontracted(stacks.drop_last()) + if stacks.last().latest is Some
            && !stacks.last().has_baseline {
            1int
        } else {
            0int
        }
    }
}

/// The status label, scores, and whether the contract is honoured,
/// for one standing.
fn classify(st: &StackStanding) -> (r: (String, Option<u32>, Option<u32>, bool))
    ensures
        r.0@ == status_of(st),
        r.1 == match st.latest {
            Some((c, _)) => Some(c),
            None => None::<u32>,
        },
        r.2 == match st.latest {
            Some((_, rd)) => rd,
            None => None::<u32>,
        },
        r.3 == (status_of(st) == ("CONTRACT_HONOURED")@),
{
    proof {
        reveal_strlit("NO_RUNS");
        reveal_strlit("NO_BASELINE");
        reveal_strlit("DRIFT_DETECTED");
        reveal_strlit("CONTRACT_HONOURED");
    }
    match (&st.latest, &st.drift) {
        (None, _) => (String::from_str("NO_RUNS"), None, None, false),
        (Some((c, r)), None) => (String::from_str("NO_BASELINE"), Some(*c), *r, false),
        (Some((c, r)), Some(d)) => {
            if coverage_drift_check(d) {
                (String::from_str("DRIFT_DETECTED"), Some(*c), *r, false)
            } else {
                (String::from_str("CONTRACT_HONOURED"), Some(*c), *r, true)
            }
        },
    }
}

/// Assemble fleet coverage from the per-stack standings, in the
/// order given.
pub fn build_coverage(standings: &Vec<StackStanding>) -> (s: CoverageSummary)
    requires
        standings@.len() <= 0xffff_ffff,
    ensures
        s.total_watched == standings@.len(),
        s.stacks@.len() == standings@.len(),
        forall|i: int|
            0 <= i < standings@.len() ==> (#[trigger] s.stacks@[i]).status@ == status_of(
                &standings@[i],
            ) && s.stacks@[i].stack@ == standings@[i].stack@ && s.stacks@[i].watched
                && s.stacks@[i].has_baseline == standings@[i].has_baseline
                && s.stacks@[i].has_history == (standings@[i].latest is Some),
        s.with_baseline as int == count_baselined(standings@),
        s.honouring_contract as int == count_with(standings@, ("CONTRACT_HONOURED")@),
        s.uncontracted as int == count_uncontracted(standings@),
        s.never_rehearsed as int == count_never(standings@),
        standings@.len() > 0 ==> s.coverage_pct as int == (count_with(
            standings@,
            ("CONTRACT_HONOURED")@,
        ) * 100) / (standings@.len() as int),
        standings@.len() == 0 ==> s.coverage_pct == 0,
        s.coverage_pct <= 100,
{
    proof {
        reveal_strlit("NO_RUNS");
        reveal_strlit("NO_BASELINE");
        reveal_strlit("DRIFT_DETECTED");
        reveal_strlit("CONTRACT_HONOURED");
    }
    let n = standings.len();
    let mut stacks: Vec<StackCoverage> = Vec::new();
    let mut with_baseline: usize = 0;
    let mut honouring: usize = 0;
    let mut uncontracted: usize = 0;
    let mut never: usize = 0;
    let mut i: usize = 0;
    while i < n
        invariant
            0 <= i <= n,
            n <= 0xffff_ffff,
            n == standings@.len(),
            stacks@.len() == i,
            forall|k: int|
                0 <= k < i ==> (#[trigger] stacks@[k]).status@ == status_of(&standings@[k])
                    && stacks@[k].stack@ == standings@[k].stack@ && stacks@[k].watched
                    && stacks@[k].has_baseline == standings@[k].has_baseline
                    && stacks@[k].has_history == (standings@[k].latest is Some),
            with_baseline as int == count_baselined(standings@.take(i as int)),
            honouring as int == count_with(standings@.take(i as int), ("CONTRACT_HONOURED")@),
            uncontracted as int == count_uncontracted(standings@.take(i as int)),
            never as int == count_never(standings@.take(i as int)),
            with_baseline <= i && honouring <= i && uncontracted <= i && never <= i,
        decreases n - i,
    {
        let st = &standings[i];
        let (status, confidence, readiness, is_honouring) = classify(st);
        let has_history = st.latest.is_some();
        if st.has_baseline {
            with_baseline = with_baseline + 1;
        }
        if is_honouring {
            honouring = honouring + 1;
        }
        if has_history && !st.has_baseline {
            uncontracted = uncontracted + 1;
        }
        if !has_history {
            never = never + 1;
        }
        stacks.push(
            StackCoverage {
                stack: st.stack.clone(),
                watched: true,
                has_baseline: st.has_baseline,
                has_history,
                status,
                confidence,
                readiness,
            },
        );
        proof {
            assert(standings@.take(i + 1).drop_last() =~= standings@.take(i as int));
            assert(standings@.take(i + 1).last() == standings@[i as int]);
        }
        i = i + 1;
    }
    proof {
        assert(standings@.take(n as int) =~= standings@);
    }
    let coverage_pct: u32 = if n > 0 {
        let pct = ((honouring as u64) * 100) / (n as u64);
        proof {
            assert(pct as int == ((honouring as int) * 100) / (n as int));
            assert(pct <= 100) by (nonlinear_arith)
                requires
                    honouring <= n,
                    0 < n,
                    pct as int == ((honouring as int) * 100) / (n as int),
            ;
        }
        pct as u32
    } else {
        0
    };
    CoverageSummary {
        total_watched: n,
        with_baseline,
        honouring_contract: honouring,
        uncontracted,
        never_rehearsed: never,
        coverage_pct,
        stacks,
    }
}

} // verus!

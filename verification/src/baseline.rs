//! The pinned baseline contract and the drift comparison against a
//! current run.

use vstd::prelude::*;
use crate::graph::name_in;
use crate::record::RunRecord;
use crate::record::svc_views;
use crate::history::duration_delta_spec;
use crate::model::clone_strings;

verus! {

/// The pinned contract for one stack.
pub struct StackBaseline {
    pub stack: String,
    pub expected_services: Vec<String>,
    pub expected_confidence: u32,
    pub expected_readiness: Option<u32>,
    pub expected_duration: u64,
    pub service_scores: Vec<(String, u32)>,
    pub pinned_at: Option<String>,
    pub promoted_at: Option<String>,
}

/// One entry of the per-stack baseline version log.
pub struct BaselineHistoryEntry {
    pub promoted_at: String,
    pub pinned_at: Option<String>,
    pub expected_confidence: u32,
    pub expected_readiness: Option<u32>,
    pub expected_duration: u64,
    pub expected_services: Vec<String>,
    pub service_scores: Vec<(String, u32)>,
}

/// How a current run differs from the pinned contract.
pub struct BaselineDrift {
    pub new_services: Vec<String>,
    pub missing_services: Vec<String>,
    pub confidence_delta: i32,
    pub readiness_delta: Option<i32>,
    pub duration_delta_percent: Option<i64>,
}

/// A name stands among the current services.
pub open spec fn in_current(current: Seq<(String, u32)>, name: Seq<char>) -> bool {
    exists|i: int| 0 <= i < current.len() && (#[trigger] current[i]).0@ == name
}

/// Linear scan for a name among a run's services.
fn current_has(current: &Vec<(String, u32)>, name: &String) -> (r: bool)
    ensures
        r == in_current(current@, name@),
{
    let n = current.len();
    let mut i: usize = 0;
    while i < n
        invariant
            0 <= i <= n,
            n == current@.len(),
            forall|j: int| 0 <= j < i ==> (#[trigger] current@[j]).0@ != name@,
        decreases n - i,
    {
        if current[i].0.eq(name) {
            return true;
        }
        i = i + 1;
    }
    false
}

/// Linear scan for a name in a plain list.
fn list_has(list: &Vec<String>, name: &String) -> (r: bool)
    ensures
        r == name_in(list@, name@),
{
    let n = list.len();
    let mut i: usize = 0;
    while i < n
        invariant
            0 <= i <= n,
            n == list@.len(),
            forall|j: int| 0 <= j < i ==> (#[trigger] list@[j])@ != name@,
        decreases n - i,
    {
        if list[i].eq(name) {
            return true;
        }
        i = i + 1;
    }
    false
}

/// Compare a finished run against the pinned contract.
///
/// The drift names each current service missing from the contract
/// (`new_services`) and each expected service the run lacks
/// (`missing_services`); no name can appear in both.  The deltas are
/// current minus expected: the readiness delta only when both sides
/// have a readiness, the duration delta only when the expected
/// duration is positive.
pub fn compare_to_baseline(
    baseline: &StackBaseline,
    current_services: &Vec<(String, u32)>,
    current_confidence: u32,
    current_readiness: Option<u32>,
    current_duration: u64,
) -> (d: BaselineDrift)
    requires
        current_confidence <= 100,
        baseline.expected_confidence <= 100,
        current_readiness matches Some(n) ==> n <= 100,
        baseline.expected_readiness matches Some(n) ==> n <= 100,
        current_duration <= 92_233_720_368_547_758,
        baseline.expected_duration <= 92_233_720_368_547_758,
    ensures
        forall|k: int|
            0 <= k < d.new_services@.len() ==> in_current(
                current_services@,
                (#[trigger] d.new_services@[k])@,
            ) && !name_in(baseline.expected_services@, d.new_services@[k]@),
        forall|i: int|
            0 <= i < current_services@.len() && !name_in(
                baseline.expected_services@,
                (#[trigger] current_services@[i]).0@,
            ) ==> name_in(d.new_services@, current_services@[i].0@),
        forall|k: int|
            0 <= k < d.missing_services@.len() ==> name_in(
                baseline.expected_services@,
                (#[trigger] d.missing_services@[k])@,
            ) && !in_current(current_services@, d.missing_services@[k]@),
        forall|i: int|
            0 <= i < baseline.expected_services@.len() && !in_current(
                current_services@,
                (#[trigger] baseline.expected_services@[i])@,
            ) ==> name_in(d.missing_services@, baseline.expected_services@[i]@),
        forall|k: int|
            0 <= k < d.new_services@.len() ==> !name_in(
                d.missing_services@,
                (#[trigger] d.new_services@[k])@,
            ),
        (forall|i1: int, i2: int|
            0 <= i1 < i2 < current_services@.len() ==> (#[trigger] current_services@[i1]).0@ != (
            #[trigger] current_services@[i2]).0@) ==> forall|a: int, b: int|
            0 <= a < b < d.new_services@.len() ==> (#[trigger] d.new_services@[a])@ != (
            #[trigger] d.new_services@[b])@,
        (forall|i1: int, i2: int|
            0 <= i1 < i2 < baseline.expected_services@.len() ==> (
            #[trigger] baseline.expected_services@[i1])@ != (
            #[trigger] baseline.expected_services@[i2])@) ==> forall|a: int, b: int|
            0 <= a < b < d.missing_services@.len() ==> (#[trigger] d.missing_services@[a])@ != (
            #[trigger] d.missing_services@[b])@,
        d.confidence_delta == current_confidence - baseline.expected_confidence,
        d.readiness_delta == match (current_readiness, baseline.expected_readiness) {
            (Some(c), Some(e)) => Some((c - e) as i32),
            _ => None::<i32>,
        },
        baseline.expected_duration > 0 ==> d.duration_delta_percent == Some(
            duration_delta_spec(current_duration, baseline.expected_duration) as i64,
        ),
        baseline.expected_duration == 0 ==> d.duration_delta_percent is None,
{
    let mut new_services: Vec<String> = Vec::new();
    let cn = current_services.len();
    let mut i: usize = 0;
    while i < cn
        invariant
            0 <= i <= cn,
            cn == current_services@.len(),
            forall|k: int|
                0 <= k < new_services@.len() ==> in_current(
                    current_services@,
                    (#[trigger] new_services@[k])@,
                ) && !name_in(baseline.expected_services@, new_services@[k]@),
            forall|j: int|
                0 <= j < i && !name_in(
                    baseline.expected_services@,
                    (#[trigger] current_services@[j]).0@,
                ) ==> name_in(new_services@, current_services@[j].0@),
            forall|k: int|
                0 <= k < new_services@.len() ==> exists|ii: int|
                    0 <= ii < i && (#[trigger] new_services@[k])@ == current_services@[ii].0@,
            (forall|i1: int, i2: int|
                0 <= i1 < i2 < current_services@.len() ==> (#[trigger] current_services@[i1]).0@
                    != (#[trigger] current_services@[i2]).0@) ==> forall|a: int, b: int|
                0 <= a < b < new_services@.len() ==> (#[trigger] new_services@[a])@ != (
                #[trigger] new_services@[b])@,
        decreases cn - i,
    {
        if !list_has(&baseline.expected_services, &current_services[i].0) {
            let name = current_services[i].0.clone();
            let ghost before = new_services@;
            new_services.push(name);
            proof {
                assert(in_current(current_services@, new_services@[new_services@.len() - 1]@));
                assert forall|j: int|
                    0 <= j < i + 1 && !name_in(
                        baseline.expected_services@,
                        (#[trigger] current_services@[j]).0@,
                    ) implies name_in(new_services@, current_services@[j].0@) by {
                    if j < i {
                        let m = choose|m: int|
                            0 <= m < before.len() && (#[trigger] before[m])@
                                == current_services@[j].0@;
                        assert(new_services@[m]@ == current_services@[j].0@);
                    } else {
                        assert(new_services@[new_services@.len() - 1]@
                            == current_services@[j].0@);
                    }
                }
                assert forall|k: int|
                    0 <= k < new_services@.len() implies exists|ii: int|
                    0 <= ii < i + 1 && (#[trigger] new_services@[k])@
                        == current_services@[ii].0@ by {
                    if k < new_services@.len() - 1 {
                        assert(new_services@[k] == before[k]);
                        let ii = choose|ii: int|
                            0 <= ii < i && (#[trigger] before[k])@ == current_services@[ii].0@;
                        assert(new_services@[k]@ == current_services@[ii].0@);
                    } else {
                        assert(new_services@[k]@ == current_services@[i as int].0@);
                    }
                }
                if forall|i1: int, i2: int|
                    0 <= i1 < i2 < current_services@.len() ==> (
                    #[trigger] current_services@[i1]).0@ != (
                    #[trigger] current_services@[i2]).0@ {
                    assert forall|a: int, b: int|
                        0 <= a < b < new_services@.len() implies (
                    #[trigger] new_services@[a])@ != (#[trigger] new_services@[b])@ by {
                        if b == new_services@.len() - 1 {
                            assert(new_services@[a] == before[a]);
                            let ii = choose|ii: int|
                                0 <= ii < i && (#[trigger] before[a])@
                                    == current_services@[ii].0@;
                            assert(new_services@[b]@ == current_services@[i as int].0@);
                            assert(current_services@[ii].0@ != current_services@[i as int].0@);
                        } else {
                            assert(new_services@[a] == before[a] && new_services@[b] == before[b]);
                        }
                    }
                }
            }
        }
        i = i + 1;
    }
    let mut missing_services: Vec<String> = Vec::new();
    let en = baseline.expected_services.len();
    let mut j: usize = 0;
    while j < en
        invariant
            0 <= j <= en,
            en == baseline.expected_services@.len(),
            forall|k: int|
                0 <= k < missing_services@.len() ==> name_in(
                    baseline.expected_services@,
                    (#[trigger] missing_services@[k])@,
                ) && !in_current(current_services@, missing_services@[k]@),
            forall|jj: int|
                0 <= jj < j && !in_current(
                    current_services@,
                    (#[trigger] baseline.expected_services@[jj])@,
                ) ==> name_in(missing_services@, baseline.expected_services@[jj]@),
            forall|k: int|
                0 <= k < missing_services@.len() ==> exists|ii: int|
                    0 <= ii < j && (#[trigger] missing_services@[k])@
                        == baseline.expected_services@[ii]@,
            (forall|i1: int, i2: int|
                0 <= i1 < i2 < baseline.expected_services@.len() ==> (
                #[trigger] baseline.expected_services@[i1])@ != (
                #[trigger] baseline.expected_services@[i2])@) ==> forall|a: int, b: int|
                0 <= a < b < missing_services@.len() ==> (#[trigger] missing_services@[a])@ != (
                #[trigger] missing_services@[b])@,
        decreases en - j,
    {
        if !current_has(current_services, &baseline.expected_services[j]) {
            let name = baseline.expected_services[j].clone();
            let ghost before = missing_services@;
            missing_services.push(name);
            proof {
                assert(name_in(
                    baseline.expected_services@,
                    missing_services@[missing_services@.len() - 1]@,
                )) by {
                    assert(baseline.expected_services@[j as int]@
                        == missing_services@[missing_services@.len() - 1]@);
                }
                assert forall|jj: int|
                    0 <= jj < j + 1 && !in_current(
                        current_services@,
                        (#[trigger] baseline.expected_services@[jj])@,
                    ) implies name_in(missing_services@, baseline.expected_services@[jj]@) by {
                    if jj < j {
                        let m = choose|m: int|
                            0 <= m < before.len() && (#[trigger] before[m])@
                                == baseline.expected_services@[jj]@;
                        assert(missing_services@[m]@ == baseline.expected_services@[jj]@);
                    } else {
                        assert(missing_services@[missing_services@.len() - 1]@
                            == baseline.expected_services@[jj]@);
                    }
                }
                assert forall|k: int|
                    0 <= k < missing_services@.len() implies exists|ii: int|
                    0 <= ii < j + 1 && (#[trigger] missing_services@[k])@
                        == baseline.expected_services@[ii]@ by {
                    if k < missing_services@.len() - 1 {
                        assert(missing_services@[k] == before[k]);
                        let ii = choose|ii: int|
                            0 <= ii < j && (#[trigger] before[k])@
                                == baseline.expected_services@[ii]@;
                        assert(missing_services@[k]@ == baseline.expected_services@[ii]@);
                    } else {
                        assert(missing_services@[k]@ == baseline.expected_services@[j as int]@);
                    }
                }
                if forall|i1: int, i2: int|
                    0 <= i1 < i2 < baseline.expected_services@.len() ==> (
                    #[trigger] baseline.expected_services@[i1])@ != (
                    #[trigger] baseline.expected_services@[i2])@ {
                    assert forall|a: int, b: int|
                        0 <= a < b < missing_services@.len() implies (
                    #[trigger] missing_services@[a])@ != (#[trigger] missing_services@[b])@ by {
                        if b == missing_services@.len() - 1 {
                            assert(missing_services@[a] == before[a]);
                            let ii = choose|ii: int|
                                0 <= ii < j && (#[trigger] before[a])@
                                    == baseline.expected_services@[ii]@;
                            assert(missing_services@[b]@
                                == baseline.expected_services@[j as int]@);
                            assert(baseline.expected_services@[ii]@
                                != baseline.expected_services@[j as int]@);
                        } else {
                            assert(missing_services@[a] == before[a] && missing_services@[b]
                                == before[b]);
                        }
                    }
                }
            }
        }
        j = j + 1;
    }
    let confidence_delta: i32 = current_confidence as i32 - baseline.expected_confidence as i32;
    let readiness_delta: Option<i32> = match (current_readiness, baseline.expected_readiness) {
        (Some(c), Some(e)) => Some(c as i32 - e as i32),
        _ => None,
    };
    let duration_delta_percent: Option<i64> = if baseline.expected_duration > 0 {
        if current_duration >= baseline.expected_duration {
            let diff: u64 = current_duration - baseline.expected_duration;
            Some(((diff * 100) / baseline.expected_duration) as i64)
        } else {
            let diff: u64 = baseline.expected_duration - current_duration;
            Some(-(((diff * 100) / baseline.expected_duration) as i64))
        }
    } else {
        None
    };
    proof {
        assert forall|k: int|
            0 <= k < new_services@.len() implies !name_in(
            missing_services@,
            (#[trigger] new_services@[k])@,
        ) by {
            if name_in(missing_services@, new_services@[k]@) {
                let m = choose|m: int|
                    0 <= m < missing_services@.len() && (#[trigger] missing_services@[m])@
                        == new_services@[k]@;
                assert(name_in(baseline.expected_services@, new_services@[k]@));
            }
        }
    }
    BaselineDrift {
        new_services,
        missing_services,
        confidence_delta,
        readiness_delta,
        duration_delta_percent,
    }
}

/// Drift is present exactly when a service set changed or any delta
/// is non-zero.
pub open spec fn drift_present_spec(d: &BaselineDrift) -> bool {
    ||| d.new_services@.len() > 0
    ||| d.missing_services@.len() > 0
    ||| d.confidence_delta != 0
    ||| (d.readiness_delta matches Some(r) && r != 0)
    ||| (d.duration_delta_percent matches Some(p) && p != 0)
}

/// Whether any drift is present.
pub fn drift_present(d: &BaselineDrift) -> (r: bool)
    ensures
        r == drift_present_spec(d),
{
    if d.new_services.len() > 0 {
        return true;
    }
    if d.missing_services.len() > 0 {
        return true;
    }
    if d.confidence_delta != 0 {
        return true;
    }
    match d.readiness_delta {
        Some(rd) => {
            if rd != 0 {
                return true;
            }
        },
        None => {},
    }
    match d.duration_delta_percent {
        Some(p) => {
            if p != 0 {
                return true;
            }
        },
        None => {},
    }
    false
}

/// Pin a run as the new baseline: the expected values are the run's
/// own, the pin time is the run's timestamp, the promotion time the
/// given wall-clock time.
pub fn baseline_from_record(stack: &String, r: &RunRecord, now: &String) -> (b: StackBaseline)
    ensures
        b.stack@ == stack@,
        b.expected_services@.len() == r.services@.len(),
        forall|i: int|
            0 <= i < r.services@.len() ==> (#[trigger] b.expected_services@[i])@ == r.services@[i].0@,
        b.expected_confidence == r.confidence,
        b.expected_readiness == r.readiness,
        b.expected_duration == r.duration_seconds,
        svc_views(b.service_scores@) == svc_views(r.services@),
        b.pinned_at matches Some(p) && p@ == r.timestamp@,
        b.promoted_at matches Some(p) && p@ == now@,
{
    let n = r.services.len();
    let mut names: Vec<String> = Vec::new();
    let mut scores: Vec<(String, u32)> = Vec::new();
    let mut i: usize = 0;
    while i < n
        invariant
            0 <= i <= n,
            n == r.services@.len(),
            names@.len() == i,
            scores@.len() == i,
            forall|k: int| 0 <= k < i ==> (#[trigger] names@[k])@ == r.services@[k].0@,
            forall|k: int|
                0 <= k < i ==> (#[trigger] scores@[k]).0@ == r.services@[k].0@ && scores@[k].1
                    == r.services@[k].1,
        decreases n - i,
    {
        names.push(r.services[i].0.clone());
        scores.push((r.services[i].0.clone(), r.services[i].1));
        i = i + 1;
    }
    proof {
        assert(svc_views(scores@) =~= svc_views(r.services@));
    }
    StackBaseline {
        stack: stack.clone(),
        expected_services: names,
        expected_confidence: r.confidence,
        expected_readiness: r.readiness,
        expected_duration: r.duration_seconds,
        service_scores: scores,
        pinned_at: Some(r.timestamp.clone()),
        promoted_at: Some(now.clone()),
    }
}

/// The version-log entry for a promotion.
pub fn history_entry_of(b: &StackBaseline, promoted_at: &String) -> (e: BaselineHistoryEntry)
    ensures
        e.promoted_at@ == promoted_at@,
        e.pinned_at == b.pinned_at,
        e.expected_confidence == b.expected_confidence,
        e.expected_readiness == b.expected_readiness,
        e.expected_duration == b.expected_duration,
        e.expected_services@.len() == b.expected_services@.len(),
        forall|i: int|
            0 <= i < b.expected_services@.len() ==> (#[trigger] e.expected_services@[i])@
                == b.expected_services@[i]@,
        svc_views(e.service_scores@) == svc_views(b.service_scores@),
{
    let n = b.service_scores.len();
    let mut scores: Vec<(String, u32)> = Vec::new();
    let mut i: usize = 0;
    while i < n
        invariant
            0 <= i <= n,
            n == b.service_scores@.len(),
            scores@.len() == i,
            forall|k: int|
                0 <= k < i ==> (#[trigger] scores@[k]).0@ == b.service_scores@[k].0@ && scores@[k].1
                    == b.service_scores@[k].1,
        decreases n - i,
    {
        scores.push((b.service_scores[i].0.clone(), b.service_scores[i].1));
        i = i + 1;
    }
    proof {
        assert(svc_views(scores@) =~= svc_views(b.service_scores@));
    }
    BaselineHistoryEntry {
        promoted_at: promoted_at.clone(),
        pinned_at: match &b.pinned_at {
            Some(p) => Some(p.clone()),
            None => None,
        },
        expected_confidence: b.expected_confidence,
        expected_readiness: b.expected_readiness,
        expected_duration: b.expected_duration,
        expected_services: clone_strings(&b.expected_services),
        service_scores: scores,
    }
}

} // verus!

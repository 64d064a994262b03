//! The history store's verified core: content digests over the
//! canonical record document, selection of the latest run, stability
//! and regression analytics.

use vstd::prelude::*;
use vstd::string::StrSliceExecFns;
use vstd::string::StringExecFns;
use crate::record::RunRecord;
use crate::record::RecordV;
use crate::record::record_json;
use crate::record::record_to_json;
use crate::record::json_safe;
use crate::strutil::lex_le;
use crate::strutil::str_lt;
use crate::strutil::lemma_lex_le_trans;
use crate::strutil::lemma_lex_asym;
use crate::strutil::lemma_lex_irrefl;
use crate::strutil::replaced;
use crate::strutil::str_replace_char;

verus! {

// ------------------------------------------------------------------
// Content digest
// ------------------------------------------------------------------

/// The SHA-256 digest of a string's UTF-8 bytes, written as lowercase
/// hex; a pure function of the input alone.
pub uninterp spec fn sha256_hex(data: Seq<char>) -> Seq<char>;

/// Relies on sha2's `Sha256` (`update`, `finalize`): the digest
/// depends on the input bytes alone; it is 32 bytes, printed here as
/// 64 lowercase hex characters, which need no JSON escaping.
#[verifier::external_body]
fn sha256_hex_of(data: &str) -> (r: String)
    ensures
        r@ == sha256_hex(data@),
        r@.len() == 64,
        json_safe(r@),
{
    let digest = <sha2::Sha256 as sha2::Digest>::digest(data.as_bytes());
    format!("{:x}", digest)
}

/// The record with its hash field cleared: the digest input.
pub open spec fn cleared(v: RecordV) -> RecordV {
    RecordV { hash: None, ..v }
}

/// The content digest of a record: the hash of its document with the
/// hash field cleared.
pub open spec fn record_digest(v: RecordV) -> Seq<char> {
    sha256_hex(record_json(cleared(v)))
}

/// A record whose hash field holds exactly its own content digest.
pub open spec fn record_sealed(v: RecordV) -> bool {
    v.hash matches Some(h) && h == record_digest(v)
}

/// A copy of a record with the hash field cleared.
fn cleared_copy(r: &RunRecord) -> (c: RunRecord)
    ensures
        c@ == cleared(r@),
{
    let mut svcs: Vec<(String, u32)> = Vec::new();
    let n = r.services.len();
    let mut i: usize = 0;
    while i < n
        invariant
            0 <= i <= n,
            n == r.services@.len(),
            svcs@ == r.services@.take(i as int),
        decreases n - i,
    {
        let name = r.services[i].0.clone();
        let score = r.services[i].1;
        svcs.push((name, score));
        proof {
            assert(svcs@ =~= r.services@.take(i + 1));
        }
        i = i + 1;
    }
    proof {
        assert(r.services@.take(n as int) =~= r.services@);
    }
    let c = RunRecord {
        stack: r.stack.clone(),
        timestamp: r.timestamp.clone(),
        duration_seconds: r.duration_seconds,
        readiness: r.readiness,
        confidence: r.confidence,
        risk: r.risk.clone(),
        exit_code: r.exit_code,
        services: svcs,
        hash: None,
    };
    proof {
        assert(c@ =~~= cleared(r@));
    }
    c
}

/// Compute the content digest of a record.  The stored hash field, if
/// any, plays no part.
pub fn record_hash(r: &RunRecord) -> (h: String)
    ensures
        h@ == record_digest(r@),
        h@.len() == 64,
        json_safe(h@),
{
    let c = cleared_copy(r);
    let doc = record_to_json(&c);
    sha256_hex_of(doc.as_str())
}

/// Fill the hash field of a record from the rest of its content.
pub fn sealed_record(r: &RunRecord) -> (out: RunRecord)
    ensures
        out@ == (RecordV { hash: Some(record_digest(r@)), ..r@ }),
        record_sealed(out@),
{
    let h = record_hash(r);
    let mut out = cleared_copy(r);
    out.hash = Some(h);
    proof {
        assert(out@ =~~= (RecordV { hash: Some(record_digest(r@)), ..r@ }));
        assert(cleared(out@) =~~= cleared(r@));
    }
    out
}

/// Re-derive the digest and compare it with the stored hash.  A
/// record without a hash field is accepted: there is nothing to hold
/// it to.
pub fn record_intact(r: &RunRecord) -> (ok: bool)
    ensures
        ok == match r@.hash {
            Some(h) => h == record_digest(r@),
            None => true,
        },
{
    match &r.hash {
        None => true,
        Some(stored) => {
            let d = record_hash(r);
            let eq = stored.eq(&d);
            proof {
                assert(cleared(r@) =~~= cleared(r@));
            }
            eq
        },
    }
}

/// Law: a sealed record always passes the integrity check, and its
/// stored hash is exactly the digest of the record with the hash
/// field cleared.
pub proof fn lemma_sealed_record_intact(v: RecordV)
    requires
        record_sealed(v),
    ensures
        v.hash matches Some(h) && h == sha256_hex(record_json(cleared(v))),
{
}

/// Check every record of a stack's history; report the index of the
/// first record whose stored hash does not match its content.
pub fn validate_stack_integrity(records: &Vec<RunRecord>) -> (r: Result<(), usize>)
    ensures
        r matches Err(i) ==> i < records@.len() && !(match records@[i as int]@.hash {
            Some(h) => h == record_digest(records@[i as int]@),
            None => true,
        }),
        r is Ok ==> forall|i: int|
            0 <= i < records@.len() ==> match (#[trigger] records@[i]@).hash {
                Some(h) => h == record_digest(records@[i]@),
                None => true,
            },
{
    let n = records.len();
    let mut i: usize = 0;
    while i < n
        invariant
            0 <= i <= n,
            n == records@.len(),
            forall|j: int|
                0 <= j < i ==> match (#[trigger] records@[j]@).hash {
                    Some(h) => h == record_digest(records@[j]@),
                    None => true,
                },
        decreases n - i,
    {
        if !record_intact(&records[i]) {
            return Err(i);
        }
        i = i + 1;
    }
    Ok(())
}

// ------------------------------------------------------------------
// File names
// ------------------------------------------------------------------

/// The on-disk file name for a run: the timestamp with each ':'
/// replaced by '-', then ".json".
pub fn ts_filename(ts: &str) -> (r: String)
    ensures
        r@ == replaced(ts@, ':', '-') + (".json")@,
{
    let mut s = str_replace_char(ts, ':', '-');
    s.append(".json");
    s
}

// ------------------------------------------------------------------
// Latest run
// ------------------------------------------------------------------

/// The index of the greatest timestamp, in lexicographic order; on
/// RFC 3339 timestamps that order is chronological.  This is the
/// record `load_latest` returns.
pub fn latest_index(timestamps: &Vec<String>) -> (r: Option<usize>)
    ensures
        r matches Some(i) ==> i < timestamps@.len() && forall|j: int|
            0 <= j < timestamps@.len() ==> lex_le(timestamps@[j]@, timestamps@[i as int]@),
        r is None <==> timestamps@.len() == 0,
{
    let n = timestamps.len();
    if n == 0 {
        return None;
    }
    let mut best: usize = 0;
    let mut i: usize = 1;
    proof {
        lemma_lex_irrefl(timestamps@[0]@);
    }
    while i < n
        invariant
            0 <= best < i <= n,
            n == timestamps@.len(),
            forall|j: int| 0 <= j < i ==> lex_le(timestamps@[j]@, timestamps@[best as int]@),
        decreases n - i,
    {
        if str_lt(timestamps[best].as_str(), timestamps[i].as_str()) {
            proof {
                lemma_lex_asym(timestamps@[best as int]@, timestamps@[i as int]@);
                assert forall|j: int|
                    0 <= j < i + 1 implies lex_le(timestamps@[j]@, timestamps@[i as int]@) by {
                    if j == i {
                        lemma_lex_irrefl(timestamps@[i as int]@);
                    } else {
                        lemma_lex_le_trans(
                            timestamps@[j]@,
                            timestamps@[best as int]@,
                            timestamps@[i as int]@,
                        );
                    }
                }
            }
            best = i;
        } else {
            proof {
                assert(lex_le(timestamps@[i as int]@, timestamps@[best as int]@));
            }
        }
        i = i + 1;
    }
    Some(best)
}

// ------------------------------------------------------------------
// Stability
// ------------------------------------------------------------------

pub open spec fn sum_of(s: Seq<u32>) -> int
    decreases s.len(),
{
    if s.len() == 0 {
        0
    } else {
        sum_of(s.drop_last()) + s.last()
    }
}

/// The mean of the last `window` confidences, 100 when there are
/// none.
pub open spec fn stability_spec(c: Seq<u32>, window: int) -> int {
    let recent = if c.len() <= window {
        c
    } else {
        c.skip(c.len() - window)
    };
    if recent.len() == 0 {
        100
    } else {
        sum_of(recent) / recent.len() as int
    }
}

proof fn lemma_sum_bound(s: Seq<u32>)
    requires
        forall|i: int| 0 <= i < s.len() ==> #[trigger] s[i] <= 100,
    ensures
        0 <= sum_of(s) <= 100 * s.len(),
    decreases s.len(),
{
    if s.len() > 0 {
        lemma_sum_bound(s.drop_last());
    }
}

/// Mean confidence over the most recent `window` runs; 100 with no
/// runs at all.  `confidences` is ordered oldest first.
pub fn calculate_stability(confidences: &Vec<u32>, window: usize) -> (r: u32)
    requires
        confidences@.len() <= 0xffff_ffff,
        forall|i: int| 0 <= i < confidences@.len() ==> #[trigger] confidences@[i] <= 100,
    ensures
        r == stability_spec(confidences@, window as int),
        r <= 100,
{
    let n = confidences.len();
    let from: usize = if n <= window {
        0
    } else {
        n - window
    };
    let ghost recent = if confidences@.len() <= window as int {
        confidences@
    } else {
        confidences@.skip(confidences@.len() - window as int)
    };
    proof {
        assert(recent =~= confidences@.skip(from as int));
    }
    if from == n {
        proof {
            assert(recent.len() == 0);
        }
        return 100;
    }
    let mut total: u64 = 0;
    let mut i: usize = from;
    while i < n
        invariant
            from <= i <= n,
            n <= 0xffff_ffff,
            n == confidences@.len(),
            forall|k: int| 0 <= k < n ==> #[trigger] confidences@[k] <= 100,
            total == sum_of(confidences@.subrange(from as int, i as int)),
            total <= 100 * (i - from),
        decreases n - i,
    {
        proof {
            assert(confidences@.subrange(from as int, i + 1).drop_last() =~= confidences@.subrange(
                from as int,
                i as int,
            ));
            assert(confidences@.subrange(from as int, i + 1).last() == confidences@[i as int]);
        }
        total = total + confidences[i] as u64;
        i = i + 1;
    }
    proof {
        assert(confidences@.subrange(from as int, n as int) =~= recent);
        lemma_sum_bound(recent);
    }
    let count = (n - from) as u64;
    let mean = total / count;
    proof {
        assert(total <= 100 * count);
        assert(mean <= 100) by (nonlinear_arith)
            requires
                total <= 100 * count,
                count > 0,
                mean == total / count,
        ;
    }
    mean as u32
}

// ------------------------------------------------------------------
// Regression analysis
// ------------------------------------------------------------------

/// How the current run compares with the previous one.
pub struct RegressionAnalysis {
    pub previous_confidence: Option<u32>,
    pub confidence_delta: Option<i32>,
    pub confidence_trend: Option<String>,
    pub previous_readiness: Option<u32>,
    pub readiness_delta: Option<i32>,
    pub readiness_trend: Option<String>,
    pub duration_delta_percent: Option<i64>,
}

/// The trend tag for a signed delta.
pub open spec fn trend_of(delta: int) -> Seq<char> {
    if delta > 0 {
        ("UP")@
    } else if delta < 0 {
        ("DOWN")@
    } else {
        ("SAME")@
    }
}

/// The trend tag for a signed delta.
pub fn trend_string(delta: i64) -> (r: String)
    ensures
        r@ == trend_of(delta as int),
{
    if delta > 0 {
        String::from_str("UP")
    } else if delta < 0 {
        String::from_str("DOWN")
    } else {
        String::from_str("SAME")
    }
}

/// The duration delta in percent: `(current - previous) * 100 /
/// previous`, rounded toward zero; defined only when the previous
/// duration is positive.
pub open spec fn duration_delta_spec(current: u64, previous: u64) -> int {
    if current >= previous {
        ((current - previous) * 100) / (previous as int)
    } else {
        -(((previous - current) * 100) / (previous as int))
    }
}

/// Compare the current scores against the previous run, if any.
///
/// Deltas are current minus previous; the readiness delta exists only
/// when both sides have a readiness; the duration delta exists only
/// when the previous duration is positive.
pub fn analyze_regression(
    previous: Option<&RunRecord>,
    current_confidence: u32,
    current_readiness: Option<u32>,
    current_duration: u64,
) -> (r: RegressionAnalysis)
    requires
        current_confidence <= 100,
        current_readiness matches Some(n) ==> n <= 100,
        current_duration <= 92_233_720_368_547_758,
        previous matches Some(p) ==> p@.confidence <= 100 && (p@.readiness matches Some(n) ==> n
            <= 100) && p@.duration_seconds <= 92_233_720_368_547_758,
    ensures
        previous is None ==> r.previous_confidence is None && r.confidence_delta is None
            && r.confidence_trend is None && r.previous_readiness is None && r.readiness_delta
            is None && r.readiness_trend is None && r.duration_delta_percent is None,
        previous matches Some(p) ==> {
            &&& r.previous_confidence == Some(p.confidence)
            &&& r.confidence_delta == Some(
                (current_confidence - p.confidence) as i32,
            )
            &&& (r.confidence_trend matches Some(t) && t@ == trend_of(
                current_confidence - p.confidence,
            ))
            &&& r.previous_readiness == p.readiness
            &&& (match (current_readiness, p@.readiness) {
                (Some(c), Some(q)) => r.readiness_delta == Some((c - q) as i32) && (
                r.readiness_trend matches Some(t) && t@ == trend_of(c - q)),
                _ => r.readiness_delta is None && r.readiness_trend is None,
            })
            &&& (p.duration_seconds > 0 ==> r.duration_delta_percent == Some(
                duration_delta_spec(current_duration, p.duration_seconds) as i64,
            ))
            &&& (p.duration_seconds == 0 ==> r.duration_delta_percent is None)
        },
{
    match previous {
        None => RegressionAnalysis {
            previous_confidence: None,
            confidence_delta: None,
            confidence_trend: None,
            previous_readiness: None,
            readiness_delta: None,
            readiness_trend: None,
            duration_delta_percent: None,
        },
        Some(p) => {
            let confidence_delta: i32 = current_confidence as i32 - p.confidence as i32;
            let confidence_trend = trend_string(confidence_delta as i64);
            let (readiness_delta, readiness_trend): (Option<i32>, Option<String>) = match (
                current_readiness,
                p.readiness,
            ) {
                (Some(c), Some(q)) => {
                    let d: i32 = c as i32 - q as i32;
                    (Some(d), Some(trend_string(d as i64)))
                },
                _ => (None, None),
            };
            let duration_delta_percent: Option<i64> = if p.duration_seconds > 0 {
                if current_duration >= p.duration_seconds {
                    let diff: u64 = current_duration - p.duration_seconds;
                    let pct: u64 = (diff * 100) / p.duration_seconds;
                    Some(pct as i64)
                } else {
                    let diff: u64 = p.duration_seconds - current_duration;
                    let pct: u64 = (diff * 100) / p.duration_seconds;
                    Some(-(pct as i64))
                }
            } else {
                None
            };
            RegressionAnalysis {
                previous_confidence: Some(p.confidence),
                confidence_delta: Some(confidence_delta),
                confidence_trend: Some(confidence_trend),
                previous_readiness: p.readiness,
                readiness_delta,
                readiness_trend,
                duration_delta_percent,
            }
        },
    }
}

} // verus!

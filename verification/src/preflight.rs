//! The preflight analyzer: a closed, ordered set of rules over the
//! stack and what the host was observed to have, each yielding
//! findings with fixed severities and penalties, folded into a
//! restore readiness score.

use vstd::prelude::*;
use vstd::string::StrSliceExecFns;
use vstd::string::StringExecFns;
use crate::model::ComposeFile;
use crate::strutil::has_prefix;
use crate::strutil::has_suffix;
use crate::strutil::is_substring;
use crate::strutil::str_has_prefix;
use crate::strutil::str_has_suffix;
use crate::strutil::str_contains;
use crate::graph::name_in;

verus! {

/// Severity of a finding.
pub enum Severity {
    Info,
    Warning,
    Critical,
}

/// One finding of one rule.
pub struct PreflightFinding {
    pub rule: String,
    pub severity: Severity,
    pub message: String,
    pub penalty: u32,
}

/// What preflight decided: the readiness score and every finding.
pub struct RestoreReadiness {
    pub score: u32,
    pub findings: Vec<PreflightFinding>,
}

/// The decided part of a finding: its rule, severity and penalty.
/// The message is advisory text and stays free.
#[verifier::ext_equal]
pub struct FindingV {
    pub rule: Seq<char>,
    pub severity: Severity,
    pub penalty: u32,
}

/// The decided parts of a finding list.
pub open spec fn sketch_of(f: Seq<PreflightFinding>) -> Seq<FindingV> {
    f.map_values(
        |x: PreflightFinding| FindingV { rule: x.rule@, severity: x.severity, penalty: x.penalty },
    )
}

/// What the bind-mount rule yields: per probed mount, Info with no
/// penalty when the path exists, Critical with penalty 25 when it
/// does not.
pub open spec fn bind_rule_findings(probes: Seq<(String, String, bool)>) -> Seq<FindingV> {
    Seq::new(
        probes.len(),
        |i: int|
            if probes[i].2 {
                FindingV { rule: ("BindMountRule")@, severity: Severity::Info, penalty: 0u32 }
            } else {
                FindingV { rule: ("BindMountRule")@, severity: Severity::Critical, penalty: 25u32 }
            },
    )
}

/// What the image rule yields for one probed image, in order: a
/// Warning with penalty 5 when the tag is unpinned, then a Critical
/// with penalty 30 when the pull failed.
pub open spec fn image_findings_one(img: Seq<char>, pull_failed: bool) -> Seq<FindingV> {
    (if unpinned_spec(img) {
        seq![FindingV { rule: ("ImagePullRule")@, severity: Severity::Warning, penalty: 5u32 }]
    } else {
        Seq::<FindingV>::empty()
    }) + (if pull_failed {
        seq![FindingV { rule: ("ImagePullRule")@, severity: Severity::Critical, penalty: 30u32 }]
    } else {
        Seq::<FindingV>::empty()
    })
}

/// What the image rule yields over a probe list.
pub open spec fn image_rule_findings(probes: Seq<(Seq<char>, bool)>) -> Seq<FindingV>
    decreases probes.len(),
{
    if probes.len() == 0 {
        Seq::<FindingV>::empty()
    } else {
        image_rule_findings(probes.drop_last()) + image_findings_one(
            probes.last().0,
            probes.last().1,
        )
    }
}

/// What the env rule yields: per bare key, Info with no penalty when
/// the host has it, Critical with penalty 20 when it does not.
pub open spec fn env_rule_findings(probes: Seq<(String, String, bool)>) -> Seq<FindingV> {
    Seq::new(
        probes.len(),
        |i: int|
            if probes[i].2 {
                FindingV { rule: ("EnvVarRule")@, severity: Severity::Info, penalty: 0u32 }
            } else {
                FindingV { rule: ("EnvVarRule")@, severity: Severity::Critical, penalty: 20u32 }
            },
    )
}

/// What the network rule yields: nothing when the runtime could not
/// be queried; else, per declared external network, Info when the
/// host has it, Critical with penalty 25 when it does not.
pub open spec fn net_rule_findings(external: Seq<String>, host: Option<Seq<String>>) -> Seq<
    FindingV,
> {
    match host {
        None => Seq::<FindingV>::empty(),
        Some(h) => Seq::new(
            external.len(),
            |i: int|
                if name_in(h, external[i]@) {
                    FindingV {
                        rule: ("ExternalNetworkRule")@,
                        severity: Severity::Info,
                        penalty: 0u32,
                    }
                } else {
                    FindingV {
                        rule: ("ExternalNetworkRule")@,
                        severity: Severity::Critical,
                        penalty: 25u32,
                    }
                },
        ),
    }
}

/// The sketch of a concatenation is the concatenation of the
/// sketches.
pub proof fn lemma_sketch_concat(a: Seq<PreflightFinding>, b: Seq<PreflightFinding>)
    ensures
        sketch_of(a + b) =~= sketch_of(a) + sketch_of(b),
{
}

// ------------------------------------------------------------------
// Probe extraction
// ------------------------------------------------------------------

/// The first ':' of the text stands at position `c`.
pub open spec fn first_colon_at(v: Seq<char>, c: int) -> bool {
    0 <= c < v.len() && v[c] == ':' && forall|k: int| 0 <= k < c ==> v[k] != ':'
}

/// The volume's host part, when the volume binds an absolute host
/// path: exactly the text before the first ':', and only when that
/// text starts with '/'.  Named volumes and entries without a ':'
/// yield nothing.
pub fn split_host_path(volume: &str) -> (r: Option<String>)
    ensures
        r matches Some(h) ==> has_prefix(h@, ("/")@) && is_substring(volume@, (":")@),
        forall|c: int|
            #[trigger] first_colon_at(volume@, c) && c >= 1 && volume@[0] == '/' ==> (r
                matches Some(h) && h@ == volume@.subrange(0, c)),
        forall|c: int|
            #[trigger] first_colon_at(volume@, c) && !(c >= 1 && volume@[0] == '/') ==> r is None,
        (forall|k: int| 0 <= k < volume@.len() ==> volume@[k] != ':') ==> r is None,
{
    proof {
        reveal_strlit(":");
        reveal_strlit("/");
    }
    let n = volume.unicode_len();
    let mut i: usize = 0;
    while i < n
        invariant
            0 <= i <= n,
            n == volume@.len(),
            forall|k: int| 0 <= k < i ==> volume@[k] != ':',
        decreases n - i,
    {
        if volume.get_char(i) == ':' {
            proof {
                reveal_strlit(":");
                assert(volume@.subrange(i as int, i + 1) =~= (":")@);
                assert(first_colon_at(volume@, i as int));
                assert forall|c: int| #[trigger] first_colon_at(volume@, c) implies c == i by {
                    if c < i {
                        assert(volume@[c] != ':');
                    }
                    if c > i {
                        assert(volume@[i as int] != ':');
                    }
                }
            }
            let host = volume.substring_char(0, i);
            if str_has_prefix(host, "/") {
                proof {
                    reveal_strlit("/");
                    reveal_strlit(":");
                    assert(host@ == volume@.subrange(0, i as int));
                    assert(host@.len() >= 1 && host@[0] == ("/")@[0]);
                    assert(volume@[0] == '/');
                    assert(is_substring(volume@, (":")@)) by {
                        assert(volume@.subrange(i as int, i + 1) =~= (":")@);
                    }
                }
                return Some(host.to_owned());
            } else {
                proof {
                    reveal_strlit("/");
                    assert forall|c: int|
                        #[trigger] first_colon_at(volume@, c) implies !(c >= 1 && volume@[0]
                        == '/') by {
                        if c >= 1 && volume@[0] == '/' {
                            assert(c == i);
                            assert(host@ == volume@.subrange(0, i as int));
                            assert(host@[0] == '/');
                            assert(has_prefix(host@, ("/")@)) by {
                                assert(host@.subrange(0, 1) =~= ("/")@);
                            }
                            assert(false);
                        }
                    }
                }
                return None;
            }
        }
        i = i + 1;
    }
    None
}

/// Somewhere in the text a ':' stands, so a first ':' stands
/// somewhere too.
proof fn lemma_first_colon_exists(v: Seq<char>, p: int)
    requires
        0 <= p < v.len(),
        v[p] == ':',
    ensures
        exists|c: int| #[trigger] first_colon_at(v, c),
    decreases p,
{
    if forall|k: int| 0 <= k < p ==> v[k] != ':' {
        assert(first_colon_at(v, p));
    } else {
        let k = choose|k: int| 0 <= k < p && v[k] == ':';
        lemma_first_colon_exists(v, k);
    }
}

/// A volume of service `i` binds the absolute host path that the
/// pair `(service name, host)` records.
pub open spec fn is_mount_probe(c: &ComposeFile, service: Seq<char>, host: Seq<char>) -> bool {
    exists|i: int, j: int, cc: int|
        #![trigger first_colon_at(crate::model::vols_view(&c.services@[i].1)[j]@, cc)]
        0 <= i < c.services@.len() && 0 <= j < crate::model::vols_view(&c.services@[i].1).len()
            && first_colon_at(crate::model::vols_view(&c.services@[i].1)[j]@, cc) && cc >= 1
            && crate::model::vols_view(&c.services@[i].1)[j]@[0] == '/' && service
            == c.services@[i].0@ && host == crate::model::vols_view(&c.services@[i].1)[j]@.subrange(
            0,
            cc,
        )
}

/// Every absolute-path volume of the first `i` services (and the
/// first `j` volumes of service `i`) stands in `out`.
pub open spec fn mounts_taken(c: &ComposeFile, out: Seq<(String, String)>, i: int, j: int) -> bool {
    forall|ii: int, jj: int, cc: int|
        #![trigger first_colon_at(crate::model::vols_view(&c.services@[ii].1)[jj]@, cc)]
        0 <= ii < c.services@.len() && 0 <= jj < crate::model::vols_view(&c.services@[ii].1).len()
            && (ii < i || (ii == i && jj < j)) && first_colon_at(
            crate::model::vols_view(&c.services@[ii].1)[jj]@,
            cc,
        ) && cc >= 1 && crate::model::vols_view(&c.services@[ii].1)[jj]@[0] == '/' ==> exists|
        k: int,
    |
        0 <= k < out.len() && (#[trigger] out[k]).0@ == c.services@[ii].0@ && out[k].1@
            == crate::model::vols_view(&c.services@[ii].1)[jj]@.subrange(0, cc)
}

/// The absolute host paths that the stack bind-mounts, with the
/// service that mounts each: one pair for every volume whose text
/// before the first ':' starts with '/', and nothing else.
pub fn bind_mount_requests(c: &ComposeFile) -> (out: Vec<(String, String)>)
    ensures
        forall|k: int| 0 <= k < out@.len() ==> has_prefix((#[trigger] out@[k]).1@, ("/")@),
        forall|k: int|
            0 <= k < out@.len() ==> is_mount_probe(c, (#[trigger] out@[k]).0@, out@[k].1@),
        mounts_taken(c, out@, c.services@.len() as int, 0),
{
    let mut out: Vec<(String, String)> = Vec::new();
    let n = c.services.len();
    let mut i: usize = 0;
    while i < n
        invariant
            0 <= i <= n,
            n == c.services@.len(),
            forall|k: int| 0 <= k < out@.len() ==> has_prefix((#[trigger] out@[k]).1@, ("/")@),
            forall|k: int|
                0 <= k < out@.len() ==> is_mount_probe(c, (#[trigger] out@[k]).0@, out@[k].1@),
            mounts_taken(c, out@, i as int, 0),
        decreases n - i,
    {
        match &c.services[i].1.volumes {
            Some(volumes) => {
                let m = volumes.len();
                let mut j: usize = 0;
                proof {
                    assert(volumes@ == crate::model::vols_view(&c.services@[i as int].1));
                }
                while j < m
                    invariant
                        0 <= j <= m,
                        0 <= i < n,
                        n == c.services@.len(),
                        m == volumes@.len(),
                        volumes@ == crate::model::vols_view(&c.services@[i as int].1),
                        forall|k: int|
                            0 <= k < out@.len() ==> has_prefix((#[trigger] out@[k]).1@, ("/")@),
                        forall|k: int|
                            0 <= k < out@.len() ==> is_mount_probe(
                                c,
                                (#[trigger] out@[k]).0@,
                                out@[k].1@,
                            ),
                        mounts_taken(c, out@, i as int, j as int),
                    decreases m - j,
                {
                    let ghost out_before = out@;
                    match split_host_path(volumes[j].as_str()) {
                        Some(host) => {
                            proof {
                                let v = volumes@[j as int]@;
                                let p = choose|p: int| 0 <= p < v.len() && v[p] == ':';
                                lemma_first_colon_exists(v, p);
                                let cc = choose|cc: int| first_colon_at(v, cc);
                                assert(cc >= 1 && v[0] == '/' && host@ == v.subrange(0, cc)) by {
                                    if !(cc >= 1 && v[0] == '/') {
                                        assert(false);
                                    }
                                }
                                assert(is_mount_probe(c, c.services@[i as int].0@, host@));
                            }
                            out.push((c.services[i].0.clone(), host));
                            proof {
                                lemma_mounts_step(c, out_before, out@, i as int, j as int);
                            }
                        },
                        None => {
                            proof {
                                lemma_mounts_step_skip(c, out@, i as int, j as int);
                            }
                        },
                    }
                    j = j + 1;
                }
                proof {
                    lemma_mounts_row_done(c, out@, i as int, m as int);
                }
            },
            None => {
                proof {
                    lemma_mounts_row_done(c, out@, i as int, 0);
                }
            },
        }
        i = i + 1;
    }
    proof {
        assert(mounts_taken(c, out@, n as int, 0));
    }
    out
}

/// After a push for volume `(i, j)`, everything up to and including
/// it is taken.
proof fn lemma_mounts_step(
    c: &ComposeFile,
    before: Seq<(String, String)>,
    after: Seq<(String, String)>,
    i: int,
    j: int,
)
    requires
        0 <= i < c.services@.len(),
        0 <= j < crate::model::vols_view(&c.services@[i].1).len(),
        mounts_taken(c, before, i, j),
        after.len() == before.len() + 1,
        forall|k: int| 0 <= k < before.len() ==> after[k] == #[trigger] before[k],
        after.last().0@ == c.services@[i].0@,
        forall|cc: int|
            #[trigger] first_colon_at(crate::model::vols_view(&c.services@[i].1)[j]@, cc) && cc >= 1
                && crate::model::vols_view(&c.services@[i].1)[j]@[0] == '/' ==> after.last().1@
                == crate::model::vols_view(&c.services@[i].1)[j]@.subrange(0, cc),
    ensures
        mounts_taken(c, after, i, j + 1),
{
    assert forall|ii: int, jj: int, cc: int|
        0 <= ii < c.services@.len() && 0 <= jj < crate::model::vols_view(&c.services@[ii].1).len()
            && (ii < i || (ii == i && jj < j + 1)) && #[trigger] first_colon_at(
            crate::model::vols_view(&c.services@[ii].1)[jj]@,
            cc,
        ) && cc >= 1 && crate::model::vols_view(&c.services@[ii].1)[jj]@[0] == '/' implies exists|
        k: int,
    |
        0 <= k < after.len() && (#[trigger] after[k]).0@ == c.services@[ii].0@ && after[k].1@
            == crate::model::vols_view(&c.services@[ii].1)[jj]@.subrange(0, cc) by {
        if ii == i && jj == j {
            assert(after[after.len() - 1].0@ == c.services@[ii].0@ && after[after.len() - 1].1@
                == crate::model::vols_view(&c.services@[ii].1)[jj]@.subrange(0, cc));
        } else {
            let k = choose|k: int|
                0 <= k < before.len() && (#[trigger] before[k]).0@ == c.services@[ii].0@
                    && before[k].1@ == crate::model::vols_view(&c.services@[ii].1)[jj]@.subrange(
                    0,
                    cc,
                );
            assert(after[k].0@ == c.services@[ii].0@);
        }
    }
}

/// A volume with no qualifying host part advances the taken-range
/// without a push.
proof fn lemma_mounts_step_skip(c: &ComposeFile, out: Seq<(String, String)>, i: int, j: int)
    requires
        0 <= i < c.services@.len(),
        0 <= j < crate::model::vols_view(&c.services@[i].1).len(),
        mounts_taken(c, out, i, j),
        forall|cc: int|
            !(#[trigger] first_colon_at(crate::model::vols_view(&c.services@[i].1)[j]@, cc) && cc
                >= 1 && crate::model::vols_view(&c.services@[i].1)[j]@[0] == '/'),
    ensures
        mounts_taken(c, out, i, j + 1),
{
}

/// A finished service row carries the taken-range to the next
/// service.
proof fn lemma_mounts_row_done(c: &ComposeFile, out: Seq<(String, String)>, i: int, m: int)
    requires
        0 <= i < c.services@.len(),
        m == crate::model::vols_view(&c.services@[i].1).len(),
        mounts_taken(c, out, i, m),
    ensures
        mounts_taken(c, out, i + 1, 0),
{
}

/// An env entry of service `i` is a bare key that the pair records.
pub open spec fn is_env_probe(c: &ComposeFile, service: Seq<char>, key: Seq<char>) -> bool {
    exists|i: int, j: int|
        #![trigger crate::model::env_view(&c.services@[i].1)[j]]
        0 <= i < c.services@.len() && 0 <= j < crate::model::env_view(&c.services@[i].1).len()
            && !is_substring(crate::model::env_view(&c.services@[i].1)[j]@, ("=")@) && service
            == c.services@[i].0@ && key == crate::model::env_view(&c.services@[i].1)[j]@
}

/// Every bare key of the first `i` services (and the first `j`
/// entries of service `i`) stands in `out`.
pub open spec fn env_keys_taken(c: &ComposeFile, out: Seq<(String, String)>, i: int, j: int) -> bool {
    forall|ii: int, jj: int|
        #![trigger crate::model::env_view(&c.services@[ii].1)[jj]]
        0 <= ii < c.services@.len() && 0 <= jj < crate::model::env_view(&c.services@[ii].1).len()
            && (ii < i || (ii == i && jj < j)) && !is_substring(
            crate::model::env_view(&c.services@[ii].1)[jj]@,
            ("=")@,
        ) ==> exists|k: int|
            0 <= k < out.len() && (#[trigger] out[k]).0@ == c.services@[ii].0@ && out[k].1@
                == crate::model::env_view(&c.services@[ii].1)[jj]@
}

/// The bare environment keys (entries without '=') that the stack
/// inherits from the host, with the service that declares each: one
/// pair per bare entry, and nothing else.
pub fn bare_env_keys(c: &ComposeFile) -> (out: Vec<(String, String)>)
    ensures
        forall|k: int| 0 <= k < out@.len() ==> !is_substring((#[trigger] out@[k]).1@, ("=")@),
        forall|k: int|
            0 <= k < out@.len() ==> is_env_probe(c, (#[trigger] out@[k]).0@, out@[k].1@),
        env_keys_taken(c, out@, c.services@.len() as int, 0),
{
    proof {
        reveal_strlit("=");
    }
    let mut out: Vec<(String, String)> = Vec::new();
    let n = c.services.len();
    let mut i: usize = 0;
    while i < n
        invariant
            0 <= i <= n,
            n == c.services@.len(),
            forall|k: int| 0 <= k < out@.len() ==> !is_substring((#[trigger] out@[k]).1@, ("=")@),
            forall|k: int|
                0 <= k < out@.len() ==> is_env_probe(c, (#[trigger] out@[k]).0@, out@[k].1@),
            env_keys_taken(c, out@, i as int, 0),
        decreases n - i,
    {
        match &c.services[i].1.environment {
            Some(entries) => {
                let m = entries.len();
                let mut j: usize = 0;
                proof {
                    assert(entries@ == crate::model::env_view(&c.services@[i as int].1));
                }
                while j < m
                    invariant
                        0 <= j <= m,
                        0 <= i < n,
                        n == c.services@.len(),
                        m == entries@.len(),
                        entries@ == crate::model::env_view(&c.services@[i as int].1),
                        forall|k: int|
                            0 <= k < out@.len() ==> !is_substring(
                                (#[trigger] out@[k]).1@,
                                ("=")@,
                            ),
                        forall|k: int|
                            0 <= k < out@.len() ==> is_env_probe(
                                c,
                                (#[trigger] out@[k]).0@,
                                out@[k].1@,
                            ),
                        env_keys_taken(c, out@, i as int, j as int),
                    decreases m - j,
                {
                    let ghost out_before = out@;
                    if !str_contains(entries[j].as_str(), "=") {
                        proof {
                            assert(is_env_probe(
                                c,
                                c.services@[i as int].0@,
                                entries@[j as int]@,
                            ));
                        }
                        out.push((c.services[i].0.clone(), entries[j].clone()));
                        proof {
                            lemma_env_step(c, out_before, out@, i as int, j as int);
                        }
                    } else {
                        proof {
                            assert(env_keys_taken(c, out@, i as int, j + 1));
                        }
                    }
                    j = j + 1;
                }
                proof {
                    assert(env_keys_taken(c, out@, i + 1, 0));
                }
            },
            None => {
                proof {
                    assert(env_keys_taken(c, out@, i + 1, 0));
                }
            },
        }
        i = i + 1;
    }
    out
}

/// After a push for entry `(i, j)`, everything up to and including
/// it is taken.
proof fn lemma_env_step(
    c: &ComposeFile,
    before: Seq<(String, String)>,
    after: Seq<(String, String)>,
    i: int,
    j: int,
)
    requires
        0 <= i < c.services@.len(),
        0 <= j < crate::model::env_view(&c.services@[i].1).len(),
        env_keys_taken(c, before, i, j),
        after.len() == before.len() + 1,
        forall|k: int| 0 <= k < before.len() ==> after[k] == #[trigger] before[k],
        after.last().0@ == c.services@[i].0@,
        after.last().1@ == crate::model::env_view(&c.services@[i].1)[j]@,
    ensures
        env_keys_taken(c, after, i, j + 1),
{
    assert forall|ii: int, jj: int|
        0 <= ii < c.services@.len() && 0 <= jj < crate::model::env_view(&c.services@[ii].1).len()
            && (ii < i || (ii == i && jj < j + 1)) && !is_substring(
            (#[trigger] crate::model::env_view(&c.services@[ii].1)[jj])@,
            ("=")@,
        ) implies exists|k: int|
        0 <= k < after.len() && (#[trigger] after[k]).0@ == c.services@[ii].0@ && after[k].1@
            == crate::model::env_view(&c.services@[ii].1)[jj]@ by {
        if ii == i && jj == j {
            assert(after[after.len() - 1].0@ == c.services@[ii].0@ && after[after.len() - 1].1@
                == crate::model::env_view(&c.services@[ii].1)[jj]@);
        } else {
            let k = choose|k: int|
                0 <= k < before.len() && (#[trigger] before[k]).0@ == c.services@[ii].0@
                    && before[k].1@ == crate::model::env_view(&c.services@[ii].1)[jj]@;
            assert(after[k].0@ == c.services@[ii].0@);
        }
    }
}

/// An image reference that does not pin a version: tagged `:latest`
/// or not tagged at all.
pub open spec fn unpinned_spec(img: Seq<char>) -> bool {
    has_suffix(img, (":latest")@) || !is_substring(img, (":")@)
}

/// Whether an image reference is unpinned.
pub fn image_unpinned(img: &str) -> (r: bool)
    ensures
        r == unpinned_spec(img@),
{
    str_has_suffix(img, ":latest") || !str_contains(img, ":")
}

// ------------------------------------------------------------------
// The rules
// ------------------------------------------------------------------

/// Bind-mounted host paths: a missing path is a likely restore
/// failure; an existing one is still an advisory.
pub struct BindMountRule;

impl BindMountRule {
    /// One finding per probed mount: Critical with penalty 25 when
    /// the host path is missing, Info with no penalty when it exists.
    pub fn evaluate(&self, probes: &Vec<(String, String, bool)>) -> (f: Vec<PreflightFinding>)
        ensures
            f@.len() == probes@.len(),
            sketch_of(f@) == bind_rule_findings(probes@),
            forall|k: int|
                0 <= k < f@.len() ==> (#[trigger] f@[k]).rule@ == ("BindMountRule")@ && f@[k].penalty
                    == (if probes@[k].2 {
                    0u32
                } else {
                    25u32
                }) && f@[k].severity == (if probes@[k].2 {
                    Severity::Info
                } else {
                    Severity::Critical
                }),
    {
        let n = probes.len();
        let mut f: Vec<PreflightFinding> = Vec::new();
        let mut i: usize = 0;
        while i < n
            invariant
                0 <= i <= n,
                n == probes@.len(),
                f@.len() == i,
                forall|k: int|
                    0 <= k < i ==> (#[trigger] f@[k]).rule@ == ("BindMountRule")@ && f@[k].penalty
                        == (if probes@[k].2 {
                        0u32
                    } else {
                        25u32
                    }) && f@[k].severity == (if probes@[k].2 {
                        Severity::Info
                    } else {
                        Severity::Critical
                    }),
            decreases n - i,
        {
            if probes[i].2 {
                f.push(
                    PreflightFinding {
                        rule: String::from_str("BindMountRule"),
                        severity: Severity::Info,
                        message: String::from_str(
                            "bind mount exists here; the data must be restored before rehearsal",
                        ),
                        penalty: 0,
                    },
                );
            } else {
                f.push(
                    PreflightFinding {
                        rule: String::from_str("BindMountRule"),
                        severity: Severity::Critical,
                        message: String::from_str("bind mount path is missing on this host"),
                        penalty: 25,
                    },
                );
            }
            i = i + 1;
        }
        proof {
            assert(sketch_of(f@) =~~= bind_rule_findings(probes@));
        }
        f
    }
}

/// Image availability on a fresh host: unpinned tags are warned
/// about, a failed pull is a likely restore failure.
pub struct ImagePullRule;

impl ImagePullRule {
    /// Per probed image, in order: a Warning with penalty 5 when the
    /// tag is unpinned, then a Critical with penalty 30 when the pull
    /// failed.
    pub fn evaluate(&self, probes: &Vec<(String, String, bool)>) -> (f: Vec<PreflightFinding>)
        ensures
            sketch_of(f@) == image_rule_findings(
                probes@.map_values(|p: (String, String, bool)| (p.1@, p.2)),
            ),
            forall|k: int| 0 <= k < f@.len() ==> (#[trigger] f@[k]).rule@ == ("ImagePullRule")@,
    {
        let n = probes.len();
        let mut f: Vec<PreflightFinding> = Vec::new();
        let mut i: usize = 0;
        proof {
            let pv = probes@.map_values(|p: (String, String, bool)| (p.1@, p.2));
            assert(sketch_of(f@) =~= image_rule_findings(pv.take(0)));
        }
        while i < n
            invariant
                0 <= i <= n,
                n == probes@.len(),
                sketch_of(f@) == image_rule_findings(
                    probes@.map_values(|p: (String, String, bool)| (p.1@, p.2)).take(i as int),
                ),
                forall|k: int| 0 <= k < f@.len() ==> (#[trigger] f@[k]).rule@ == ("ImagePullRule")@,
            decreases n - i,
        {
            let ghost pv = probes@.map_values(|p: (String, String, bool)| (p.1@, p.2));
            let ghost f_before = f@;
            let unpinned = image_unpinned(probes[i].1.as_str());
            if unpinned {
                f.push(
                    PreflightFinding {
                        rule: String::from_str("ImagePullRule"),
                        severity: Severity::Warning,
                        message: String::from_str(
                            "unpinned image tag; a restore may pull a different version",
                        ),
                        penalty: 5,
                    },
                );
            }
            let pull_failed = probes[i].2;
            if pull_failed {
                f.push(
                    PreflightFinding {
                        rule: String::from_str("ImagePullRule"),
                        severity: Severity::Critical,
                        message: String::from_str(
                            "image cannot be pulled; a fresh host cannot restore it",
                        ),
                        penalty: 30,
                    },
                );
            }
            proof {
                assert(pv.take(i + 1).drop_last() =~= pv.take(i as int));
                assert(pv.take(i + 1).last() == pv[i as int]);
                assert(pv[i as int].0 == probes@[i as int].1@ && pv[i as int].1
                    == probes@[i as int].2);
                assert(sketch_of(f@) =~~= image_rule_findings(pv.take(i + 1)));
            }
            i = i + 1;
        }
        proof {
            let pv = probes@.map_values(|p: (String, String, bool)| (p.1@, p.2));
            assert(pv.take(n as int) =~= pv);
        }
        f
    }
}

/// The penalty skeleton of a list of findings.
pub open spec fn penalties_of(f: Seq<PreflightFinding>) -> Seq<u32> {
    f.map_values(|x: PreflightFinding| x.penalty)
}

/// Bare environment keys inherited from the host.
pub struct EnvVarRule;

impl EnvVarRule {
    /// One finding per bare key: Info with no penalty when the host
    /// has it, Critical with penalty 20 when it does not.
    pub fn evaluate(&self, probes: &Vec<(String, String, bool)>) -> (f: Vec<PreflightFinding>)
        ensures
            f@.len() == probes@.len(),
            sketch_of(f@) == env_rule_findings(probes@),
            forall|k: int|
                0 <= k < f@.len() ==> (#[trigger] f@[k]).rule@ == ("EnvVarRule")@ && f@[k].penalty
                    == (if probes@[k].2 {
                    0u32
                } else {
                    20u32
                }) && f@[k].severity == (if probes@[k].2 {
                    Severity::Info
                } else {
                    Severity::Critical
                }),
    {
        let n = probes.len();
        let mut f: Vec<PreflightFinding> = Vec::new();
        let mut i: usize = 0;
        while i < n
            invariant
                0 <= i <= n,
                n == probes@.len(),
                f@.len() == i,
                forall|k: int|
                    0 <= k < i ==> (#[trigger] f@[k]).rule@ == ("EnvVarRule")@ && f@[k].penalty == (
                    if probes@[k].2 {
                        0u32
                    } else {
                        20u32
                    }) && f@[k].severity == (if probes@[k].2 {
                        Severity::Info
                    } else {
                        Severity::Critical
                    }),
            decreases n - i,
        {
            if probes[i].2 {
                f.push(
                    PreflightFinding {
                        rule: String::from_str("EnvVarRule"),
                        severity: Severity::Info,
                        message: String::from_str(
                            "inherited from this host; any restore host must set it too",
                        ),
                        penalty: 0,
                    },
                );
            } else {
                f.push(
                    PreflightFinding {
                        rule: String::from_str("EnvVarRule"),
                        severity: Severity::Critical,
                        message: String::from_str(
                            "not set on this host; the container would start misconfigured",
                        ),
                        penalty: 20,
                    },
                );
            }
            i = i + 1;
        }
        proof {
            assert(sketch_of(f@) =~~= env_rule_findings(probes@));
        }
        f
    }
}

/// Declared external networks must already exist on the host.
pub struct ExternalNetworkRule;

impl ExternalNetworkRule {
    /// With the host's networks known, one finding per declared
    /// external network: Info when present, Critical with penalty 25
    /// when missing.  When the runtime could not be queried the rule
    /// yields nothing rather than false positives.
    pub fn evaluate(&self, external: &Vec<String>, host_networks: &Option<Vec<String>>) -> (f: Vec<
        PreflightFinding,
    >)
        ensures
            sketch_of(f@) == net_rule_findings(
                external@,
                match host_networks {
                    Some(h) => Some(h@),
                    None => None,
                },
            ),
            host_networks is None ==> f@.len() == 0,
            host_networks matches Some(h) ==> f@.len() == external@.len() && forall|k: int|
                0 <= k < f@.len() ==> (#[trigger] f@[k]).rule@ == ("ExternalNetworkRule")@
                    && f@[k].penalty == (if name_in(h@, external@[k]@) {
                    0u32
                } else {
                    25u32
                }) && f@[k].severity == (if name_in(h@, external@[k]@) {
                    Severity::Info
                } else {
                    Severity::Critical
                }),
    {
        let host = match host_networks {
            Some(h) => h,
            None => {
                let empty: Vec<PreflightFinding> = Vec::new();
                proof {
                    assert(sketch_of(empty@) =~~= net_rule_findings(external@, None));
                }
                return empty;
            },
        };
        let n = external.len();
        let mut f: Vec<PreflightFinding> = Vec::new();
        let mut i: usize = 0;
        while i < n
            invariant
                0 <= i <= n,
                n == external@.len(),
                f@.len() == i,
                forall|k: int|
                    0 <= k < i ==> (#[trigger] f@[k]).rule@ == ("ExternalNetworkRule")@
                        && f@[k].penalty == (if name_in(host@, external@[k]@) {
                        0u32
                    } else {
                        25u32
                    }) && f@[k].severity == (if name_in(host@, external@[k]@) {
                        Severity::Info
                    } else {
                        Severity::Critical
                    }),
            decreases n - i,
        {
            if list_has_name(host, &external[i]) {
                f.push(
                    PreflightFinding {
                        rule: String::from_str("ExternalNetworkRule"),
                        severity: Severity::Info,
                        message: String::from_str(
                            "external network exists here; create it before restoring elsewhere",
                        ),
                        penalty: 0,
                    },
                );
            } else {
                f.push(
                    PreflightFinding {
                        rule: String::from_str("ExternalNetworkRule"),
                        severity: Severity::Critical,
                        message: String::from_str(
                            "external network does not exist on this host",
                        ),
                        penalty: 25,
                    },
                );
            }
            i = i + 1;
        }
        proof {
            assert(sketch_of(f@) =~~= net_rule_findings(external@, Some(host@)));
        }
        f
    }
}

/// Linear scan for a name.
fn list_has_name(list: &Vec<String>, name: &String) -> (r: bool)
    ensures
        r == name_in(list@, name@),
{
    let n = list.len();
    let mut i: usize = 0;
    while i < n
        invariant
            0 <= i <= n,
            n == list@.len(),
            forall|j: int| 0 <= j < i ==> (#[trigger] list@[j])@ != name@,
        decreases n - i,
    {
        if list[i].eq(name) {
            return true;
        }
        i = i + 1;
    }
    false
}

// ------------------------------------------------------------------
// Scoring
// ------------------------------------------------------------------

/// 100 minus every penalty, floored at zero.
pub open spec fn score_spec(penalties: Seq<u32>) -> int
    decreases penalties.len(),
{
    if penalties.len() == 0 {
        100
    } else {
        let rest = score_spec(penalties.drop_last());
        if rest >= penalties.last() {
            rest - penalties.last()
        } else {
            0
        }
    }
}

/// Fold the findings into the readiness score, saturating at zero.
pub fn compute_score(findings: &Vec<PreflightFinding>) -> (r: u32)
    ensures
        r as int == score_spec(penalties_of(findings@)),
        r <= 100,
{
    let n = findings.len();
    let mut score: u32 = 100;
    let mut i: usize = 0;
    proof {
        assert(penalties_of(findings@).take(0) =~= Seq::<u32>::empty());
    }
    while i < n
        invariant
            0 <= i <= n,
            n == findings@.len(),
            score as int == score_spec(penalties_of(findings@).take(i as int)),
            score <= 100,
        decreases n - i,
    {
        let p = findings[i].penalty;
        proof {
            let ps = penalties_of(findings@);
            assert(ps.take(i + 1).drop_last() =~= ps.take(i as int));
            assert(ps.take(i + 1).last() == ps[i as int]);
            assert(ps[i as int] == findings@[i as int].penalty);
        }
        if score >= p {
            score = score - p;
        } else {
            score = 0;
        }
        i = i + 1;
    }
    proof {
        assert(penalties_of(findings@).take(n as int) =~= penalties_of(findings@));
    }
    score
}

/// Run the four rules in their fixed registration order and fold the
/// score: the findings are exactly the four rules' outputs
/// concatenated, and the score is 100 saturating-minus their
/// penalties.
pub fn run_preflight(
    mounts: &Vec<(String, String, bool)>,
    images: &Vec<(String, String, bool)>,
    env_keys: &Vec<(String, String, bool)>,
    external: &Vec<String>,
    host_networks: &Option<Vec<String>>,
) -> (r: RestoreReadiness)
    ensures
        sketch_of(r.findings@) == bind_rule_findings(mounts@) + image_rule_findings(
            images@.map_values(|p: (String, String, bool)| (p.1@, p.2)),
        ) + env_rule_findings(env_keys@) + net_rule_findings(
            external@,
            match host_networks {
                Some(h) => Some(h@),
                None => None,
            },
        ),
        r.score as int == score_spec(penalties_of(r.findings@)),
        r.score <= 100,
{
    let mut findings = BindMountRule.evaluate(mounts);
    let mut f2 = ImagePullRule.evaluate(images);
    let mut f3 = EnvVarRule.evaluate(env_keys);
    let mut f4 = ExternalNetworkRule.evaluate(external, host_networks);
    let ghost s1 = findings@;
    let ghost s2 = f2@;
    let ghost s3 = f3@;
    let ghost s4 = f4@;
    findings.append(&mut f2);
    proof {
        lemma_sketch_concat(s1, s2);
    }
    findings.append(&mut f3);
    proof {
        lemma_sketch_concat(s1 + s2, s3);
    }
    findings.append(&mut f4);
    proof {
        lemma_sketch_concat(s1 + s2 + s3, s4);
        assert(sketch_of(findings@) =~~= sketch_of(s1) + sketch_of(s2) + sketch_of(s3)
            + sketch_of(s4));
    }
    let score = compute_score(&findings);
    RestoreReadiness { score, findings }
}

} // verus!

//! The parsed stack model: services, healthchecks, and the
//! translations the executor needs.

use vstd::prelude::*;
use vstd::string::StrSliceExecFns;
use crate::strutil::has_suffix;
use crate::strutil::all_digits;
use crate::strutil::dec_value;
use crate::strutil::str_has_suffix;
use crate::strutil::parse_u64_str;
use crate::graph::DepList;

verus! {

/// A service healthcheck as declared in the composition file.
pub struct HealthCheck {
    pub test: Option<Vec<String>>,
    pub interval: Option<String>,
    pub timeout: Option<String>,
    pub retries: Option<u64>,
}

/// One service of a stack.
pub struct Service {
    pub image: Option<String>,
    pub environment: Option<Vec<String>>,
    pub volumes: Option<Vec<String>>,
    pub depends_on: Option<Vec<String>>,
    pub command: Option<Vec<String>>,
    pub entrypoint: Option<Vec<String>>,
    pub healthcheck: Option<HealthCheck>,
    pub ports: Option<Vec<String>>,
    pub labels: Option<Vec<(String, String)>>,
}

/// A parsed stack: named services and the external networks it
/// declares.  Service names are unique.
pub struct ComposeFile {
    pub services: Vec<(String, Service)>,
    pub external_networks: Vec<String>,
}

/// Service names are unique within a stack.
pub open spec fn compose_wf(c: &ComposeFile) -> bool {
    forall|i: int, j: int|
        0 <= i < j < c.services@.len() ==> (#[trigger] c.services@[i]).0@ != (
        #[trigger] c.services@[j]).0@
}

/// The dependency names of one service: `depends_on`, or nothing.
pub open spec fn deps_view(s: &Service) -> Seq<String> {
    match s.depends_on {
        Some(d) => d@,
        None => Seq::<String>::empty(),
    }
}

/// The volume entries of one service, or nothing.
pub open spec fn vols_view(s: &Service) -> Seq<String> {
    match s.volumes {
        Some(v) => v@,
        None => Seq::<String>::empty(),
    }
}

/// The environment entries of one service, or nothing.
pub open spec fn env_view(s: &Service) -> Seq<String> {
    match s.environment {
        Some(v) => v@,
        None => Seq::<String>::empty(),
    }
}

/// Copy a list of strings.
pub fn clone_strings(v: &Vec<String>) -> (out: Vec<String>)
    ensures
        out@.len() == v@.len(),
        forall|i: int| 0 <= i < v@.len() ==> (#[trigger] out@[i]) == v@[i],
{
    let mut out: Vec<String> = Vec::new();
    let n = v.len();
    let mut i: usize = 0;
    while i < n
        invariant
            0 <= i <= n,
            n == v@.len(),
            out@.len() == i,
            forall|k: int| 0 <= k < i ==> (#[trigger] out@[k]) == v@[k],
        decreases n - i,
    {
        out.push(v[i].clone());
        i = i + 1;
    }
    out
}

/// The dependency map the sort consumes: one entry per service, in
/// declaration order, each with its `depends_on` names.
pub fn dep_map(c: &ComposeFile) -> (out: DepList)
    ensures
        out@.len() == c.services@.len(),
        forall|i: int|
            0 <= i < out@.len() ==> (#[trigger] out@[i]).0 == c.services@[i].0 && out@[i].1@
                == deps_view(&c.services@[i].1),
{
    let mut out: DepList = Vec::new();
    let n = c.services.len();
    let mut i: usize = 0;
    while i < n
        invariant
            0 <= i <= n,
            n == c.services@.len(),
            out@.len() == i,
            forall|k: int|
                0 <= k < i ==> (#[trigger] out@[k]).0 == c.services@[k].0 && out@[k].1@
                    == deps_view(&c.services@[k].1),
        decreases n - i,
    {
        let name = c.services[i].0.clone();
        let deps: Vec<String> = match &c.services[i].1.depends_on {
            Some(d) => clone_strings(d),
            None => Vec::new(),
        };
        proof {
            assert(deps@ =~= deps_view(&c.services@[i as int].1));
        }
        out.push((name, deps));
        i = i + 1;
    }
    out
}

/// Some service carries this name.
pub open spec fn service_named(c: &ComposeFile, name: Seq<char>) -> bool {
    exists|i: int| 0 <= i < c.services@.len() && (#[trigger] c.services@[i]).0@ == name
}

/// Every `depends_on` reference names a service of the stack.
pub open spec fn model_resolved(c: &ComposeFile) -> bool {
    forall|i: int, j: int|
        0 <= i < c.services@.len() && 0 <= j < deps_view(&c.services@[i].1).len() ==> service_named(
            c,
            (#[trigger] deps_view(&c.services@[i].1)[j])@,
        )
}

/// Why a parsed stack was rejected.
pub enum ModelError {
    /// Two services share this name.
    DuplicateService(String),
    /// The named service depends on the named unknown service.
    UnknownDependency(String, String),
}

/// Accept a parsed stack only when its service names are unique and
/// every dependency resolves; exactly the two model invariants.
pub fn validate_model(c: &ComposeFile) -> (r: Result<(), ModelError>)
    ensures
        r is Ok <==> compose_wf(c) && model_resolved(c),
{
    let n = c.services.len();
    let mut i: usize = 0;
    while i < n
        invariant
            0 <= i <= n,
            n == c.services@.len(),
            forall|a: int, b: int|
                0 <= a < b < c.services@.len() && a < i ==> (#[trigger] c.services@[a]).0@ != (
                #[trigger] c.services@[b]).0@,
        decreases n - i,
    {
        let mut j: usize = i + 1;
        while j < n
            invariant
                0 <= i < j <= n,
                n == c.services@.len(),
                forall|b: int| i < b < j ==> (#[trigger] c.services@[b]).0@ != c.services@[i as int].0@,
            decreases n - j,
        {
            if c.services[i].0.eq(&c.services[j].0) {
                proof {
                    assert(!compose_wf(c));
                }
                return Err(ModelError::DuplicateService(c.services[i].0.clone()));
            }
            j = j + 1;
        }
        i = i + 1;
    }
    let mut i: usize = 0;
    while i < n
        invariant
            0 <= i <= n,
            n == c.services@.len(),
            compose_wf(c),
            forall|a: int, j: int|
                0 <= a < i && 0 <= j < deps_view(&c.services@[a].1).len() ==> service_named(
                    c,
                    (#[trigger] deps_view(&c.services@[a].1)[j])@,
                ),
        decreases n - i,
    {
        match &c.services[i].1.depends_on {
            Some(deps) => {
                let m = deps.len();
                let mut j: usize = 0;
                while j < m
                    invariant
                        0 <= j <= m,
                        0 <= i < n,
                        n == c.services@.len(),
                        m == deps@.len(),
                        deps@ == deps_view(&c.services@[i as int].1),
                        forall|jj: int|
                            0 <= jj < j ==> service_named(
                                c,
                                (#[trigger] deps_view(&c.services@[i as int].1)[jj])@,
                            ),
                    decreases m - j,
                {
                    let mut found = false;
                    let mut k: usize = 0;
                    while k < n
                        invariant
                            0 <= k <= n,
                            0 <= i < n,
                            0 <= j < m,
                            n == c.services@.len(),
                            m == deps@.len(),
                            deps@ == deps_view(&c.services@[i as int].1),
                            found ==> service_named(c, deps@[j as int]@),
                            !found ==> forall|kk: int|
                                0 <= kk < k ==> (#[trigger] c.services@[kk]).0@ != deps@[j as int]@,
                        decreases n - k,
                    {
                        if c.services[k].0.eq(&deps[j]) {
                            found = true;
                            proof {
                                assert(service_named(c, deps@[j as int]@));
                            }
                        }
                        k = k + 1;
                    }
                    if !found {
                        proof {
                            assert(!service_named(c, deps@[j as int]@));
                            assert(!model_resolved(c));
                        }
                        return Err(
                            ModelError::UnknownDependency(
                                c.services[i].0.clone(),
                                deps[j].clone(),
                            ),
                        );
                    }
                    j = j + 1;
                }
            },
            None => {},
        }
        i = i + 1;
    }
    Ok(())
}

/// A captured container blueprint: enough to recreate a service
/// elsewhere.
pub struct Blueprint {
    pub name: String,
    pub image: String,
    pub env: Vec<String>,
    pub mounts: Vec<Mount>,
    pub state: Option<String>,
}

/// One bind mount of a blueprint.
pub struct Mount {
    pub source: String,
    pub destination: String,
}

// ------------------------------------------------------------------
// Healthcheck translation
// ------------------------------------------------------------------

/// What a duration string of the form `"Ns"` denotes, in nanoseconds;
/// absent, malformed, or overflowing strings denote nothing.
pub open spec fn duration_ns_spec(input: Option<Seq<char>>) -> Option<i64> {
    match input {
        Some(s) => if has_suffix(s, ("s")@) && s.len() > 1 && all_digits(
            s.subrange(0, s.len() - 1),
        ) && dec_value(s.subrange(0, s.len() - 1)) * 1_000_000_000 <= i64::MAX {
            Some((dec_value(s.subrange(0, s.len() - 1)) * 1_000_000_000) as i64)
        } else {
            None
        },
        None => None,
    }
}

/// Parse a `"Ns"` duration into nanoseconds; anything else is
/// omitted.
pub fn parse_duration(input: &Option<String>) -> (r: Option<i64>)
    ensures
        r == duration_ns_spec(match input {
            Some(s) => Some(s@),
            None => None,
        }),
{
    proof {
        reveal_strlit("s");
    }
    match input {
        None => None,
        Some(s) => {
            let n = s.as_str().unicode_len();
            if n < 2 {
                return None;
            }
            if !str_has_suffix(s.as_str(), "s") {
                return None;
            }
            let digits = s.as_str().substring_char(0, n - 1);
            proof {
                assert(digits@ == s@.subrange(0, s@.len() - 1));
            }
            match parse_u64_str(digits) {
                Some(v) => {
                    if v <= 9_223_372_036i64 as u64 {
                        Some((v as i64) * 1_000_000_000)
                    } else {
                        proof {
                            assert(dec_value(digits@) * 1_000_000_000 > i64::MAX);
                        }
                        None
                    }
                },
                None => {
                    proof {
                        if all_digits(s@.subrange(0, s@.len() - 1)) {
                            crate::strutil::lemma_dec_value_prefix(digits@, digits@.len() as int);
                        }
                    }
                    None
                },
            }
        },
    }
}

/// A healthcheck in the container runtime's own units.
pub struct HealthConfig {
    pub test: Option<Vec<String>>,
    pub interval_ns: Option<i64>,
    pub timeout_ns: Option<i64>,
    pub retries: Option<i64>,
}

/// Translate a declared healthcheck: `"Ns"` durations become
/// nanoseconds, anything unparseable is omitted.
pub fn convert_healthcheck(h: &HealthCheck) -> (c: HealthConfig)
    ensures
        c.interval_ns == duration_ns_spec(match h.interval {
            Some(s) => Some(s@),
            None => None,
        }),
        c.timeout_ns == duration_ns_spec(match h.timeout {
            Some(s) => Some(s@),
            None => None,
        }),
        c.retries == match h.retries {
            Some(r) => if r <= i64::MAX as u64 {
                Some(r as i64)
            } else {
                None
            },
            None => None,
        },
        match (&h.test, &c.test) {
            (Some(t), Some(u)) => u@ == t@,
            (None, None) => true,
            _ => false,
        },
{
    let test = match &h.test {
        Some(t) => Some(clone_strings(t)),
        None => None,
    };
    proof {
        match &h.test {
            Some(t) => {
                assert(test matches Some(u) && u@ =~= t@);
            },
            None => {},
        }
    }
    let retries: Option<i64> = match h.retries {
        Some(r) => if r <= 9_223_372_036_854_775_807u64 {
            Some(r as i64)
        } else {
            None
        },
        None => None,
    };
    HealthConfig {
        test,
        interval_ns: parse_duration(&h.interval),
        timeout_ns: parse_duration(&h.timeout),
        retries,
    }
}

} // verus!

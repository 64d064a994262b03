//! Backup provider definitions and the acceptance rules for their
//! configuration.  Talking to the backup tools themselves is a
//! subprocess concern and lives outside the library.

use vstd::prelude::*;
use vstd::string::StringExecFns;

verus! {

/// The backup tool a provider represents.
pub enum ProviderKind {
    Restic,
    Borg,
}

impl ProviderKind {
    /// The configuration name of the kind.
    pub fn name(&self) -> (r: &'static str)
        ensures
            r@ == match self {
                ProviderKind::Restic => ("restic")@,
                ProviderKind::Borg => ("borg")@,
            },
    {
        match self {
            ProviderKind::Restic => "restic",
            ProviderKind::Borg => "borg",
        }
    }
}

/// Where the repository password comes from: an environment variable
/// or a file.
pub struct PasswordSource {
    pub env: Option<String>,
    pub file: Option<String>,
}

/// Verification behaviour applied before a rehearsal.
pub struct VerifyOptions {
    pub max_snapshot_age_hours: Option<u64>,
    pub test_restore: bool,
}

/// A named backup provider.
pub struct ProviderConfig {
    pub name: String,
    pub kind: ProviderKind,
    pub repository: String,
    pub password: PasswordSource,
    pub verify: VerifyOptions,
}

/// Build a provider from what the operator entered: the kind must be
/// a known tool name and at most one password source may be given.
pub fn build_provider_config(
    name: &String,
    kind_str: &String,
    repository: &String,
    password_env: Option<String>,
    password_file: Option<String>,
) -> (r: Result<ProviderConfig, &'static str>)
    ensures
        r is Ok <==> (kind_str@ == ("restic")@ || kind_str@ == ("borg")@) && !(password_env is Some
            && password_file is Some),
        r matches Ok(c) ==> c.name@ == name@ && c.repository@ == repository@ && (kind_str@ == (
        "restic")@ ==> c.kind == ProviderKind::Restic) && (kind_str@ == ("borg")@ ==> c.kind
            == ProviderKind::Borg),
{
    proof {
        reveal_strlit("restic");
        reveal_strlit("borg");
    }
    let restic = String::from_str("restic");
    let borg = String::from_str("borg");
    let kind = if kind_str.eq(&restic) {
        ProviderKind::Restic
    } else if kind_str.eq(&borg) {
        ProviderKind::Borg
    } else {
        return Err("unknown provider kind; supported: restic, borg");
    };
    if password_env.is_some() && password_file.is_some() {
        return Err("give the password by environment variable or by file, not both");
    }
    proof {
        reveal_strlit("restic");
        reveal_strlit("borg");
        assert(("restic")@.len() != ("borg")@.len());
    }
    Ok(
        ProviderConfig {
            name: name.clone(),
            kind,
            repository: repository.clone(),
            password: PasswordSource { env: password_env, file: password_file },
            verify: VerifyOptions { max_snapshot_age_hours: None, test_restore: false },
        },
    )
}

/// A repository verification passes only when at least one snapshot
/// exists.
pub fn snapshots_ok(count: usize) -> (r: bool)
    ensures
        r == (count > 0),
{
    count > 0
}

} // verus!

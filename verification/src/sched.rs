//! The daemon's verified core: the watch registry, the concurrency
//! limit, and the cron scheduler's decision function, whose ordering
//! (record the slot, then dispatch) makes restarts safe.

use vstd::prelude::*;
use vstd::string::StrSliceExecFns;
use vstd::string::StringExecFns;
use crate::strutil::all_digits;
use crate::strutil::dec_value;
use crate::strutil::parse_u64_str;

verus! {

/// The daemon configuration file's contents.
pub struct DaemonConfig {
    pub max_concurrent_rehearsals: Option<usize>,
}

/// One watched stack.
pub struct WatchEntry {
    pub stack: String,
    pub compose_path: String,
    pub added: String,
    pub schedule: Option<String>,
    pub catch_up: bool,
    pub provider: Option<String>,
    pub notify: Option<String>,
}

/// The watch registry.
pub struct WatchRegistry {
    pub watches: Vec<WatchEntry>,
}

// ------------------------------------------------------------------
// Concurrency limit
// ------------------------------------------------------------------

/// A positive decimal limit, if the text is one.
pub open spec fn parsed_limit(v: Seq<char>) -> Option<int> {
    if v.len() >= 1 && all_digits(v) && dec_value(v) <= usize::MAX && dec_value(v) > 0 {
        Some(dec_value(v) as int)
    } else {
        None
    }
}

/// The three-tier concurrency limit: the environment override first,
/// then the configuration file, then 1.
pub open spec fn resolve_concurrency_spec(env_value: Option<Seq<char>>, cfg: &DaemonConfig) -> int {
    if env_value matches Some(v) && parsed_limit(v) is Some {
        parsed_limit(env_value->Some_0)->Some_0
    } else if cfg.max_concurrent_rehearsals matches Some(n) && n > 0 {
        cfg.max_concurrent_rehearsals->Some_0 as int
    } else {
        1
    }
}

/// Resolve the concurrency limit from the environment override and
/// the configuration file.
pub fn resolve_concurrency(env_value: Option<&String>, cfg: &DaemonConfig) -> (r: usize)
    ensures
        r as int == resolve_concurrency_spec(
            match env_value {
                Some(v) => Some(v@),
                None => None,
            },
            cfg,
        ),
        r >= 1,
{
    match env_value {
        Some(v) => {
            match parse_u64_str(v.as_str()) {
                Some(n) => {
                    if n > 0 && n <= usize::MAX as u64 {
                        return n as usize;
                    }
                },
                None => {
                },
            }
        },
        None => {
        },
    }
    match cfg.max_concurrent_rehearsals {
        Some(n) => {
            if n > 0 {
                return n;
            }
        },
        None => {
        },
    }
    1
}

// ------------------------------------------------------------------
// Watch registry edits
// ------------------------------------------------------------------

/// The registry without any entry for the named stack.
pub open spec fn without_stack(w: Seq<WatchEntry>, stack: Seq<char>) -> Seq<WatchEntry> {
    w.filter(|e: WatchEntry| e.stack@ != stack)
}

/// Keep every entry whose stack differs from the given name.
fn retain_other_stacks(watches: &Vec<WatchEntry>, stack: &String) -> (out: Vec<WatchEntry>)
    ensures
        out@ == without_stack(watches@, stack@),
{
    let n = watches.len();
    let mut out: Vec<WatchEntry> = Vec::new();
    let mut i: usize = 0;
    proof {
        reveal(Seq::filter);
        assert(watches@.subrange(0, 0).filter(|e: WatchEntry| e.stack@ != stack@) =~= out@);
    }
    while i < n
        invariant
            0 <= i <= n,
            n == watches@.len(),
            out@ == watches@.subrange(0, i as int).filter(|e: WatchEntry| e.stack@ != stack@),
        decreases n - i,
    {
        let keep = !watches[i].stack.eq(stack);
        proof {
            reveal(Seq::filter);
            let pred = |e: WatchEntry| e.stack@ != stack@;
            assert(watches@.subrange(0, i + 1).drop_last() =~= watches@.subrange(0, i as int));
            assert(watches@.subrange(0, i + 1).last() == watches@[i as int]);
        }
        if keep {
            let w = &watches[i];
            out.push(
                WatchEntry {
                    stack: w.stack.clone(),
                    compose_path: w.compose_path.clone(),
                    added: w.added.clone(),
                    schedule: match &w.schedule {
                        Some(x) => Some(x.clone()),
                        None => None,
                    },
                    catch_up: w.catch_up,
                    provider: match &w.provider {
                        Some(x) => Some(x.clone()),
                        None => None,
                    },
                    notify: match &w.notify {
                        Some(x) => Some(x.clone()),
                        None => None,
                    },
                },
            );
            proof {
                assert(watches@[i as int] == WatchEntry {
                    stack: watches@[i as int].stack,
                    compose_path: watches@[i as int].compose_path,
                    added: watches@[i as int].added,
                    schedule: watches@[i as int].schedule,
                    catch_up: watches@[i as int].catch_up,
                    provider: watches@[i as int].provider,
                    notify: watches@[i as int].notify,
                });
                assert(out@ =~= watches@.subrange(0, i + 1).filter(
                    |e: WatchEntry| e.stack@ != stack@,
                ));
            }
        } else {
            proof {
                assert(out@ =~= watches@.subrange(0, i + 1).filter(
                    |e: WatchEntry| e.stack@ != stack@,
                ));
            }
        }
        i = i + 1;
    }
    proof {
        assert(watches@.subrange(0, n as int) =~= watches@);
    }
    out
}

/// Add or replace the watch for a stack: any previous entry for the
/// same stack leaves, everything else stays in order, and the new
/// entry stands at the end.
pub fn upsert_watch(reg: &WatchRegistry, entry: WatchEntry) -> (out: WatchRegistry)
    ensures
        out.watches@ == without_stack(reg.watches@, entry.stack@).push(entry),
{
    let mut kept = retain_other_stacks(&reg.watches, &entry.stack);
    kept.push(entry);
    WatchRegistry { watches: kept }
}

/// Remove the watch for a stack; an error when none exists.
pub fn remove_watch_entry(reg: &WatchRegistry, stack: &String) -> (r: Result<WatchRegistry, ()>)
    ensures
        r matches Ok(out) ==> out.watches@ == without_stack(reg.watches@, stack@)
            && out.watches@.len() < reg.watches@.len(),
        r is Err ==> without_stack(reg.watches@, stack@).len() == reg.watches@.len(),
{
    let kept = retain_other_stacks(&reg.watches, stack);
    if kept.len() == reg.watches.len() {
        Err(())
    } else {
        Ok(WatchRegistry { watches: kept })
    }
}

/// The index of the watch whose composition file is the changed path.
pub fn watch_for_path(reg: &WatchRegistry, path: &String) -> (r: Option<usize>)
    ensures
        r matches Some(i) ==> i < reg.watches@.len() && reg.watches@[i as int].compose_path@
            == path@,
        r is None ==> forall|j: int|
            0 <= j < reg.watches@.len() ==> (#[trigger] reg.watches@[j]).compose_path@ != path@,
{
    let n = reg.watches.len();
    let mut i: usize = 0;
    while i < n
        invariant
            0 <= i <= n,
            n == reg.watches@.len(),
            forall|j: int| 0 <= j < i ==> (#[trigger] reg.watches@[j]).compose_path@ != path@,
        decreases n - i,
    {
        if reg.watches[i].compose_path.eq(path) {
            return Some(i);
        }
        i = i + 1;
    }
    None
}

// ------------------------------------------------------------------
// Service unit
// ------------------------------------------------------------------

/// The service manager unit that keeps the daemon running, for the
/// given binary and user.
pub fn generate_unit(user: &str, binary_path: &str) -> (r: String)
    ensures
        r@ == ("[Unit]\nDescription=Rehearsa Restore Contract Engine\nAfter=docker.service\nRequires=docker.service\n\n[Service]\nType=simple\nExecStart=")@
            + binary_path@ + (" daemon run\nRestart=always\nRestartSec=10\nUser=")@ + user@ + (
        "\nEnvironment=RUST_LOG=info\n\n[Install]\nWantedBy=multi-user.target\n")@,
{
    let mut s = String::from_str(
        "[Unit]\nDescription=Rehearsa Restore Contract Engine\nAfter=docker.service\nRequires=docker.service\n\n[Service]\nType=simple\nExecStart=",
    );
    s.append(binary_path);
    s.append(" daemon run\nRestart=always\nRestartSec=10\nUser=");
    s.append(user);
    s.append("\nEnvironment=RUST_LOG=info\n\n[Install]\nWantedBy=multi-user.target\n");
    s
}

// ------------------------------------------------------------------
// Cron evaluation
// ------------------------------------------------------------------

/// The most recent fire time of a cron expression at or before `now`
/// (seconds since the epoch), looking back one day and an hour; a
/// pure function of the expression and the instant.
pub uninterp spec fn cron_prev_fire_at(expr: Seq<char>, now: int) -> Option<i64>;

/// Whether a six-field cron expression parses.
pub uninterp spec fn cron_valid(expr: Seq<char>) -> bool;

/// Relies on cron's `Schedule::from_str` and `Schedule::after` (with
/// chrono instants at the boundary): the most recent fire time at or
/// before `now` within the look-back window, a function of the
/// expression and the instant alone, never after `now`.  Instants
/// before the epoch are excluded: near chrono's minimum instant the
/// look-back subtraction would not be representable.
#[verifier::external_body]
pub fn cron_prev_fire(expr: &str, now_secs: i64) -> (r: Option<i64>)
    requires
        now_secs >= 0,
    ensures
        r == cron_prev_fire_at(expr@, now_secs as int),
        r matches Some(t) ==> t <= now_secs,
{
    let schedule = match <cron::Schedule as std::str::FromStr>::from_str(expr) {
        Ok(s) => s,
        Err(_) => {
            return None;
        },
    };
    let now = match chrono::DateTime::<chrono::Utc>::from_timestamp(now_secs, 0) {
        Some(t) => t,
        None => {
            return None;
        },
    };
    let start = now - chrono::Duration::hours(25);
    let fire = schedule.after(&start).take_while(|t| t <= &now).last()?;
    Some(fire.timestamp())
}

/// Relies on cron's `Schedule::from_str`: whether the expression
/// parses, a function of the text alone.
#[verifier::external_body]
pub fn cron_expr_ok(expr: &str) -> (r: bool)
    ensures
        r == cron_valid(expr@),
{
    <cron::Schedule as std::str::FromStr>::from_str(expr).is_ok()
}

/// A five-field expression with the seconds field fixed to zero.
pub fn full_cron_expr(expr: &str) -> (r: String)
    ensures
        r@ == ("0 ")@ + expr@,
{
    let mut s = String::from_str("0 ");
    s.append(expr);
    s
}

// ------------------------------------------------------------------
// The scheduler's decision
// ------------------------------------------------------------------

/// What the scheduler does for one watch at one tick.
pub enum SchedulerAction {
    /// Nothing to do: no fire time, or the slot already ran.
    Skip,
    /// A slot was missed and catch-up is off: record it, dispatch
    /// nothing.
    RecordOnly(i64),
    /// Record the slot and dispatch a rehearsal.
    Fire(i64),
}

/// The decision table: no fire time or an already-covered slot skips;
/// a missed slot without catch-up is recorded silently; a missed slot
/// with catch-up, or a first evaluation, fires.
pub open spec fn scheduler_spec(prev: Option<i64>, last_fire: Option<i64>, catch_up: bool) -> SchedulerAction {
    match last_fire {
        None => SchedulerAction::Skip,
        Some(t) => match prev {
            Some(p) => if p >= t {
                SchedulerAction::Skip
            } else if catch_up {
                SchedulerAction::Fire(t)
            } else {
                SchedulerAction::RecordOnly(t)
            },
            None => SchedulerAction::Fire(t),
        },
    }
}

/// The stored state after an action: a recorded or fired slot becomes
/// the new last-run time.
pub open spec fn state_after(prev: Option<i64>, action: SchedulerAction) -> Option<i64> {
    match action {
        SchedulerAction::Skip => prev,
        SchedulerAction::RecordOnly(t) => Some(t),
        SchedulerAction::Fire(t) => Some(t),
    }
}

/// Decide one watch at one tick, from the stored last-run time and
/// the most recent fire time.
pub fn scheduler_step(prev: Option<i64>, last_fire: Option<i64>, catch_up: bool) -> (a:
    SchedulerAction)
    ensures
        a == scheduler_spec(prev, last_fire, catch_up),
{
    match last_fire {
        None => SchedulerAction::Skip,
        Some(t) => match prev {
            Some(p) => {
                if p >= t {
                    SchedulerAction::Skip
                } else if catch_up {
                    SchedulerAction::Fire(t)
                } else {
                    SchedulerAction::RecordOnly(t)
                }
            },
            None => SchedulerAction::Fire(t),
        },
    }
}

/// Law: with a fixed instant, re-evaluating after the state update
/// does nothing, so each fire-time window dispatches at most once.
pub proof fn lemma_scheduler_idempotent(prev: Option<i64>, last_fire: Option<i64>, catch_up: bool)
    ensures
        scheduler_spec(
            state_after(prev, scheduler_spec(prev, last_fire, catch_up)),
            last_fire,
            catch_up,
        ) == SchedulerAction::Skip || scheduler_spec(prev, last_fire, catch_up)
            == SchedulerAction::Skip,
        scheduler_spec(prev, last_fire, catch_up) == SchedulerAction::Skip ==> state_after(
            prev,
            scheduler_spec(prev, last_fire, catch_up),
        ) == prev,
{
}

} // verus!

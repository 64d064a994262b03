//! The per-stack lock's verified core: what the lock file holds, how
//! a holder is read back, and the acquisition decision.
//!
//! The file itself is created with exclusive-create semantics, which
//! the filesystem guarantees at the boundary: of two racing creators
//! exactly one succeeds.  Everything after that observation is
//! decided here.

use vstd::prelude::*;
use vstd::string::StrSliceExecFns;
use vstd::string::StringExecFns;
use crate::strutil::dec_digits;
use crate::strutil::parse_u64_str;
use crate::strutil::str_has_prefix;

verus! {

/// A held per-stack lock: the path of its file, kept so the holder
/// can remove it on release.
pub struct StackLock {
    pub path: String,
}

/// What the lock file holds.
pub open spec fn lock_contents_spec(pid: u32, hostname: Seq<char>, timestamp: Seq<char>) -> Seq<
    char,
> {
    ("pid: ")@ + dec_digits(pid as nat) + ("\nhostname: ")@ + hostname + ("\ntimestamp: ")@
        + timestamp + ("\n")@
}

/// Render the lock file: the holder's pid, host and acquisition time.
pub fn lock_file_contents(pid: u32, hostname: &str, timestamp: &str) -> (r: String)
    ensures
        r@ == lock_contents_spec(pid, hostname@, timestamp@),
{
    let mut s = String::from_str("pid: ");
    s.append(crate::strutil::u64_string(pid as u64).as_str());
    s.append("\nhostname: ");
    s.append(hostname);
    s.append("\ntimestamp: ");
    s.append(timestamp);
    s.append("\n");
    proof {
        assert(s@ =~= lock_contents_spec(pid, hostname@, timestamp@));
    }
    s
}

/// Read the holder's pid back from a lock file: the digits after the
/// `pid: ` prefix, up to the end of the first line.
pub fn parse_lock_pid(content: &str) -> (r: Option<u32>)
    ensures
        forall|pid: u32, hostname: Seq<char>, timestamp: Seq<char>|
            content@ == #[trigger] lock_contents_spec(pid, hostname, timestamp) ==> r == Some(pid),
{
    proof {
        reveal_strlit("pid: ");
        reveal_strlit("\nhostname: ");
    }
    if !str_has_prefix(content, "pid: ") {
        proof {
            assert forall|pid: u32, hostname: Seq<char>, timestamp: Seq<char>|
                content@ != #[trigger] lock_contents_spec(pid, hostname, timestamp) by {
                if content@ == lock_contents_spec(pid, hostname, timestamp) {
                    assert(content@.subrange(0, 5) =~= ("pid: ")@);
                }
            }
        }
        return None;
    }
    let n = content.unicode_len();
    // find the end of the digit run after the prefix
    let mut i: usize = 5;
    let mut done = false;
    while i < n && !done
        invariant
            5 <= i <= n,
            n == content@.len(),
            forall|j: int| 5 <= j < i ==> content@[j] != '\n',
            done ==> i < n && content@[i as int] == '\n',
        decreases n - i, 1int - (if done { 1int } else { 0int }),
    {
        if content.get_char(i) == '\n' {
            done = true;
        } else {
            i = i + 1;
        }
    }
    if !done {
        proof {
            assert forall|pid: u32, hostname: Seq<char>, timestamp: Seq<char>|
                content@ != #[trigger] lock_contents_spec(pid, hostname, timestamp) by {
                if content@ == lock_contents_spec(pid, hostname, timestamp) {
                    crate::strutil::lemma_dec_digits_all_digits(pid as nat);
                    assert(content@[5 + dec_digits(pid as nat).len() as int] == '\n');
                }
            }
        }
        return None;
    }
    let digits = content.substring_char(5, i);
    let parsed = parse_u64_str(digits);
    match parsed {
        Some(v) => {
            if v <= 4294967295u64 {
                proof {
                    assert forall|pid: u32, hostname: Seq<char>, timestamp: Seq<char>|
                        content@ == #[trigger] lock_contents_spec(
                            pid,
                            hostname,
                            timestamp,
                        ) implies v == pid as u64 by {
                        lemma_lock_pid_digits(content@, pid, hostname, timestamp, i as int);
                        crate::strutil::lemma_dec_value_of_digits(pid as nat);
                    }
                }
                Some(v as u32)
            } else {
                proof {
                    assert forall|pid: u32, hostname: Seq<char>, timestamp: Seq<char>|
                        content@ != #[trigger] lock_contents_spec(
                            pid,
                            hostname,
                            timestamp,
                        ) by {
                        if content@ == lock_contents_spec(pid, hostname, timestamp) {
                            lemma_lock_pid_digits(content@, pid, hostname, timestamp, i as int);
                            crate::strutil::lemma_dec_value_of_digits(pid as nat);
                        }
                    }
                }
                None
            }
        },
        None => {
            proof {
                assert forall|pid: u32, hostname: Seq<char>, timestamp: Seq<char>|
                    content@ != #[trigger] lock_contents_spec(
                        pid,
                        hostname,
                        timestamp,
                    ) by {
                    if content@ == lock_contents_spec(pid, hostname, timestamp) {
                        lemma_lock_pid_digits(content@, pid, hostname, timestamp, i as int);
                        crate::strutil::lemma_dec_value_prefix(
                            dec_digits(pid as nat),
                            dec_digits(pid as nat).len() as int,
                        );
                        crate::strutil::lemma_dec_value_of_digits(pid as nat);
                    }
                }
            }
            None
        },
    }
}

/// On a canonical lock file, the scan that stops at the first
/// newline after the prefix captures exactly the pid's digits.
proof fn lemma_lock_pid_digits(
    content: Seq<char>,
    pid: u32,
    hostname: Seq<char>,
    timestamp: Seq<char>,
    i: int,
)
    requires
        content == lock_contents_spec(pid, hostname, timestamp),
        5 <= i < content.len(),
        content[i] == '\n',
        forall|j: int| 5 <= j < i ==> content[j] != '\n',
    ensures
        content.subrange(5, i) == dec_digits(pid as nat),
        crate::strutil::all_digits(content.subrange(5, i)),
        crate::strutil::dec_value(content.subrange(5, i)) == pid as nat,
{
    reveal_strlit("pid: ");
    reveal_strlit("\nhostname: ");
    let dd = dec_digits(pid as nat);
    crate::strutil::lemma_dec_digits_all_digits(pid as nat);
    let endpos: int = 5 + dd.len() as int;
    assert(content[endpos] == '\n');
    assert forall|j: int| 5 <= j < endpos implies content[j] != '\n' by {
        assert(content[j] == dd[j - 5]);
        assert(crate::strutil::is_digit(dd[j - 5]));
    }
    if i < endpos {
        assert(content[i] != '\n');
        assert(false);
    }
    if i > endpos {
        assert(content[endpos] != '\n');
        assert(false);
    }
    assert(content.subrange(5, i) =~= dd);
    crate::strutil::lemma_dec_value_of_digits(pid as nat);
}

/// What an acquisition attempt decides.
pub enum LockDecision {
    /// The file was created: the lock is held.
    Acquired,
    /// The file existed but its holder is gone or unreadable: remove
    /// the stale file and try once more.
    Reclaim,
    /// The file existed and its holder is alive: the stack is already
    /// being rehearsed.
    Held(u32),
}

/// The acquisition decision from what was observed: a successful
/// exclusive create acquires; an existing file with a live holder is
/// held by that pid; a dead or unreadable holder is reclaimed.
pub open spec fn acquire_outcome(created: bool, holder: Option<u32>, alive: bool) -> LockDecision {
    if created {
        LockDecision::Acquired
    } else {
        match holder {
            Some(p) => if alive {
                LockDecision::Held(p)
            } else {
                LockDecision::Reclaim
            },
            None => LockDecision::Reclaim,
        }
    }
}

/// Decide an acquisition attempt.
pub fn acquire_decision(created: bool, holder: Option<u32>, alive: bool) -> (d: LockDecision)
    ensures
        d == acquire_outcome(created, holder, alive),
{
    if created {
        LockDecision::Acquired
    } else {
        match holder {
            Some(p) => {
                if alive {
                    LockDecision::Held(p)
                } else {
                    LockDecision::Reclaim
                }
            },
            None => LockDecision::Reclaim,
        }
    }
}

/// Law: of two contending acquisitions, the one whose exclusive
/// create succeeded holds the lock, and the other, reading the live
/// holder back, observes exactly `Held` with that pid — never a
/// second acquisition.
pub proof fn lemma_lock_exclusion(p: u32, holder_seen: Option<u32>, alive: bool)
    ensures
        acquire_outcome(true, holder_seen, alive) == LockDecision::Acquired,
        acquire_outcome(false, Some(p), true) == LockDecision::Held(p),
        acquire_outcome(false, Some(p), true) != LockDecision::Acquired,
{
}

} // verus!

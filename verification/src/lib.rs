//! A restore-contract rehearsal engine for container-composed stacks:
//! dependency-ordered bring-up decisions, health scoring, an
//! append-only history with content-addressed integrity hashes,
//! pinned baseline contracts with drift comparison, policy gates, a
//! crash-safe cron scheduler, and per-stack lock arbitration.
//!
//! Everything here is stated in contracts and verified; the
//! filesystem, the container runtime, and the network sit outside,
//! handing in plain values and taking plain values back.

pub mod baseline;
pub mod coverage;
pub mod engine;
pub mod graph;
pub mod history;
pub mod lock;
pub mod model;
pub mod notify;
pub mod policy;
pub mod preflight;
pub mod provider;
pub mod record;
pub mod report;
pub mod sched;
pub mod strutil;

//! Where the write lock of a graph is taken.
use vstd::prelude::*;
use crate::access_log::{sidecar_path, sidecar_path_spec};
use crate::kg_codec::{parse_u64, parse_u64_spec};
use crate::paths::KgPath;
use crate::text::chars_of;

verus! {

/// How long a writer waits for the lock when nothing else is configured,
/// in milliseconds.
pub const DEFAULT_LOCK_TIMEOUT_MS: u64 = 30000;

/// How long a writer sleeps between attempts, in milliseconds.
pub const LOCK_RETRY_SLEEP_MS: u64 = 50;

/// The lock file of a graph, in its cache directory.
pub fn lock_path_for_graph(graph_path: &KgPath) -> (r: KgPath)
    ensures
        r@ == sidecar_path_spec(graph_path@, ".write.lock"@),
{
    sidecar_path(graph_path, ".write.lock")
}

/// The lock timeout from the `KG_GRAPH_LOCK_TIMEOUT_MS` setting: its value
/// when it reads as an unsigned integer, else the default.
pub fn lock_timeout_ms(setting: Option<&str>) -> (r: u64)
    ensures
        r == match setting {
            Some(s) => match parse_u64_spec(s@) {
                Some(v) => v,
                None => DEFAULT_LOCK_TIMEOUT_MS,
            },
            None => DEFAULT_LOCK_TIMEOUT_MS,
        },
{
    match setting {
        Some(s) => {
            let cs = chars_of(s);
            match parse_u64(cs.as_slice()) {
                Some(v) => v,
                None => DEFAULT_LOCK_TIMEOUT_MS,
            }
        },
        None => DEFAULT_LOCK_TIMEOUT_MS,
    }
}

/// What a writer does after an attempt to create the lock file failed
/// because the file exists.
pub enum LockWait {
    /// Sleep for the retry interval and try again.
    Retry,
    /// Stop waiting: the lock is held by someone else.
    GiveUp,
}

/// The decision after a failed attempt, `elapsed_ms` after the first one:
/// give up once the timeout has passed.
pub fn lock_wait_decision(elapsed_ms: u128, timeout_ms: u128) -> (r: LockWait)
    ensures
        r is GiveUp <==> elapsed_ms >= timeout_ms,
{
    if elapsed_ms >= timeout_ms {
        LockWait::GiveUp
    } else {
        LockWait::Retry
    }
}

} // verus!

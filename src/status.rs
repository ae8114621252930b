//! Sync status and health, derived from the metadata that the indexer keeps.

use vstd::prelude::*;
use crate::decimal::{parse_u128, parse_u128_spec, parse_u64, parse_u64_spec};
use crate::opt_view;

verus! {

/// Nanoseconds in a second.
pub const NANOS_PER_SEC: u128 = 1_000_000_000;

/// Thresholds of a healthy index.
#[derive(Clone, Copy, Debug, PartialEq, Eq, Structural)]
pub struct Config {
    /// Largest sync latency, in seconds, that is still healthy.
    pub max_healthy_latency_sec: u64,
    /// Largest lag of the balance sync behind the block sync, in blocks,
    /// that is still healthy.
    pub max_healthy_sync_block_diff: u64,
}

/// The raw numbers of the index's sync state.
pub struct SyncStatus {
    /// Height of the last block synced; none where it is not stored or is
    /// not a number.
    pub sync_block_height: Option<u64>,
    /// Time since the last block synced, in nanoseconds; never negative, and
    /// none where the timestamp is not stored or is not a number.
    pub sync_latency_nanos: Option<u128>,
    /// The stored timestamp of the last block synced, in nanoseconds.
    pub sync_block_timestamp_nanosec: Option<String>,
    /// Height of the last block whose balances were synced; none where it is
    /// not stored or is not a number.
    pub sync_balance_block_height: Option<u64>,
}

#[derive(Clone, Copy, Debug, PartialEq, Eq, Structural)]
pub enum HealthVerdict {
    Healthy,
    Unhealthy,
}

/// A stored block height: a value that is not a number is as unknown as a
/// missing one.
pub open spec fn stored_height(s: Option<Seq<char>>) -> Option<u64> {
    match s {
        Some(t) => parse_u64_spec(t),
        None => None,
    }
}

pub open spec fn saturating_sub(a: int, b: int) -> nat {
    if a > b {
        (a - b) as nat
    } else {
        0
    }
}

/// Time from the stored block timestamp to `now_nanos`: unknown where the
/// timestamp is missing or not a number, and zero for a timestamp ahead of
/// now.
pub open spec fn latency_nanos(block_time: Option<Seq<char>>, now_nanos: nat) -> Option<nat> {
    match block_time {
        Some(t) => match parse_u128_spec(t) {
            Some(v) => Some(saturating_sub(now_nanos as int, v as int)),
            None => None,
        },
        None => None,
    }
}

fn stored_height_exec(s: &Option<String>) -> (r: Option<u64>)
    ensures
        r == stored_height(opt_view(*s)),
{
    match s {
        Some(t) => parse_u64(t.as_str()),
        None => None,
    }
}

/// Reads the sync metadata, `now_nanos` being the current time in
/// nanoseconds since the epoch.
pub fn status(
    latest_block: Option<String>,
    latest_block_time: Option<String>,
    latest_balance_block: Option<String>,
    now_nanos: u128,
) -> (r: SyncStatus)
    ensures
        r.sync_block_height == stored_height(opt_view(latest_block)),
        match r.sync_latency_nanos {
            Some(l) => latency_nanos(opt_view(latest_block_time), now_nanos as nat) == Some(l as nat),
            None => latency_nanos(opt_view(latest_block_time), now_nanos as nat) is None,
        },
        r.sync_block_timestamp_nanosec == latest_block_time,
        r.sync_balance_block_height == stored_height(opt_view(latest_balance_block)),
{
    let sync_latency_nanos = match &latest_block_time {
        Some(t) => match parse_u128(t.as_str()) {
            Some(t_nanos) => Some(
                if now_nanos > t_nanos {
                    now_nanos - t_nanos
                } else {
                    0
                },
            ),
            None => None,
        },
        None => None,
    };
    SyncStatus {
        sync_block_height: stored_height_exec(&latest_block),
        sync_latency_nanos,
        sync_block_timestamp_nanosec: latest_block_time,
        sync_balance_block_height: stored_height_exec(&latest_balance_block),
    }
}

/// The index is healthy when every number is known, the sync latency is
/// within the limit, and the balance sync lags the block sync by no more
/// than the limit (a balance sync ahead counts as no lag).
pub open spec fn is_healthy(s: SyncStatus, config: Config) -> bool {
    match (s.sync_latency_nanos, s.sync_block_height, s.sync_balance_block_height) {
        (Some(latency), Some(block), Some(balance_block)) => {
            &&& latency <= config.max_healthy_latency_sec as nat * NANOS_PER_SEC as nat
            &&& saturating_sub(block as int, balance_block as int)
                <= config.max_healthy_sync_block_diff
        },
        _ => false,
    }
}

/// Whether the index is healthy: anything missing or unreadable makes it
/// unhealthy.
pub fn health(s: &SyncStatus, config: &Config) -> (r: HealthVerdict)
    ensures
        r == if is_healthy(*s, *config) {
            HealthVerdict::Healthy
        } else {
            HealthVerdict::Unhealthy
        },
{
    let latency = match s.sync_latency_nanos {
        Some(l) => l,
        None => return HealthVerdict::Unhealthy,
    };
    let limit: u128 = config.max_healthy_latency_sec as u128 * NANOS_PER_SEC;
    if latency > limit {
        return HealthVerdict::Unhealthy;
    }
    let (block, balance_block) = match (s.sync_block_height, s.sync_balance_block_height) {
        (Some(b), Some(bb)) => (b, bb),
        _ => return HealthVerdict::Unhealthy,
    };
    let lag: u64 = if block > balance_block {
        block - balance_block
    } else {
        0
    };
    if lag > config.max_healthy_sync_block_diff {
        HealthVerdict::Unhealthy
    } else {
        HealthVerdict::Healthy
    }
}

} // verus!

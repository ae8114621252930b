//! Read-side data access for an index of chain account state: key layout,
//! record parsing, balance batching, top-holder ranking, retry policy,
//! sync health and the remote balance fallback.

use vstd::prelude::*;

pub mod decimal;
pub mod ids;
pub mod keys;
pub mod ranking;
pub mod records;
pub mod retry;
pub mod rpc;
pub mod status;

verus! {

/// The text that an optional string holds.
pub open spec fn opt_view(s: Option<String>) -> Option<Seq<char>> {
    match s {
        Some(t) => Some(t@),
        None => None,
    }
}

} // verus!

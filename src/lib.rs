//! Relay and archival core for live game replays: the merged replay stream,
//! the per-writer streams, the quorum merge, the replay lifecycle and the
//! connection framing.

use vstd::prelude::*;

pub mod config;
pub mod delay;
pub mod error;
pub mod header;
pub mod lifecycle;
pub mod merge_strategy;
pub mod merged_replay;
pub mod position;
pub mod replays;
pub mod save;
pub mod sender;
pub mod vault;
pub mod writer_replay;

verus! {

} // verus!

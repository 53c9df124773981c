//! Verified core of a river-trading adventure and its companion kits.

use vstd::prelude::*;

pub mod distance;
pub mod oracle;
pub mod text;
pub mod resolve;
pub mod engine;
pub mod hash;
pub mod format;
pub mod flavor;
pub mod tasks;
pub mod policy;
pub mod market_link;
pub mod gossip;
pub mod rumor;
pub mod scoring;
pub mod interaction;
pub mod net;
pub mod relay;
pub mod minigames;

verus! {

/// Where to land once the message queue drains and no leg or voyage is
/// running.
#[derive(Debug, Clone, Copy, PartialEq, Eq)]
pub enum Resume {
    Town,
    Falls,
    GrandTower,
    CaveInRock,
    Natchez,
    TraceHub,
    Leg,
    NextDay,
    /// After the moored hazard's narration drains, launch the self-repair
    /// sequence (then fall back to the town hub).
    SelfRepair,
}

} // verus!

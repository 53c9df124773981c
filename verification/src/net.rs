//! The client → server half of the shared-economy wire protocol. Pure message
//! data with no transport attached: the transport and its encoding live in
//! each end.

use vstd::prelude::*;

use crate::market_link::Side;

verus! {

/// Client → server.
#[derive(Debug, Clone, PartialEq, Eq)]
pub enum ClientMsg {
    /// Join the shared world under a display handle.
    Join { handle: String },
    /// Place a market order at `town` for `good`: buy/sell `qty` units. The
    /// server prices it against the live shared market and replies with a fill.
    TradeOrder { town: usize, good: usize, side: Side, qty: i64 },
    /// Ask for a fresh full snapshot (e.g. after a reconnect).
    Resync,
    /// Leave the world.
    Leave,
}

} // verus!

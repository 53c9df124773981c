//! The seam between a game and a shared market: which way a trade went.

use vstd::prelude::*;

verus! {

/// Which way a trade went.
#[derive(Debug, Clone, Copy, PartialEq, Eq)]
pub enum Side {
    Buy,
    Sell,
}

} // verus!

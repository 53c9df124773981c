//! The engine ↔ UI contract: the player's possible answers to a prompt, and
//! the reports logged to the notification center.

use vstd::prelude::*;

verus! {

/// The player's answer to the current interaction.
#[derive(Debug, Clone, Copy, PartialEq, Eq, Structural)]
pub enum Response {
    Acknowledge,
    Yes,
    No,
}

/// A market report logged to the notification center rather than popped up:
/// wharf-factor lines, rumor payoffs, next-leg price tips, and trader gossip.
/// `read` flips once the player has opened the center.
#[derive(Debug, Clone, PartialEq, Eq)]
pub struct Notification {
    pub text: String,
    pub read: bool,
}

} // verus!

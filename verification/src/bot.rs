//! The bot's answers to gateway events.
use vstd::prelude::*;
use vstd::string::StringExecFns;

verus! {

/// Whether a member's voice-state change concerns the target channel: the member is
/// now in it, or was in it before.
pub open spec fn concerns_target(new_channel: Option<u64>, old_channel: Option<u64>, target: u64) -> bool {
    new_channel == Some(target) || old_channel == Some(target)
}

/// Whether a member's voice-state change concerns the target channel.
pub fn touches_target(new_channel: Option<u64>, old_channel: Option<u64>, target: u64) -> (r: bool)
    ensures
        r == concerns_target(new_channel, old_channel, target),
{
    new_channel == Some(target) || old_channel == Some(target)
}

/// How a `/stop` command went.
#[derive(Debug, Clone, PartialEq, Eq)]
pub enum StopOutcome {
    /// The bot left its voice channel.
    Left,
    /// The bot was not in a voice channel.
    NotConnected,
    /// Leaving failed; holds the reason.
    LeaveFailed(String),
    /// The command came from outside a server.
    NotInServer,
    /// The bot's own state was missing; holds the reason.
    Internal(String),
}

/// The reply to a `/stop` command.
pub fn stop_reply(outcome: &StopOutcome) -> (r: String)
    ensures
        r@ == match outcome {
            StopOutcome::Left => "Left the voice channel."@,
            StopOutcome::NotConnected => "I wasn't in a voice channel."@,
            StopOutcome::LeaveFailed(e) => "Failed to leave: "@ + e@,
            StopOutcome::NotInServer => "This command must be used in a server."@,
            StopOutcome::Internal(e) => "Internal error: "@ + e@,
        },
{
    match outcome {
        StopOutcome::Left => String::from_str("Left the voice channel."),
        StopOutcome::NotConnected => String::from_str("I wasn't in a voice channel."),
        StopOutcome::LeaveFailed(e) => {
            let mut r = String::from_str("Failed to leave: ");
            r.append(e.as_str());
            r
        },
        StopOutcome::NotInServer => String::from_str("This command must be used in a server."),
        StopOutcome::Internal(e) => {
            let mut r = String::from_str("Internal error: ");
            r.append(e.as_str());
            r
        },
    }
}

} // verus!

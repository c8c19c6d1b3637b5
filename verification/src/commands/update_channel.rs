//! The `update-channel` command.

use vstd::prelude::*;

verus! {

/// The arguments of the `update-channel` command.
#[derive(Debug, Clone, Copy, PartialEq, Eq, Structural)]
pub struct UpdateChannelArguments {
    pub channel: i8,
    pub mute: bool,
    pub solo: bool,
}

/// Updates the state of a channel.
pub struct UpdateChannelCommand {}

} // verus!

//! The decisions of the loop that keeps the state tree of an open device.

use crate::device::io::IoRxEvent;
use crate::protocol::types::composite::{spec_apply_patch, Composite};
use vstd::prelude::*;

verus! {

/// What the state loop does after an event.
#[derive(Debug, PartialEq, Eq, Structural)]
pub enum StateAction {
    /// A state report was taken: signal that the state is ready.
    SignalReady,
    /// Go on with the next event.
    Continue,
    /// Wait a moment, then go on.
    Wait,
    /// End the loop.
    Stop,
}

/// Applies an event of the receive loop to the state tree: a state report replaces it, a
/// property patch is applied to it (a refused patch leaves it as it was).
pub fn state_step(state: &mut Composite, event: IoRxEvent) -> (r: StateAction)
    ensures
        match event {
            IoRxEvent::DeviceReportReceived(report) => r == StateAction::SignalReady && final(state)@
                == report@,
            IoRxEvent::PropertyPatchReceived(patch) => r == StateAction::Continue && final(state)@ == (
            match spec_apply_patch(old(state)@, patch@.indices, patch@.name, patch@.value) {
                Ok(c) => c,
                Err(_) => old(state)@,
            }),
            IoRxEvent::Disconnect => r == StateAction::Stop && final(state)@ == old(state)@,
            IoRxEvent::UnknownPacket(_) => r == StateAction::Continue && final(state)@ == old(state)@,
            IoRxEvent::Error(_) => r == StateAction::Wait && final(state)@ == old(state)@,
        },
{
    match event {
        IoRxEvent::DeviceReportReceived(report) => {
            *state = report.into_status();
            StateAction::SignalReady
        },
        IoRxEvent::PropertyPatchReceived(patch) => {
            let (indices, name, value) = patch.into_parts();
            let _ = state.apply_patch(indices, name, value);
            StateAction::Continue
        },
        IoRxEvent::Disconnect => StateAction::Stop,
        IoRxEvent::UnknownPacket(_) => StateAction::Continue,
        IoRxEvent::Error(_) => StateAction::Wait,
    }
}

} // verus!

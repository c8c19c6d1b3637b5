//! The state of a RØDECaster Pro II as the host sees it.

use crate::devices::rodecaster_pro_ii::handle::RodeCasterProIIEvent;
use crate::protocol::packets::device_status_packet::DeviceStatusPacket;
use crate::protocol::packets::property_patch_packet::PropertyPatchPacket;
use crate::protocol::types::composite::{spec_apply_patch, Composite, SpecComposite};
use vstd::prelude::*;

verus! {

/// The state tree of the device, once a state report has been received.
#[derive(Debug)]
pub struct RodeCasterProIIState {
    pub root: Option<Composite>,
}

impl View for RodeCasterProIIState {
    type V = Option<SpecComposite>;

    open spec fn view(&self) -> Option<SpecComposite> {
        match self.root {
            Some(c) => Some(c@),
            None => None,
        }
    }
}

/// The state after a property patch: where there is a state tree, the patched tree if the
/// patch is accepted, else the tree as it was.
pub open spec fn spec_after_patch(
    state: Option<SpecComposite>,
    indices: Seq<usize>,
    name: Seq<char>,
    value: crate::protocol::types::value::SpecValue,
) -> Option<SpecComposite> {
    match state {
        Some(c) => match spec_apply_patch(c, indices, name, value) {
            Ok(c2) => Some(c2),
            Err(_) => Some(c),
        },
        None => None,
    }
}

impl Default for RodeCasterProIIState {
    /// No state received yet.
    fn default() -> (r: RodeCasterProIIState)
        ensures
            r@ is None,
    {
        RodeCasterProIIState { root: None }
    }
}

impl RodeCasterProIIState {
    /// Takes the state tree of a state report as the state.
    pub fn apply_device_report(&mut self, report: DeviceStatusPacket)
        ensures
            final(self)@ == Some(report@),
    {
        self.root = Some(report.into_status());
    }

    /// Applies a property patch to the state tree, if there is one. A refused patch leaves
    /// the tree as it was.
    pub fn apply_property_update(&mut self, update: PropertyPatchPacket)
        ensures
            final(self)@ == spec_after_patch(old(self)@, update@.indices, update@.name, update@.value),
    {
        let root = self.root.take();
        match root {
            Some(mut c) => {
                let (indices, name, value) = update.into_parts();
                let _ = c.apply_patch(indices, name, value);
                self.root = Some(c);
            },
            None => {},
        }
    }

    /// Applies what an event of the I/O loop says of the state: a state report replaces it, a
    /// property patch is applied to it, other events leave it as it is.
    pub fn apply_event(&mut self, event: RodeCasterProIIEvent)
        ensures
            match event {
                RodeCasterProIIEvent::DeviceReportReceived(report) => final(self)@ == Some(report@),
                RodeCasterProIIEvent::PropertyPatchReceived(update) => final(self)@ == spec_after_patch(
                    old(self)@,
                    update@.indices,
                    update@.name,
                    update@.value,
                ),
                _ => final(self)@ == old(self)@,
            },
    {
        match event {
            RodeCasterProIIEvent::DeviceReportReceived(report) => self.apply_device_report(report),
            RodeCasterProIIEvent::PropertyPatchReceived(update) => self.apply_property_update(update),
            _ => {},
        }
    }
}

} // verus!

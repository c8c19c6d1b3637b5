//! The `update-soundpad` command: sets whether a sound pad loops.
//!
//! The sound pads are the children of the object of the state tree whose name holds
//! `SOUNDPADS`.

use crate::commands::{
    first_match, lemma_position_first, lemma_position_is_first_match, lemma_position_none, position_of_child,
    spec_position,
};
use crate::protocol::packets::property_patch_packet::{PropertyPatchPacket, SpecPatchPacket};
use crate::protocol::types::composite::{lemma_composites_view, Composite, SpecComposite};
use crate::protocol::types::value::{SpecValue, Value};
use vstd::prelude::*;

verus! {

/// Sets whether a sound pad loops.
pub struct UpdateSoundpadCommand {}

/// The arguments of the `update-soundpad` command.
#[derive(Debug, Clone, Copy, PartialEq, Eq, Structural)]
pub struct UpdateSoundpadCommandArguments {
    /// The pad.
    pub pad: usize,
    /// Whether the pad loops.
    pub loop_: bool,
}

/// The patch that sets the property `padLoop` of pad `pad` of the sound pads object to
/// `loop_`; `None` where the state tree has no sound pads object.
pub open spec fn spec_soundpad_patch(root: SpecComposite, pad: usize, loop_: bool) -> Option<SpecPatchPacket> {
    match spec_position(root.children, "SOUNDPADS"@) {
        Some(offset) => Some(
            SpecPatchPacket { indices: seq![offset, pad], name: "padLoop"@, value: SpecValue::Bool(loop_) },
        ),
        None => None,
    }
}

/// Builds the patch that sets whether a sound pad of the device whose state tree is `root`
/// loops.
pub fn soundpad_patch(root: &Composite, arguments: UpdateSoundpadCommandArguments) -> (r: Option<
    PropertyPatchPacket,
>)
    ensures
        match spec_soundpad_patch(root@, arguments.pad, arguments.loop_) {
            Some(p) => r is Some && r->Some_0@ == p,
            None => r is None,
        },
        r matches Some(q) ==> q@.value == SpecValue::Bool(arguments.loop_) && q@.name == "padLoop"@,
{
    proof {
        lemma_composites_view(root.children@);
    }
    let offset = match position_of_child(&root.children, "SOUNDPADS") {
        Some(i) => i,
        None => {
            proof {
                lemma_position_none(root@.children, "SOUNDPADS"@);
            }
            return None;
        },
    };
    let ghost rc = root@.children;
    proof {
        lemma_position_is_first_match(rc, "SOUNDPADS"@, offset as int);
    }
    let indices: Vec<usize> = vec![offset, arguments.pad];
    proof {
        assert(indices@ =~= seq![offset, arguments.pad]);
    }
    Some(PropertyPatchPacket::new(indices, "padLoop".to_owned(), Value::Bool(arguments.loop_)))
}

/// Law: a sound pad patch sets the property `padLoop` to the requested state, of pad `pad`
/// of the first object whose name holds `SOUNDPADS`; there is no patch only where the state
/// tree has no such object.
pub proof fn lemma_soundpad_patch_target(root: SpecComposite, pad: usize, loop_: bool)
    requires
        root.children.len() <= usize::MAX,
    ensures
        match spec_soundpad_patch(root, pad, loop_) {
            Some(p) => {
                &&& p.value == SpecValue::Bool(loop_)
                &&& p.name == "padLoop"@
                &&& p.indices.len() == 2
                &&& first_match(root.children, "SOUNDPADS"@, p.indices[0] as int)
                &&& p.indices[1] == pad
            },
            None => forall|i: int| !first_match(root.children, "SOUNDPADS"@, i),
        },
{
    lemma_position_first(root.children, "SOUNDPADS"@);
}

} // verus!

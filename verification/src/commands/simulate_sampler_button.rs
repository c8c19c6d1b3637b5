//! The `simulate-sampler-button` command: presses or releases a sampler pad button.
//!
//! The pad buttons are children of the object of the state tree whose name holds
//! `PHYSICALINTERFACE`: the first of them is the first child whose name holds `PADBUTTON`,
//! the others follow it in order.

use crate::commands::{
    first_match, lemma_position_first, lemma_position_is_first_match, lemma_position_none, position_of_child,
    spec_contains_text, spec_position,
};
use crate::protocol::packets::property_patch_packet::{PropertyPatchPacket, SpecPatchPacket};
use crate::protocol::types::composite::{composites_view, lemma_composites_view, Composite, SpecComposite};
use crate::protocol::types::value::{SpecValue, Value};
use vstd::prelude::*;

verus! {

/// Presses or releases a sampler button.
pub struct SimulateSamplerButtonCommand {}

/// The arguments of the `simulate-sampler-button` command.
#[derive(Debug, Clone, Copy, PartialEq, Eq, Structural)]
pub struct SimulateSamplerButtonArguments {
    /// The sample button, top to bottom, left to right, 0 to 7.
    pub button: u8,
    /// Press or release the button.
    pub pressed: bool,
}

/// The patch that presses or releases button `button`: the property `padButtonPressed` of the
/// pad button child, set to `pressed`; `None` where the state tree has no physical interface
/// object or that object no pad button.
pub open spec fn spec_sampler_patch(root: SpecComposite, button: u8, pressed: bool) -> Option<SpecPatchPacket> {
    match spec_position(root.children, "PHYSICALINTERFACE"@) {
        Some(phys) => match spec_position(root.children[phys as int].children, "PADBUTTON"@) {
            Some(pad) => if pad + button <= usize::MAX {
                Some(SpecPatchPacket {
                    indices: seq![phys, (pad + button) as usize],
                    name: "padButtonPressed"@,
                    value: SpecValue::Bool(pressed),
                })
            } else {
                None
            },
            None => None,
        },
        None => None,
    }
}

/// Builds the patch that presses or releases a sampler button of the device whose state tree
/// is `root`.
pub fn sampler_button_patch(root: &Composite, arguments: SimulateSamplerButtonArguments) -> (r: Option<
    PropertyPatchPacket,
>)
    ensures
        match spec_sampler_patch(root@, arguments.button, arguments.pressed) {
            Some(p) => r is Some && r->Some_0@ == p,
            None => r is None,
        },
        r matches Some(q) ==> q@.value == SpecValue::Bool(arguments.pressed) && q@.name == "padButtonPressed"@,
{
    proof {
        lemma_composites_view(root.children@);
    }
    let phys = match position_of_child(&root.children, "PHYSICALINTERFACE") {
        Some(i) => i,
        None => {
            proof {
                lemma_position_none(root@.children, "PHYSICALINTERFACE"@);
            }
            return None;
        },
    };
    let ghost rc = root@.children;
    proof {
        lemma_position_is_first_match(rc, "PHYSICALINTERFACE"@, phys as int);
    }
    let physical = &root.children[phys];
    proof {
        lemma_composites_view(physical.children@);
        assert(rc[phys as int] == physical@);
    }
    let pad = match position_of_child(&physical.children, "PADBUTTON") {
        Some(i) => i,
        None => {
            proof {
                lemma_position_none(physical@.children, "PADBUTTON"@);
            }
            return None;
        },
    };
    let ghost pc = physical@.children;
    proof {
        lemma_position_is_first_match(pc, "PADBUTTON"@, pad as int);
    }
    let index = match pad.checked_add(arguments.button as usize) {
        Some(x) => x,
        None => {
            return None;
        },
    };
    let indices: Vec<usize> = vec![phys, index];
    proof {
        assert(indices@ =~= seq![phys, index]);
    }
    Some(PropertyPatchPacket::new(indices, "padButtonPressed".to_owned(), Value::Bool(arguments.pressed)))
}

/// Law: a sampler patch sets the property `padButtonPressed` to the requested state, of the
/// child that is the `button`-th after the first child whose name holds `PADBUTTON`, of the
/// first object whose name holds `PHYSICALINTERFACE`. There is no patch only where the state
/// tree has no such object, that object no such child, or the index does not fit a `usize`.
pub proof fn lemma_sampler_patch_target(root: SpecComposite, button: u8, pressed: bool)
    requires
        root.children.len() <= usize::MAX,
        forall|i: int| 0 <= i < root.children.len() ==> (#[trigger] root.children[i]).children.len() <= usize::MAX,
    ensures
        match spec_sampler_patch(root, button, pressed) {
            Some(p) => {
                &&& p.value == SpecValue::Bool(pressed)
                &&& p.name == "padButtonPressed"@
                &&& p.indices.len() == 2
                &&& first_match(root.children, "PHYSICALINTERFACE"@, p.indices[0] as int)
                &&& first_match(root.children[p.indices[0] as int].children, "PADBUTTON"@, p.indices[1] - button)
            },
            None => forall|i: int, j: int|
                first_match(root.children, "PHYSICALINTERFACE"@, i) && first_match(
                    root.children[i].children,
                    "PADBUTTON"@,
                    j,
                ) ==> j + button > usize::MAX,
        },
{
    lemma_position_first(root.children, "PHYSICALINTERFACE"@);
    match spec_position(root.children, "PHYSICALINTERFACE"@) {
        Some(phys) => {
            let pc = root.children[phys as int].children;
            assert(pc.len() <= usize::MAX);
            lemma_position_first(pc, "PADBUTTON"@);
            assert forall|i: int, j: int|
                first_match(root.children, "PHYSICALINTERFACE"@, i) && first_match(root.children[i].children, "PADBUTTON"@, j)
                implies i == phys && spec_position(pc, "PADBUTTON"@) == Some(j as usize) by {
                if i < phys {
                    assert(!spec_contains_text(root.children[i].name, "PHYSICALINTERFACE"@));
                }
                if phys < i {
                    assert(!spec_contains_text(root.children[phys as int].name, "PHYSICALINTERFACE"@));
                }
                lemma_position_is_first_match(pc, "PADBUTTON"@, j);
            }
        },
        None => {},
    }
}

} // verus!

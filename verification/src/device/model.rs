//! Device models and what the library knows of each.

use crate::devices::contains_id;
use vstd::prelude::*;

verus! {

/// A device model. The Duo and the Streamer X share the firmware of the Pro II, so they are
/// expected to work too.
#[derive(Debug, PartialEq, Eq, Copy, Clone, Structural)]
pub enum DeviceModel {
    ProII,
    DUMMY,
}

/// What the library knows of a device model: its display name and the ids it answers to.
#[derive(Debug)]
pub struct ModelCapabilities {
    name: &'static str,
    vendor_id: u16,
    product_ids: Vec<u16>,
}

/// The model of [`ModelCapabilities`].
pub struct SpecCapabilities {
    pub name: Seq<char>,
    pub vendor_id: u16,
    pub product_ids: Seq<u16>,
}

impl View for ModelCapabilities {
    type V = SpecCapabilities;

    closed spec fn view(&self) -> SpecCapabilities {
        SpecCapabilities { name: self.name@, vendor_id: self.vendor_id, product_ids: self.product_ids@ }
    }
}

/// The capabilities of each model: the Pro II is "RØDECaster Pro II" with vendor 0x19f7 and
/// its six product ids; the dummy model is "Dummy" with vendor 0x19f7 and no product id.
pub open spec fn spec_capabilities(m: DeviceModel) -> SpecCapabilities {
    match m {
        DeviceModel::ProII => SpecCapabilities {
            name: "RØDECaster Pro II"@,
            vendor_id: 0x19f7u16,
            product_ids: seq![0x0037u16, 0x0072u16, 0x0078u16, 0x0030u16, 0x0094u16, 0x0092u16],
        },
        DeviceModel::DUMMY => SpecCapabilities {
            name: "Dummy"@,
            vendor_id: 0x19f7u16,
            product_ids: seq![],
        },
    }
}

/// The first model, in the order Pro II, dummy, whose capabilities name the vendor and
/// product id.
pub open spec fn spec_model_of(vendor_id: u16, product_id: u16) -> Option<DeviceModel> {
    let pro = spec_capabilities(DeviceModel::ProII);
    let dummy = spec_capabilities(DeviceModel::DUMMY);
    if pro.vendor_id == vendor_id && pro.product_ids.contains(product_id) {
        Some(DeviceModel::ProII)
    } else if dummy.vendor_id == vendor_id && dummy.product_ids.contains(product_id) {
        Some(DeviceModel::DUMMY)
    } else {
        None
    }
}

impl ModelCapabilities {
    /// The display name of the model.
    pub fn name(&self) -> (r: &'static str)
        ensures
            r@ == self@.name,
    {
        self.name
    }

    /// The USB vendor id of the model.
    pub fn vendor_id(&self) -> (r: u16)
        ensures
            r == self@.vendor_id,
    {
        self.vendor_id
    }

    /// The USB product ids of the model.
    pub fn product_ids(&self) -> (r: &Vec<u16>)
        ensures
            r@ == self@.product_ids,
    {
        &self.product_ids
    }
}

impl DeviceModel {
    /// What the library knows of the model.
    pub fn capabilities(&self) -> (r: ModelCapabilities)
        ensures
            r@ == spec_capabilities(*self),
    {
        match self {
            DeviceModel::ProII => {
                let product_ids: Vec<u16> = vec![0x0037u16, 0x0072u16, 0x0078u16, 0x0030u16, 0x0094u16, 0x0092u16];
                let r = ModelCapabilities { name: "RØDECaster Pro II", vendor_id: 0x19f7u16, product_ids };
                proof {
                    assert(r.product_ids@ =~= spec_capabilities(DeviceModel::ProII).product_ids);
                }
                r
            },
            DeviceModel::DUMMY => {
                let product_ids: Vec<u16> = Vec::new();
                let r = ModelCapabilities { name: "Dummy", vendor_id: 0x19f7u16, product_ids };
                proof {
                    assert(r.product_ids@ =~= spec_capabilities(DeviceModel::DUMMY).product_ids);
                }
                r
            },
        }
    }

    /// The model of a USB device with the given vendor and product id, if it is one the
    /// library knows.
    pub fn from_ids(vendor_id: u16, product_id: u16) -> (r: Option<DeviceModel>)
        ensures
            r == spec_model_of(vendor_id, product_id),
    {
        let pro = DeviceModel::ProII.capabilities();
        if pro.vendor_id == vendor_id && contains_id(&pro.product_ids, product_id) {
            return Some(DeviceModel::ProII);
        }
        let dummy = DeviceModel::DUMMY.capabilities();
        if dummy.vendor_id == vendor_id && contains_id(&dummy.product_ids, product_id) {
            return Some(DeviceModel::DUMMY);
        }
        None
    }
}

} // verus!

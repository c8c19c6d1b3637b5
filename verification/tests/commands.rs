use rodecaster_usb::commands::simulate_sampler_button::{sampler_button_patch, SimulateSamplerButtonArguments};
use rodecaster_usb::commands::update_soundpad::{soundpad_patch, UpdateSoundpadCommandArguments};
use rodecaster_usb::commands::{contains_text, position_of_child, select_device};
use rodecaster_usb::device::info::DeviceDescriptor;
use rodecaster_usb::manager::DeviceIdentifier;
use rodecaster_usb::protocol::types::composite::{Composite, CompositeType};
use rodecaster_usb::protocol::types::property_map::PropertyMap;
use rodecaster_usb::protocol::types::value::Value;

fn node(name: &str, children: Vec<Composite>) -> Composite {
    Composite {
        name: name.to_string(),
        composite_type: CompositeType::Object,
        has_children: !children.is_empty(),
        properties: PropertyMap::new(),
        children,
    }
}

fn tree() -> Composite {
    node(
        "ROOT",
        vec![
            node("MIXER", vec![]),
            node("SOUNDPADS_A", vec![node("PAD", vec![]), node("PAD", vec![])]),
            node(
                "PHYSICALINTERFACE",
                vec![node("KNOB", vec![]), node("PADBUTTON", vec![]), node("PADBUTTON", vec![])],
            ),
        ],
    )
}

#[test]
fn text_search() {
    assert!(contains_text("PHYSICALINTERFACE_1", "PHYSICALINTERFACE"));
    assert!(contains_text("xPADBUTTONx", "PADBUTTON"));
    assert!(contains_text("anything", ""));
    assert!(!contains_text("PAD", "PADBUTTON"));
    assert!(!contains_text("RØDE", "ODE"));
    assert!(contains_text("RØDE", "ØD"));
}

#[test]
fn first_matching_child() {
    let t = tree();
    assert_eq!(position_of_child(&t.children, "PAD"), Some(1));
    assert_eq!(position_of_child(&t.children, "INTERFACE"), Some(2));
    assert_eq!(position_of_child(&t.children, "NOPE"), None);
}

#[test]
fn sampler_button_patch_addresses_the_pad_button() {
    let p = sampler_button_patch(&tree(), SimulateSamplerButtonArguments { button: 1, pressed: true }).unwrap();
    assert_eq!(p.get_indices(), &vec![2, 2]);
    assert_eq!(p.get_name(), "padButtonPressed");
    assert_eq!(p.get_value(), &Value::Bool(true));
    let without = node("ROOT", vec![node("MIXER", vec![])]);
    assert!(sampler_button_patch(&without, SimulateSamplerButtonArguments { button: 0, pressed: false }).is_none());
}

#[test]
fn soundpad_patch_addresses_the_pad() {
    let p = soundpad_patch(&tree(), UpdateSoundpadCommandArguments { pad: 4, loop_: true }).unwrap();
    assert_eq!(p.get_indices(), &vec![1, 4]);
    assert_eq!(p.get_name(), "padLoop");
    assert_eq!(p.get_value(), &Value::Bool(true));
    assert!(soundpad_patch(&node("ROOT", vec![]), UpdateSoundpadCommandArguments { pad: 0, loop_: false }).is_none());
}

#[test]
fn device_selection_by_serial() {
    let d = |s: &str| {
        DeviceIdentifier::from(DeviceDescriptor {
            vendor_id: 0x19f7,
            product_id: 0x0078,
            serial_number: s.to_string(),
            release_number: 1,
        })
    };
    let devices = vec![d("one"), d("two")];
    assert_eq!(select_device(&devices, &None), Some(0));
    assert_eq!(select_device(&devices, &Some("two".to_string())), Some(1));
    assert_eq!(select_device(&devices, &Some("three".to_string())), None);
    assert_eq!(select_device(&vec![], &None), None);
}

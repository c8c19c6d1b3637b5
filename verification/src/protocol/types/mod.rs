//! The value types of the protocol: text, typed values and the device state tree.

pub mod c_string;
pub mod string;
pub mod value;
pub mod value_laws;
pub mod object_laws;
pub mod property_map;
pub mod composite;
pub mod indices;
pub mod structured;
pub mod groups;

//! Devices: what identifies them, how they are recognised, and the decisions of the loops
//! that talk to them.

pub mod info;
pub mod io;
pub mod manager;
pub mod model;
pub mod registry;
pub mod state;

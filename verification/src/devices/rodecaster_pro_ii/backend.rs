//! The backend of the RØDECaster Pro II. Opening one starts the device's I/O and state
//! threads, which the application runs.

use vstd::prelude::*;

verus! {

/// The backend of the RØDECaster Pro II.
pub struct RodeCasterProIIBackend;

} // verus!

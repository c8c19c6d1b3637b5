//! The `dump` command: shows which device would be dumped.

use vstd::prelude::*;

verus! {

/// Dumps the current internal state of the device.
pub struct DumpCommand {}

} // verus!

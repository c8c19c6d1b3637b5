//! The `list` command: lists the connected devices.

use vstd::prelude::*;

verus! {

/// Lists all connected supported devices.
pub struct ListCommand {}

} // verus!

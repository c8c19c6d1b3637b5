//! The `watch` command: opens a device and keeps watching its communication.

use vstd::prelude::*;

verus! {

/// Watches device communication.
pub struct WatchCommand {}

} // verus!

//! The binary protocol that the RØDECaster devices speak over their HID interface.

pub mod types;
pub mod packets;
pub mod packet;
pub mod framing;

use crate::error::ParseError;
use vstd::prelude::*;

verus! {

/// Items of the protocol that can be recognised and decoded from bytes.
///
/// Each implementation states in its own contract what `can_parse` and `parse` return.
pub trait Parseable: Sized {
    /// The inputs on which decoding is defined (decoding is undefined on the others).
    spec fn parse_defined(data: Seq<u8>) -> bool;

    /// A cheap test whether `data` may hold this item.
    fn can_parse(data: &[u8]) -> bool;

    /// Decodes the item at the start of `data` and returns the remaining input with it.
    fn parse(data: &[u8]) -> Result<(&[u8], Self), ParseError>
        requires
            Self::parse_defined(data@),
    ;
}

} // verus!

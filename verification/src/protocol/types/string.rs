//! `String` as a protocol item: a NUL-terminated string.

use crate::error::ParseError;
use crate::protocol::Parseable;
use crate::protocol::types::c_string::{parse_c_string, parsed_as, spec_c_string};
use vstd::prelude::*;

verus! {

impl Parseable for String {
    open spec fn parse_defined(data: Seq<u8>) -> bool {
        true
    }

    /// A string needs at least its terminator byte.
    fn can_parse(data: &[u8]) -> (r: bool)
        ensures
            r == (data@.len() > 0),
    {
        data.len() > 0
    }

    fn parse(data: &[u8]) -> (res: Result<(&[u8], String), ParseError>)
        ensures
            parsed_as(data@, res, spec_c_string(data@)),
    {
        parse_c_string(data)
    }
}

} // verus!

//! NUL-terminated strings.

use crate::error::{Outcome, ParseError, WriteError};
use crate::wire::{string_from_utf8_lossy, lossy_text, lemma_encode_utf8_no_nul};
use vstd::prelude::*;
use vstd::utf8::{decode_utf8, encode_utf8, valid_utf8};

verus! {

/// No byte of `s` is zero.
pub open spec fn nul_free(s: Seq<u8>) -> bool {
    forall|j: int| 0 <= j < s.len() ==> s[j] != 0u8
}

/// `i` is the position of the first zero byte of `s`.
pub open spec fn first_nul_at(s: Seq<u8>, i: int) -> bool {
    0 <= i < s.len() && s[i] == 0u8 && nul_free(s.subrange(0, i))
}

/// A NUL-terminated string at the start of `s`: the bytes before the first zero byte, decoded
/// as UTF-8 (lossily), with the terminator consumed. Without a zero byte the input is incomplete.
pub open spec fn spec_c_string(s: Seq<u8>) -> Outcome<Seq<char>> {
    if exists|i: int| first_nul_at(s, i) {
        let i = choose|i: int| first_nul_at(s, i);
        Outcome::Done((i + 1) as nat, lossy_text(s.subrange(0, i)))
    } else {
        Outcome::Error(ParseError::Incomplete)
    }
}

/// The bytes of a NUL-terminated string: its UTF-8 encoding and a zero byte.
pub open spec fn spec_c_string_bytes(s: Seq<char>) -> Seq<u8> {
    encode_utf8(s) + seq![0u8]
}

/// `res` is what a decoder returns for the outcome `o` on input `s`: on success the decoded
/// item (by its view) and the input after the consumed bytes; on failure the same error.
pub open spec fn parsed_as<T: View>(
    s: Seq<u8>,
    res: Result<(&[u8], T), ParseError>,
    o: Outcome<T::V>,
) -> bool {
    match o {
        Outcome::Done(k, v) => {
            &&& res is Ok
            &&& k <= s.len()
            &&& res->Ok_0.0@ == s.subrange(k as int, s.len() as int)
            &&& res->Ok_0.1@ == v
        },
        Outcome::Error(e) => res == Err::<(&[u8], T), ParseError>(e),
        Outcome::Panics => false,
    }
}

/// The first zero byte of `s` is unique.
pub proof fn lemma_first_nul_unique(s: Seq<u8>, i: int, j: int)
    requires
        first_nul_at(s, i),
        first_nul_at(s, j),
    ensures
        i == j,
{
    if i < j {
        assert(s.subrange(0, j)[i] == s[i]);
    } else if j < i {
        assert(s.subrange(0, i)[j] == s[j]);
    }
}

/// What a NUL-terminated string decodes to, with the bytes it consumes.
pub proof fn lemma_c_string_done(s: Seq<u8>)
    ensures
        spec_c_string(s) matches Outcome::Done(k, v) ==> 1 <= k <= s.len() && first_nul_at(s, k - 1)
            && v == lossy_text(s.subrange(0, k - 1)),
        spec_c_string(s) is Error ==> spec_c_string(s) == Outcome::<Seq<char>>::Error(ParseError::Incomplete),
        !(spec_c_string(s) is Panics),
{
}

/// Reads a NUL-terminated string. The terminator is consumed and not part of the result;
/// the bytes before it are decoded as UTF-8, invalid sequences replaced.
pub fn parse_c_string(input: &[u8]) -> (res: Result<(&[u8], String), ParseError>)
    ensures
        parsed_as(input@, res, spec_c_string(input@)),
{
    let mut i: usize = 0;
    while i < input.len() && input[i] != 0
        invariant
            i <= input@.len(),
            nul_free(input@.subrange(0, i as int)),
        decreases input@.len() - i,
    {
        assert(input@.subrange(0, (i + 1) as int) =~= input@.subrange(0, i as int).push(input@[i as int]));
        i += 1;
    }
    if i == input.len() {
        proof {
            assert(input@.subrange(0, i as int) =~= input@);
            assert(!exists|j: int| first_nul_at(input@, j));
        }
        return Err(ParseError::Incomplete);
    }
    proof {
        assert(first_nul_at(input@, i as int));
        let j = choose|j: int| first_nul_at(input@, j);
        lemma_first_nul_unique(input@, i as int, j);
    }
    let text = string_from_utf8_lossy(vstd::slice::slice_subrange(input, 0, i));
    let rest = vstd::slice::slice_subrange(input, i + 1, input.len());
    Ok((rest, text))
}

/// Appends a NUL-terminated string: the UTF-8 bytes of `string` and a zero byte.
pub fn write_c_string(stream: &mut Vec<u8>, string: &String) -> (res: Result<(), WriteError>)
    ensures
        res is Ok,
        final(stream)@ == old(stream)@ + spec_c_string_bytes(string@),
{
    let bytes = string.as_str().as_bytes();
    stream.extend_from_slice(bytes);
    stream.push(0u8);
    Ok(())
}

/// Law: a NUL-terminated string decodes to the text that was written, whatever follows it,
/// provided that the text holds no NUL character.
pub proof fn lemma_c_string_roundtrip(text: Seq<char>, rest: Seq<u8>)
    requires
        !text.contains('\0'),
    ensures
        spec_c_string(spec_c_string_bytes(text) + rest) == Outcome::Done(
            (encode_utf8(text).len() + 1) as nat,
            text,
        ),
{
    let e = encode_utf8(text);
    let s = spec_c_string_bytes(text) + rest;
    lemma_encode_utf8_no_nul(text);
    assert(s.subrange(0, e.len() as int) =~= e);
    assert(first_nul_at(s, e.len() as int));
    let j = choose|j: int| first_nul_at(s, j);
    lemma_first_nul_unique(s, e.len() as int, j);
    vstd::utf8::encode_utf8_valid_utf8(text);
    vstd::utf8::encode_utf8_decode_utf8(text);
}

} // verus!

//! Little-endian integers and text as they travel on the wire, and the outside functions
//! that the encoders and decoders call.

use vstd::prelude::*;
use vstd::utf8::{decode_utf8, encode_utf8, valid_utf8};
use byteorder::{LittleEndian, WriteBytesExt};

verus! {

/// The `u16` that two little-endian bytes encode.
pub open spec fn le_u16(b0: u8, b1: u8) -> u16 {
    (b0 as u16) | ((b1 as u16) << 8u16)
}

/// The `u32` that four little-endian bytes encode.
pub open spec fn le_u32(b0: u8, b1: u8, b2: u8, b3: u8) -> u32 {
    (b0 as u32) | ((b1 as u32) << 8u32) | ((b2 as u32) << 16u32) | ((b3 as u32) << 24u32)
}

/// The `u64` that eight little-endian bytes encode.
pub open spec fn le_u64(b: Seq<u8>) -> u64 {
    (b[0] as u64) | ((b[1] as u64) << 8u64) | ((b[2] as u64) << 16u64) | ((b[3] as u64) << 24u64)
        | ((b[4] as u64) << 32u64) | ((b[5] as u64) << 40u64) | ((b[6] as u64) << 48u64)
        | ((b[7] as u64) << 56u64)
}

/// The `u16` stored little-endian at `s[i..i + 2]`.
pub open spec fn u16_at(s: Seq<u8>, i: int) -> u16 {
    le_u16(s[i], s[i + 1])
}

/// The `u32` stored little-endian at `s[i..i + 4]`.
pub open spec fn u32_at(s: Seq<u8>, i: int) -> u32 {
    le_u32(s[i], s[i + 1], s[i + 2], s[i + 3])
}

/// The `u64` stored little-endian at `s[i..i + 8]`.
pub open spec fn u64_at(s: Seq<u8>, i: int) -> u64 {
    le_u64(s.subrange(i, i + 8))
}

/// The little-endian bytes of a `u16`.
pub open spec fn u16_bytes(x: u16) -> Seq<u8> {
    seq![x as u8, (x >> 8u16) as u8]
}

/// The little-endian bytes of a `u32`.
pub open spec fn u32_bytes(x: u32) -> Seq<u8> {
    seq![x as u8, (x >> 8u32) as u8, (x >> 16u32) as u8, (x >> 24u32) as u8]
}

/// The little-endian bytes of a `u64`.
pub open spec fn u64_bytes(x: u64) -> Seq<u8> {
    seq![
        x as u8,
        (x >> 8u64) as u8,
        (x >> 16u64) as u8,
        (x >> 24u64) as u8,
        (x >> 32u64) as u8,
        (x >> 40u64) as u8,
        (x >> 48u64) as u8,
        (x >> 56u64) as u8,
    ]
}

/// The suffix of `s` after its first `k` bytes (empty where `s` is shorter).
pub open spec fn drop(s: Seq<u8>, k: nat) -> Seq<u8> {
    if k <= s.len() {
        s.subrange(k as int, s.len() as int)
    } else {
        Seq::empty()
    }
}

/// Decoding the bytes of a `u16` gives it back.
pub proof fn lemma_u16_roundtrip(x: u16)
    ensures
        u16_at(u16_bytes(x), 0) == x,
{
    let b0 = x as u8;
    let b1 = (x >> 8u16) as u8;
    assert(le_u16(b0, b1) == x) by (bit_vector)
        requires
            b0 == x as u8,
            b1 == (x >> 8u16) as u8,
    ;
}

/// Decoding the bytes of a `u32` gives it back.
pub proof fn lemma_u32_roundtrip(x: u32)
    ensures
        u32_at(u32_bytes(x), 0) == x,
{
    let b0 = x as u8;
    let b1 = (x >> 8u32) as u8;
    let b2 = (x >> 16u32) as u8;
    let b3 = (x >> 24u32) as u8;
    assert(le_u32(b0, b1, b2, b3) == x) by (bit_vector)
        requires
            b0 == x as u8,
            b1 == (x >> 8u32) as u8,
            b2 == (x >> 16u32) as u8,
            b3 == (x >> 24u32) as u8,
    ;
}

/// Decoding the bytes of a `u64` gives it back.
pub proof fn lemma_u64_roundtrip(x: u64)
    ensures
        u64_at(u64_bytes(x), 0) == x,
{
    let b = u64_bytes(x);
    assert(b.subrange(0, 8) =~= b);
    let b0 = x as u8;
    let b1 = (x >> 8u64) as u8;
    let b2 = (x >> 16u64) as u8;
    let b3 = (x >> 24u64) as u8;
    let b4 = (x >> 32u64) as u8;
    let b5 = (x >> 40u64) as u8;
    let b6 = (x >> 48u64) as u8;
    let b7 = (x >> 56u64) as u8;
    assert((b0 as u64) | ((b1 as u64) << 8u64) | ((b2 as u64) << 16u64) | ((b3 as u64) << 24u64)
        | ((b4 as u64) << 32u64) | ((b5 as u64) << 40u64) | ((b6 as u64) << 48u64)
        | ((b7 as u64) << 56u64) == x) by (bit_vector)
        requires
            b0 == x as u8,
            b1 == (x >> 8u64) as u8,
            b2 == (x >> 16u64) as u8,
            b3 == (x >> 24u64) as u8,
            b4 == (x >> 32u64) as u8,
            b5 == (x >> 40u64) as u8,
            b6 == (x >> 48u64) as u8,
            b7 == (x >> 56u64) as u8,
    ;
}

/// Reads the little-endian `u16` at `data[pos..pos + 2]`.
pub fn read_u16_le(data: &[u8], pos: usize) -> (r: u16)
    requires
        pos + 2 <= data@.len(),
    ensures
        r == u16_at(data@, pos as int),
{
    (data[pos] as u16) | ((data[pos + 1] as u16) << 8u16)
}

/// Reads the little-endian `u32` at `data[pos..pos + 4]`.
pub fn read_u32_le(data: &[u8], pos: usize) -> (r: u32)
    requires
        pos + 4 <= data@.len(),
    ensures
        r == u32_at(data@, pos as int),
{
    (data[pos] as u32) | ((data[pos + 1] as u32) << 8u32) | ((data[pos + 2] as u32) << 16u32) | (
    (data[pos + 3] as u32) << 24u32)
}

/// Reads the little-endian `u64` at `data[pos..pos + 8]`.
pub fn read_u64_le(data: &[u8], pos: usize) -> (r: u64)
    requires
        pos + 8 <= data@.len(),
    ensures
        r == u64_at(data@, pos as int),
{
    (data[pos] as u64) | ((data[pos + 1] as u64) << 8u64) | ((data[pos + 2] as u64) << 16u64) | (
    (data[pos + 3] as u64) << 24u64) | ((data[pos + 4] as u64) << 32u64) | ((data[pos + 5] as u64)
        << 40u64) | ((data[pos + 6] as u64) << 48u64) | ((data[pos + 7] as u64) << 56u64)
}

/// Appends the little-endian bytes of `x` with `byteorder`'s `WriteBytesExt::write_u16`.
///
/// Trusted: `write_u16::<LittleEndian>` fills a two-byte buffer with `x.to_le_bytes()` and
/// hands it to `write_all`, which on a `Vec<u8>` appends it and cannot fail.
#[verifier::external_body]
pub(crate) fn push_u16_le(out: &mut Vec<u8>, x: u16)
    ensures
        final(out)@ == old(out)@ + u16_bytes(x),
{
    let _ = out.write_u16::<LittleEndian>(x);
}

/// Appends the little-endian bytes of `x` with `byteorder`'s `WriteBytesExt::write_u32`.
///
/// Trusted: `write_u32::<LittleEndian>` fills a four-byte buffer with `x.to_le_bytes()` and
/// hands it to `write_all`, which on a `Vec<u8>` appends it and cannot fail.
#[verifier::external_body]
pub(crate) fn push_u32_le(out: &mut Vec<u8>, x: u32)
    ensures
        final(out)@ == old(out)@ + u32_bytes(x),
{
    let _ = out.write_u32::<LittleEndian>(x);
}

/// Appends the little-endian bytes of `x` with `byteorder`'s `WriteBytesExt::write_u64`.
///
/// Trusted: `write_u64::<LittleEndian>` fills an eight-byte buffer with `x.to_le_bytes()` and
/// hands it to `write_all`, which on a `Vec<u8>` appends it and cannot fail.
#[verifier::external_body]
pub(crate) fn push_u64_le(out: &mut Vec<u8>, x: u64)
    ensures
        final(out)@ == old(out)@ + u64_bytes(x),
{
    let _ = out.write_u64::<LittleEndian>(x);
}

/// The text that `String::from_utf8_lossy` makes of `bytes`.
pub uninterp spec fn utf8_lossy(bytes: Seq<u8>) -> Seq<char>;

/// The text that lossy UTF-8 decoding makes of `bytes`: on valid UTF-8 the text that the
/// bytes encode, otherwise the text with replacement characters that std produces.
pub open spec fn lossy_text(bytes: Seq<u8>) -> Seq<char> {
    if valid_utf8(bytes) {
        decode_utf8(bytes)
    } else {
        utf8_lossy(bytes)
    }
}

/// Decodes `bytes` as UTF-8 with std's `String::from_utf8_lossy`, turned into an owned `String`.
///
/// Trusted: the result is the named `utf8_lossy(bytes)`; where `bytes` is valid UTF-8 the
/// documentation of `from_utf8_lossy` promises the text that the bytes encode. What it makes of
/// invalid sequences (replacement characters) is left unsaid.
#[verifier::external_body]
pub(crate) fn string_from_utf8_lossy(bytes: &[u8]) -> (s: String)
    ensures
        s@ == utf8_lossy(bytes@),
        valid_utf8(bytes@) ==> s@ == decode_utf8(bytes@),
{
    String::from_utf8_lossy(bytes).into_owned()
}

/// The UTF-8 bytes of a text hold no zero byte where the text holds no NUL character.
pub proof fn lemma_encode_utf8_no_nul(cs: Seq<char>)
    requires
        !cs.contains('\0'),
    ensures
        !encode_utf8(cs).contains(0u8),
    decreases cs.len(),
{
    if cs.len() > 0 {
        let c = cs[0] as u32;
        vstd::utf8::char_is_scalar(cs[0]);
        assert(cs[0] != '\0');
        assert(c != 0) by {
            vstd::utf8::char_u32_cast(cs[0], c);
            if c == 0 {
                assert((0u32 as char) == '\0');
            }
        }
        let e = vstd::utf8::encode_scalar(c);
        assert(forall|i: int| 0 <= i < e.len() ==> e[i] != 0u8) by {
            assert(0 < c <= 0x7F ==> (c & 0x7F) as u8 != 0u8) by (bit_vector);
            assert(forall|x: u32| (0xC0u8 | ((x >> 6u32) & 0x1F) as u8) != 0u8) by (bit_vector);
            assert(forall|x: u32| (0xE0u8 | ((x >> 12u32) & 0x0F) as u8) != 0u8) by (bit_vector);
            assert(forall|x: u32| (0xF0u8 | ((x >> 18u32) & 0x7) as u8) != 0u8) by (bit_vector);
            assert(forall|x: u32| (0x80u8 | (x & 0x3F) as u8) != 0u8) by (bit_vector);
            assert(forall|x: u32| (0x80u8 | ((x >> 6u32) & 0x3F) as u8) != 0u8) by (bit_vector);
            assert(forall|x: u32| (0x80u8 | ((x >> 12u32) & 0x3F) as u8) != 0u8) by (bit_vector);
        }
        assert(!cs.drop_first().contains('\0')) by {
            if cs.drop_first().contains('\0') {
                let j = choose|j: int| 0 <= j < cs.drop_first().len() && cs.drop_first()[j] == '\0';
                assert(cs[j + 1] == '\0');
            }
        }
        lemma_encode_utf8_no_nul(cs.drop_first());
        let r = encode_utf8(cs.drop_first());
        assert(encode_utf8(cs) == e + r);
        if encode_utf8(cs).contains(0u8) {
            let j = choose|j: int| 0 <= j < encode_utf8(cs).len() && encode_utf8(cs)[j] == 0u8;
            if j < e.len() {
                assert(e[j] == 0u8);
            } else {
                assert(r[j - e.len()] == 0u8);
            }
        }
    }
}

} // verus!

verus! {

/// A fixed byte string at the start of `s`: a byte that differs is an error; a matching
/// input that is too short is incomplete.
pub open spec fn spec_tag(s: Seq<u8>, t: Seq<u8>) -> crate::error::Outcome<()> {
    if exists|i: int| 0 <= i < s.len() && i < t.len() && s[i] != t[i] {
        crate::error::Outcome::Error(crate::error::ParseError::Tag)
    } else if s.len() < t.len() {
        crate::error::Outcome::Error(crate::error::ParseError::Incomplete)
    } else {
        crate::error::Outcome::Done(t.len(), ())
    }
}

/// Checks for the fixed bytes `t` at the start of `data`; returns the input after them.
pub fn parse_tag<'a>(data: &'a [u8], t: &[u8]) -> (res: Result<&'a [u8], crate::error::ParseError>)
    ensures
        match spec_tag(data@, t@) {
            crate::error::Outcome::Done(k, _) => res is Ok && k <= data@.len() && res->Ok_0@
                == data@.subrange(k as int, data@.len() as int),
            crate::error::Outcome::Error(e) => res == Err::<&[u8], crate::error::ParseError>(e),
            crate::error::Outcome::Panics => false,
        },
{
    let mut i: usize = 0;
    while i < data.len() && i < t.len()
        invariant
            i <= data@.len(),
            i <= t@.len(),
            forall|j: int| 0 <= j < i ==> data@[j] == t@[j],
        decreases data@.len() - i,
    {
        if data[i] != t[i] {
            return Err(crate::error::ParseError::Tag);
        }
        i = i + 1;
    }
    if data.len() < t.len() {
        return Err(crate::error::ParseError::Incomplete);
    }
    Ok(vstd::slice::slice_subrange(data, t.len(), data.len()))
}

} // verus!

//! Typed property values.
//!
//! Wire format: a byte giving the width of the length field (1: `u8`, 2: little-endian
//! `u16`), the length (the type byte plus the payload), the type byte, then the payload:
//! 1 `u32`, 2 `true`, 3 `false`, 4 `f64`, 5 NUL-terminated string, 6 `f64` (a second
//! floating-point kind), 8 array of values filling `length - 1` bytes.

use crate::error::{
    after, decoded_as, lemma_after_after, lemma_after_nothing, Decoded, Outcome, ParseError,
    WriteError,
};
use crate::protocol::Parseable;
use crate::protocol::types::c_string::{
    lemma_c_string_done, lemma_c_string_roundtrip, parse_c_string, parsed_as, spec_c_string,
    spec_c_string_bytes, write_c_string,
};
use crate::wire::{
    drop, lemma_u16_roundtrip, lemma_u32_roundtrip, lemma_u64_roundtrip, push_u16_le, push_u32_le,
    push_u64_le, read_u16_le, read_u32_le, read_u64_le, u16_at, u16_bytes, u32_at, u32_bytes,
    u64_at, u64_bytes,
};
use vstd::prelude::*;

verus! {

/// A typed property value. Floating-point values are held as their IEEE 754 bit pattern
/// (`f64::to_bits`), which is exactly what travels on the wire.
#[derive(Debug, PartialEq)]
pub enum Value {
    U32(u32),
    Bool(bool),
    F64(u64),
    String(String),
    Double(u64),
    Array(Vec<Value>),
}

/// The mathematical model of a [`Value`].
pub enum SpecValue {
    U32(u32),
    Bool(bool),
    F64(u64),
    Str(Seq<char>),
    Double(u64),
    Array(Seq<SpecValue>),
}

impl View for Value {
    type V = SpecValue;

    open spec fn view(&self) -> SpecValue {
        value_model(*self)
    }
}

/// The model of a value.
pub open spec fn value_model(v: Value) -> SpecValue
    decreases v,
{
    match v {
        Value::U32(x) => SpecValue::U32(x),
        Value::Bool(b) => SpecValue::Bool(b),
        Value::F64(x) => SpecValue::F64(x),
        Value::String(s) => SpecValue::Str(s@),
        Value::Double(x) => SpecValue::Double(x),
        Value::Array(vs) => SpecValue::Array(values_view(vs@)),
    }
}

/// The models of a sequence of values.
pub open spec fn values_view(vs: Seq<Value>) -> Seq<SpecValue>
    decreases vs,
{
    if vs.len() == 0 {
        seq![]
    } else {
        values_view(vs.drop_last()).push(value_model(vs.last()))
    }
}

/// The models of a sequence of values, element by element.
pub proof fn lemma_values_view(vs: Seq<Value>)
    ensures
        values_view(vs).len() == vs.len(),
        forall|i: int| 0 <= i < vs.len() ==> #[trigger] values_view(vs)[i] == vs[i]@,
    decreases vs.len(),
{
    if vs.len() > 0 {
        lemma_values_view(vs.drop_last());
    }
}

/// The models of a sequence with one more value.
pub proof fn lemma_values_view_push(vs: Seq<Value>, v: Value)
    ensures
        values_view(vs.push(v)) == values_view(vs).push(v@),
{
    assert(vs.push(v).drop_last() =~= vs);
}

/// One step of reading array elements: a value, then the elements after it.
pub proof fn lemma_elems_step(s: Seq<u8>, remaining: nat)
    requires
        remaining > 0,
    ensures
        spec_value_elems(s, remaining) == match spec_value(s) {
            Outcome::Done(k, v) => if k > remaining {
                Outcome::Panics
            } else {
                after(k, seq![v], spec_value_elems(drop(s, k), (remaining - k) as nat))
            },
            Outcome::Error(e) => Outcome::Error(e),
            Outcome::Panics => Outcome::Panics,
        },
{
}

/// Same variant: the check that a patch keeps the type of a property.
pub open spec fn same_kind(a: SpecValue, b: SpecValue) -> bool {
    match (a, b) {
        (SpecValue::U32(_), SpecValue::U32(_)) => true,
        (SpecValue::Bool(_), SpecValue::Bool(_)) => true,
        (SpecValue::F64(_), SpecValue::F64(_)) => true,
        (SpecValue::Str(_), SpecValue::Str(_)) => true,
        (SpecValue::Double(_), SpecValue::Double(_)) => true,
        (SpecValue::Array(_), SpecValue::Array(_)) => true,
        _ => false,
    }
}

// ---------------------------------------------------------------------------------------------
// Decoding
// ---------------------------------------------------------------------------------------------

/// The header of a value: `(declared length, type byte)`, with the bytes it takes.
pub open spec fn spec_value_header(s: Seq<u8>) -> Outcome<(nat, u8)> {
    if s.len() < 1 {
        Outcome::Error(ParseError::Incomplete)
    } else if s[0] == 1u8 {
        if s.len() < 3 {
            Outcome::Error(ParseError::Incomplete)
        } else {
            Outcome::Done(3, (s[1] as nat, s[2]))
        }
    } else if s[0] == 2u8 {
        if s.len() < 4 {
            Outcome::Error(ParseError::Incomplete)
        } else {
            Outcome::Done(4, (u16_at(s, 1) as nat, s[3]))
        }
    } else {
        Outcome::Error(ParseError::LengthValue)
    }
}

/// The payload of a value with the given declared length and type byte. The declared length
/// only matters to arrays; an array with a declared length of 0, or whose elements overrun
/// it, is undefined.
pub open spec fn spec_value_body(s: Seq<u8>, length: nat, value_type: u8) -> Outcome<SpecValue>
    decreases s.len(), 2nat, 0nat,
{
    if value_type == 1u8 {
        if s.len() < 4 {
            Outcome::Error(ParseError::Incomplete)
        } else {
            Outcome::Done(4, SpecValue::U32(u32_at(s, 0)))
        }
    } else if value_type == 2u8 {
        Outcome::Done(0, SpecValue::Bool(true))
    } else if value_type == 3u8 {
        Outcome::Done(0, SpecValue::Bool(false))
    } else if value_type == 4u8 || value_type == 6u8 {
        if s.len() < 8 {
            Outcome::Error(ParseError::Incomplete)
        } else {
            Outcome::Done(8, SpecValue::F64(u64_at(s, 0)))
        }
    } else if value_type == 5u8 {
        match spec_c_string(s) {
            Outcome::Done(k, t) => Outcome::Done(k, SpecValue::Str(t)),
            Outcome::Error(e) => Outcome::Error(e),
            Outcome::Panics => Outcome::Panics,
        }
    } else if value_type == 8u8 {
        if length == 0 {
            Outcome::Panics
        } else {
            match spec_value_elems(s, (length - 1) as nat) {
                Outcome::Done(k, vs) => Outcome::Done(k, SpecValue::Array(vs)),
                Outcome::Error(e) => Outcome::Error(e),
                Outcome::Panics => Outcome::Panics,
            }
        }
    } else {
        Outcome::Error(ParseError::Fail)
    }
}

/// The elements of an array: values are read while `remaining` bytes of the declared
/// length are left.
pub open spec fn spec_value_elems(s: Seq<u8>, remaining: nat) -> Outcome<Seq<SpecValue>>
    decreases s.len(), 1nat, remaining,
{
    if remaining == 0 {
        Outcome::Done(0, seq![])
    } else {
        match spec_value_header(s) {
            Outcome::Done(h, (l, t)) => match spec_value_body(drop(s, h), l, t) {
                Outcome::Done(j, v) => if h + j > remaining {
                    Outcome::Panics
                } else {
                    after(
                        h + j,
                        seq![v],
                        spec_value_elems(drop(s, h + j), (remaining - (h + j)) as nat),
                    )
                },
                Outcome::Error(e) => Outcome::Error(e),
                Outcome::Panics => Outcome::Panics,
            },
            Outcome::Error(e) => Outcome::Error(e),
            Outcome::Panics => Outcome::Panics,
        }
    }
}

/// A value at the start of `s`.
pub open spec fn spec_value(s: Seq<u8>) -> Outcome<SpecValue> {
    match spec_value_header(s) {
        Outcome::Done(h, (l, t)) => match spec_value_body(drop(s, h), l, t) {
            Outcome::Done(j, v) => Outcome::Done(h + j, v),
            Outcome::Error(e) => Outcome::Error(e),
            Outcome::Panics => Outcome::Panics,
        },
        Outcome::Error(e) => Outcome::Error(e),
        Outcome::Panics => Outcome::Panics,
    }
}

/// A decoded value takes at least its three header bytes.
pub proof fn lemma_value_consumes(s: Seq<u8>)
    ensures
        spec_value(s) matches Outcome::Done(k, _) ==> 3 <= k,
{
}

fn parse_value_header(data: &[u8]) -> (res: Result<(usize, usize, u8), ParseError>)
    ensures
        match spec_value_header(data@) {
            Outcome::Done(h, (l, t)) => res == Ok::<(usize, usize, u8), ParseError>(
                (h as usize, l as usize, t),
            ),
            Outcome::Error(e) => res == Err::<(usize, usize, u8), ParseError>(e),
            Outcome::Panics => false,
        },
{
    if data.len() < 1 {
        Err(ParseError::Incomplete)
    } else if data[0] == 1u8 {
        if data.len() < 3 {
            Err(ParseError::Incomplete)
        } else {
            Ok((3, data[1] as usize, data[2]))
        }
    } else if data[0] == 2u8 {
        if data.len() < 4 {
            Err(ParseError::Incomplete)
        } else {
            Ok((4, read_u16_le(data, 1) as usize, data[3]))
        }
    } else {
        Err(ParseError::LengthValue)
    }
}

fn parse_value_body<'a>(data: &'a [u8], length: usize, value_type: u8) -> (res: Decoded<'a, Value>)
    ensures
        decoded_as(data@, res, spec_value_body(data@, length as nat, value_type)),
    decreases data@.len(), 1nat,
{
    let ghost s = data@;
    if value_type == 1u8 {
        if data.len() < 4 {
            Decoded::Error(ParseError::Incomplete)
        } else {
            let x = read_u32_le(data, 0);
            Decoded::Done(vstd::slice::slice_subrange(data, 4, data.len()), Value::U32(x))
        }
    } else if value_type == 2u8 {
        proof {
            assert(s.subrange(0, s.len() as int) =~= s);
        }
        Decoded::Done(data, Value::Bool(true))
    } else if value_type == 3u8 {
        proof {
            assert(s.subrange(0, s.len() as int) =~= s);
        }
        Decoded::Done(data, Value::Bool(false))
    } else if value_type == 4u8 || value_type == 6u8 {
        if data.len() < 8 {
            Decoded::Error(ParseError::Incomplete)
        } else {
            let x = read_u64_le(data, 0);
            Decoded::Done(vstd::slice::slice_subrange(data, 8, data.len()), Value::F64(x))
        }
    } else if value_type == 5u8 {
        match parse_c_string(data) {
            Ok((rest, text)) => Decoded::Done(rest, Value::String(text)),
            Err(e) => Decoded::Error(e),
        }
    } else if value_type == 8u8 {
        if length == 0 {
            return Decoded::Aborts;
        }
        let mut remaining: usize = length - 1;
        let mut cur: &'a [u8] = data;
        let mut values: Vec<Value> = Vec::new();
        proof {
            assert(s.subrange(0, s.len() as int) =~= s);
            assert(values_view(values@) =~= seq![]);
            assert(after(0, seq![], spec_value_elems(s, remaining as nat)) =~= spec_value_elems(
                s,
                remaining as nat,
            )) by {
                match spec_value_elems(s, remaining as nat) {
                    Outcome::Done(m, ws) => {
                        assert(seq![] + ws =~= ws);
                    },
                    _ => {},
                }
            }
        }
        while remaining > 0
            invariant
                s == data@,
                value_type == 8u8,
                length > 0,
                cur@.len() <= s.len(),
                cur@ == s.subrange(s.len() - cur@.len(), s.len() as int),
                spec_value_elems(s, (length - 1) as nat) == after(
                    (s.len() - cur@.len()) as nat,
                    values_view(values@),
                    spec_value_elems(cur@, remaining as nat),
                ),
            decreases remaining,
        {
            let ghost c = cur@;
            let ghost vs = values_view(values@);
            proof {
                lemma_elems_step(c, remaining as nat);
            }
            match parse_value_inner(cur) {
                Decoded::Done(next, v) => {
                    proof {
                        lemma_value_consumes(c);
                    }
                    let k = cur.len() - next.len();
                    if k > remaining {
                        proof {
                            assert(spec_value_elems(c, remaining as nat) is Panics);
                            assert(spec_value_elems(s, (length - 1) as nat) is Panics);
                        }
                        return Decoded::Aborts;
                    }
                    let ghost vv = v@;
                    let ghost v_copy = v;
                    let ghost old_values = values@;
                    remaining = remaining - k;
                    values.push(v);
                    cur = next;
                    proof {
                        lemma_values_view_push(old_values, v_copy);
                        assert(values_view(values@) =~= vs + seq![vv]);
                        assert(drop(c, k as nat) =~= cur@);
                        assert(cur@ =~= s.subrange(s.len() - cur@.len(), s.len() as int));
                        match spec_value_elems(cur@, remaining as nat) {
                            Outcome::Done(m, ws) => {
                                assert(vs + (seq![vv] + ws) =~= (vs + seq![vv]) + ws);
                            },
                            _ => {},
                        }
                    }
                },
                Decoded::Error(e) => {
                    proof {
                        assert(spec_value_elems(c, remaining as nat) == Outcome::<Seq<SpecValue>>::Error(e));
                        assert(spec_value_elems(s, (length - 1) as nat) == Outcome::<Seq<SpecValue>>::Error(e));
                    }
                    return Decoded::Error(e);
                },
                Decoded::Aborts => {
                    proof {
                        assert(spec_value_elems(c, remaining as nat) is Panics);
                        assert(spec_value_elems(s, (length - 1) as nat) is Panics);
                    }
                    return Decoded::Aborts;
                },
            }
        }
        proof {
            match spec_value_elems(s, (length - 1) as nat) {
                Outcome::Done(m, ws) => {
                    assert(ws =~= values_view(values@));
                },
                _ => {},
            }
        }
        Decoded::Done(cur, Value::Array(values))
    } else {
        Decoded::Error(ParseError::Fail)
    }
}

fn parse_value_inner<'a>(data: &'a [u8]) -> (res: Decoded<'a, Value>)
    ensures
        decoded_as(data@, res, spec_value(data@)),
    decreases data@.len(), 0nat,
{
    match parse_value_header(data) {
        Ok((h, length, value_type)) => {
            let body = vstd::slice::slice_subrange(data, h, data.len());
            match parse_value_body(body, length, value_type) {
                Decoded::Done(rest, v) => {
                    proof {
                        assert(drop(data@, h as nat) =~= body@);
                        assert(rest@ =~= data@.subrange(
                            data@.len() - rest@.len(),
                            data@.len() as int,
                        ));
                    }
                    Decoded::Done(rest, v)
                },
                Decoded::Error(e) => {
                    proof {
                        assert(drop(data@, h as nat) =~= body@);
                    }
                    Decoded::Error(e)
                },
                Decoded::Aborts => {
                    proof {
                        assert(drop(data@, h as nat) =~= body@);
                    }
                    Decoded::Aborts
                },
            }
        },
        Err(e) => Decoded::Error(e),
    }
}

/// Decodes a value, or reports that `data` is one of the inputs on which decoding is
/// undefined (an array with a declared length of 0, or whose elements overrun it).
pub fn decode_value<'a>(data: &'a [u8]) -> (res: Decoded<'a, Value>)
    ensures
        decoded_as(data@, res, spec_value(data@)),
{
    parse_value_inner(data)
}

impl Parseable for Value {
    open spec fn parse_defined(data: Seq<u8>) -> bool {
        !spec_value(data).panics()
    }

    /// A value needs at least its width byte, a length byte and its type byte.
    fn can_parse(data: &[u8]) -> (r: bool)
        ensures
            r == (data@.len() >= 3),
    {
        data.len() >= 3
    }

    fn parse(data: &[u8]) -> (res: Result<(&[u8], Value), ParseError>)
        ensures
            parsed_as(data@, res, spec_value(data@)),
    {
        match parse_value_inner(data) {
            Decoded::Done(rest, v) => Ok((rest, v)),
            Decoded::Error(e) => Err(e),
            Decoded::Aborts => Err(ParseError::Fail),
        }
    }
}

} // verus!

verus! {

// ---------------------------------------------------------------------------------------------
// Encoding
// ---------------------------------------------------------------------------------------------

/// The encoding of a value with type byte `value_type` and the given payload. The length
/// field counts the type byte and the payload; it is a `u8` where that fits, else a
/// little-endian `u16`; a longer value cannot be encoded.
pub open spec fn spec_framed(payload: Seq<u8>, value_type: u8) -> Option<Seq<u8>> {
    let n = payload.len() + 1;
    if n <= 255 {
        Some(seq![1u8, n as u8, value_type] + payload)
    } else if n <= 65535 {
        Some(seq![2u8] + u16_bytes(n as u16) + seq![value_type] + payload)
    } else {
        None
    }
}

/// The encoding of a value (`None`: a string or array too long to encode).
pub open spec fn spec_value_bytes(v: SpecValue) -> Option<Seq<u8>>
    decreases v,
{
    match v {
        SpecValue::U32(x) => Some(seq![1u8, 5u8, 1u8] + u32_bytes(x)),
        SpecValue::Bool(b) => Some(
            seq![
                1u8,
                1u8,
                if b {
                    2u8
                } else {
                    3u8
                },
            ],
        ),
        SpecValue::F64(x) => Some(seq![1u8, 9u8, 4u8] + u64_bytes(x)),
        SpecValue::Str(t) => spec_framed(spec_c_string_bytes(t), 5u8),
        SpecValue::Double(x) => Some(seq![1u8, 9u8, 6u8] + u64_bytes(x)),
        SpecValue::Array(vs) => match spec_values_bytes(vs) {
            Some(b) => spec_framed(b, 8u8),
            None => None,
        },
    }
}

/// The encodings of a sequence of values, one after the other.
pub open spec fn spec_values_bytes(vs: Seq<SpecValue>) -> Option<Seq<u8>>
    decreases vs,
{
    if vs.len() == 0 {
        Some(seq![])
    } else {
        match spec_values_bytes(vs.drop_last()) {
            Some(a) => match spec_value_bytes(vs.last()) {
                Some(b) => Some(a + b),
                None => None,
            },
            None => None,
        }
    }
}

/// The encodings of a sequence with one more value.
proof fn lemma_values_bytes_push(vs: Seq<SpecValue>, v: SpecValue)
    ensures
        spec_values_bytes(vs.push(v)) == match spec_values_bytes(vs) {
            Some(a) => match spec_value_bytes(v) {
                Some(b) => Some(a + b),
                None => None,
            },
            None => None,
        },
{
    assert(vs.push(v).drop_last() =~= vs);
}

fn write_header(writer: &mut Vec<u8>, n: usize, value_type: u8)
    requires
        1 <= n <= 65535,
    ensures
        final(writer)@ == old(writer)@ + if n <= 255 {
            seq![1u8, n as u8, value_type]
        } else {
            seq![2u8] + u16_bytes(n as u16) + seq![value_type]
        },
{
    if n <= 255 {
        writer.push(1u8);
        writer.push(n as u8);
        writer.push(value_type);
    } else {
        writer.push(2u8);
        push_u16_le(writer, n as u16);
        writer.push(value_type);
    }
}

impl Value {
    /// Appends the encoding of the value. A string or array too long for a 16-bit length
    /// field is refused, and then nothing is written.
    pub fn write_to(&self, writer: &mut Vec<u8>) -> (res: Result<(), WriteError>)
        ensures
            match spec_value_bytes(self@) {
                Some(b) => res is Ok && final(writer)@ == old(writer)@ + b,
                None => res == Err::<(), WriteError>(WriteError::ValueTooLong) && final(writer)@
                    == old(writer)@,
            },
        decreases self,
    {
        match self {
            Value::U32(x) => {
                writer.push(1u8);
                writer.push(5u8);
                writer.push(1u8);
                push_u32_le(writer, *x);
                proof {
                    assert(final(writer)@ =~= old(writer)@ + (seq![1u8, 5u8, 1u8] + u32_bytes(*x)));
                }
                Ok(())
            },
            Value::Bool(b) => {
                writer.push(1u8);
                writer.push(1u8);
                if *b {
                    writer.push(2u8);
                } else {
                    writer.push(3u8);
                }
                proof {
                    assert(final(writer)@ =~= old(writer)@ + spec_value_bytes(self@)->Some_0);
                }
                Ok(())
            },
            Value::F64(x) => {
                writer.push(1u8);
                writer.push(9u8);
                writer.push(4u8);
                push_u64_le(writer, *x);
                proof {
                    assert(final(writer)@ =~= old(writer)@ + (seq![1u8, 9u8, 4u8] + u64_bytes(*x)));
                }
                Ok(())
            },
            Value::Double(x) => {
                writer.push(1u8);
                writer.push(9u8);
                writer.push(6u8);
                push_u64_le(writer, *x);
                proof {
                    assert(final(writer)@ =~= old(writer)@ + (seq![1u8, 9u8, 6u8] + u64_bytes(*x)));
                }
                Ok(())
            },
            Value::String(text) => {
                let len = text.as_str().as_bytes().len();
                if len <= 65533 {
                    let ghost before = writer@;
                    write_header(writer, len + 2, 5u8);
                    let ghost mid = writer@;
                    let _ = write_c_string(writer, text);
                    proof {
                        let p = spec_c_string_bytes(text@);
                        assert(p.len() + 1 == len + 2);
                        assert(writer@ =~= before + spec_framed(p, 5u8)->Some_0);
                    }
                    Ok(())
                } else {
                    Err(WriteError::ValueTooLong)
                }
            },
            Value::Array(values) => {
                let mut buf: Vec<u8> = Vec::new();
                let mut i: usize = 0;
                proof {
                    assert(values@.take(0) =~= seq![]);
                }
                while i < values.len()
                    invariant
                        *self == Value::Array(*values),
                        i <= values@.len(),
                        spec_values_bytes(values_view(values@.take(i as int))) == Some(buf@),
                    decreases values@.len() - i,
                {
                    let ghost done = values@.take(i as int);
                    let ghost before = buf@;
                    let r = values[i].write_to(&mut buf);
                    proof {
                        assert(values@.take(i + 1) =~= done.push(values@[i as int]));
                        lemma_values_view_push(done, values@[i as int]);
                        lemma_values_bytes_push(values_view(done), values@[i as int]@);
                    }
                    match r {
                        Ok(()) => {},
                        Err(e) => {
                            proof {
                                lemma_values_view(values@);
                                lemma_values_prefix_none(values_view(values@), (i + 1) as int);
                                assert(values_view(values@).take(i + 1) =~= values_view(values@.take(i + 1)))
                                    by {
                                    lemma_values_view_take(values@, (i + 1) as int);
                                }
                                assert(values@.take(values@.len() as int) =~= values@);
                            }
                            return Err(e);
                        },
                    }
                    i = i + 1;
                }
                proof {
                    assert(values@.take(i as int) =~= values@);
                }
                let n = buf.len();
                if n <= 65534 {
                    let ghost before = writer@;
                    write_header(writer, n + 1, 8u8);
                    writer.extend_from_slice(buf.as_slice());
                    proof {
                        assert(writer@ =~= before + spec_framed(buf@, 8u8)->Some_0);
                    }
                    Ok(())
                } else {
                    Err(WriteError::ValueTooLong)
                }
            },
        }
    }
}

/// The models of a prefix of a sequence of values.
proof fn lemma_values_view_take(vs: Seq<Value>, i: int)
    requires
        0 <= i <= vs.len(),
    ensures
        values_view(vs).take(i) == values_view(vs.take(i)),
{
    lemma_values_view(vs);
    lemma_values_view(vs.take(i));
    assert(values_view(vs).take(i) =~= values_view(vs.take(i)));
}

/// A sequence of values has no encoding where a prefix of it has none.
proof fn lemma_values_prefix_none(vs: Seq<SpecValue>, i: int)
    requires
        0 <= i <= vs.len(),
        spec_values_bytes(vs.take(i)) is None,
    ensures
        spec_values_bytes(vs) is None,
    decreases vs.len() - i,
{
    if i < vs.len() {
        assert(vs.take(i + 1).drop_last() =~= vs.take(i));
        lemma_values_prefix_none(vs, i + 1);
    } else {
        assert(vs.take(i) =~= vs);
    }
}

} // verus!

verus! {

// ---------------------------------------------------------------------------------------------
// Laws
// ---------------------------------------------------------------------------------------------

/// What decoding makes of an encoded value: the second floating-point kind (type byte 6)
/// is read back as `F64`.
pub open spec fn value_as_read(v: SpecValue) -> SpecValue
    decreases v,
{
    match v {
        SpecValue::Double(x) => SpecValue::F64(x),
        SpecValue::Array(vs) => SpecValue::Array(values_as_read(vs)),
        _ => v,
    }
}

/// What decoding makes of a sequence of encoded values.
pub open spec fn values_as_read(vs: Seq<SpecValue>) -> Seq<SpecValue>
    decreases vs,
{
    if vs.len() == 0 {
        seq![]
    } else {
        values_as_read(vs.drop_last()).push(value_as_read(vs.last()))
    }
}

/// No string inside the value holds a NUL character.
pub open spec fn value_text_nul_free(v: SpecValue) -> bool
    decreases v,
{
    match v {
        SpecValue::Str(t) => !t.contains('\0'),
        SpecValue::Array(vs) => values_text_nul_free(vs),
        _ => true,
    }
}

/// No string inside the values holds a NUL character.
pub open spec fn values_text_nul_free(vs: Seq<SpecValue>) -> bool
    decreases vs,
{
    if vs.len() == 0 {
        true
    } else {
        values_text_nul_free(vs.drop_last()) && value_text_nul_free(vs.last())
    }
}

/// The header of a framed encoding: the declared length counts the type byte and the payload.
proof fn lemma_framed_header(p: Seq<u8>, t: u8, rest: Seq<u8>)
    requires
        spec_framed(p, t) is Some,
    ensures
        ({
            let b = spec_framed(p, t)->Some_0;
            let h = (b.len() - p.len()) as nat;
            &&& spec_value_header(b + rest) == Outcome::Done(h, ((p.len() + 1) as nat, t))
            &&& drop(b + rest, h) == p + rest
            &&& 3 <= h <= 4
        }),
{
    let b = spec_framed(p, t)->Some_0;
    let s = b + rest;
    let n = p.len() + 1;
    if n <= 255 {
        assert(drop(s, 3) =~= p + rest);
    } else {
        assert(drop(s, 4) =~= p + rest);
        lemma_u16_roundtrip(n as u16);
        assert(u16_at(s, 1) == u16_at(u16_bytes(n as u16), 0));
    }
}

/// A value is its header followed by its payload.
proof fn lemma_value_split(s: Seq<u8>, h: nat, l: nat, t: u8)
    requires
        spec_value_header(s) == Outcome::Done(h, (l, t)),
    ensures
        spec_value(s) == match spec_value_body(drop(s, h), l, t) {
            Outcome::Done(j, v) => Outcome::Done(h + j, v),
            Outcome::Error(e) => Outcome::Error(e),
            Outcome::Panics => Outcome::<SpecValue>::Panics,
        },
{
}

proof fn lemma_roundtrip_fixed(v: SpecValue, rest: Seq<u8>)
    requires
        v is U32 || v is Bool || v is F64 || v is Double,
    ensures
        spec_value(spec_value_bytes(v)->Some_0 + rest) == Outcome::Done(
            spec_value_bytes(v)->Some_0.len(),
            value_as_read(v),
        ),
{
    let b = spec_value_bytes(v)->Some_0;
    let s = b + rest;
    match v {
        SpecValue::U32(x) => {
            assert(spec_value_header(s) == Outcome::Done(3, (5nat, 1u8)));
            assert(drop(s, 3) =~= u32_bytes(x) + rest);
            lemma_u32_roundtrip(x);
            lemma_value_split(s, 3, 5, 1u8);
        },
        SpecValue::Bool(x) => {
            let t: u8 = if x { 2 } else { 3 };
            assert(spec_value_header(s) == Outcome::Done(3, (1nat, t)));
            lemma_value_split(s, 3, 1, t);
        },
        SpecValue::F64(x) => {
            assert(spec_value_header(s) == Outcome::Done(3, (9nat, 4u8)));
            assert(drop(s, 3) =~= u64_bytes(x) + rest);
            assert(drop(s, 3).subrange(0, 8) =~= u64_bytes(x).subrange(0, 8));
            lemma_u64_roundtrip(x);
            lemma_value_split(s, 3, 9, 4u8);
        },
        SpecValue::Double(x) => {
            assert(spec_value_header(s) == Outcome::Done(3, (9nat, 6u8)));
            assert(drop(s, 3) =~= u64_bytes(x) + rest);
            assert(drop(s, 3).subrange(0, 8) =~= u64_bytes(x).subrange(0, 8));
            lemma_u64_roundtrip(x);
            lemma_value_split(s, 3, 9, 6u8);
        },
        _ => {},
    }
}

/// Law: decoding the encoding of a value gives the value back (the second floating-point
/// kind as `F64`), whatever follows it, and consumes exactly the encoding. Strings with a
/// NUL character are left out: the decoder stops at the first NUL.
pub proof fn lemma_value_roundtrip(v: SpecValue, rest: Seq<u8>)
    requires
        value_text_nul_free(v),
        spec_value_bytes(v) is Some,
    ensures
        spec_value(spec_value_bytes(v)->Some_0 + rest) == Outcome::Done(
            spec_value_bytes(v)->Some_0.len(),
            value_as_read(v),
        ),
    decreases v,
{
    let b = spec_value_bytes(v)->Some_0;
    let s = b + rest;
    match v {
        SpecValue::Str(t) => {
            let p = spec_c_string_bytes(t);
            lemma_framed_header(p, 5u8, rest);
            lemma_c_string_roundtrip(t, rest);
            let h = (b.len() - p.len()) as nat;
            lemma_value_split(s, h, (p.len() + 1) as nat, 5u8);
        },
        SpecValue::Array(vs) => {
            let p = spec_values_bytes(vs)->Some_0;
            lemma_framed_header(p, 8u8, rest);
            lemma_values_roundtrip(vs, rest, 0);
            let h = (b.len() - p.len()) as nat;
            lemma_value_split(s, h, (p.len() + 1) as nat, 8u8);
            assert(p.len() + 1 - 1 == p.len());
            match spec_value_elems(rest, 0) {
                Outcome::Done(m, ws) => {
                    assert(values_as_read(vs) + ws =~= values_as_read(vs));
                },
                _ => {},
            }
        },
        _ => {
            lemma_roundtrip_fixed(v, rest);
        },
    }
}

/// Reading array elements over the encodings of `vs` reads `vs` back and then goes on with
/// what follows.
pub proof fn lemma_values_roundtrip(vs: Seq<SpecValue>, rest: Seq<u8>, r: nat)
    requires
        values_text_nul_free(vs),
        spec_values_bytes(vs) is Some,
    ensures
        spec_value_elems(
            spec_values_bytes(vs)->Some_0 + rest,
            spec_values_bytes(vs)->Some_0.len() + r,
        ) == after(spec_values_bytes(vs)->Some_0.len(), values_as_read(vs), spec_value_elems(rest, r)),
    decreases vs,
{
    if vs.len() == 0 {
        assert(spec_values_bytes(vs)->Some_0 + rest =~= rest);
        assert(values_as_read(vs) =~= Seq::<SpecValue>::empty());
        lemma_after_nothing(spec_value_elems(rest, r));
    } else {
        let ws = vs.drop_last();
        let w = vs.last();
        assert(values_text_nul_free(ws) && value_text_nul_free(w));
        assert(spec_values_bytes(ws) is Some && spec_value_bytes(w) is Some);
        let a = spec_values_bytes(ws)->Some_0;
        let bw = spec_value_bytes(w)->Some_0;
        assert(spec_values_bytes(vs)->Some_0 == a + bw);
        assert(values_as_read(vs) == values_as_read(ws).push(value_as_read(w)));
        let tail = spec_value_elems(rest, r);
        let y = spec_value_elems(bw + rest, bw.len() + r);
        assert(y == after(bw.len(), seq![value_as_read(w)], tail)) by {
            lemma_value_roundtrip(w, rest);
            lemma_value_consumes(bw + rest);
            lemma_elems_step(bw + rest, bw.len() + r);
            assert(drop(bw + rest, bw.len()) =~= rest);
        }
        assert(spec_value_elems(a + (bw + rest), a.len() + (bw.len() + r)) == after(
            a.len(),
            values_as_read(ws),
            y,
        )) by {
            lemma_values_roundtrip(ws, bw + rest, bw.len() + r);
        }
        lemma_after_after(a.len(), values_as_read(ws), bw.len(), seq![value_as_read(w)], tail);
        assert(a + bw + rest =~= a + (bw + rest));
        assert(values_as_read(ws) + seq![value_as_read(w)] =~= values_as_read(vs));
    }
}

} // verus!

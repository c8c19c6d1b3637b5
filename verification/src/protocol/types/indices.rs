//! Child index paths of property patches.
//!
//! Each index is a width byte (0: the index is 0 and no bytes follow, 1: `u8`,
//! 2: little-endian `u16`) followed by the index.

use crate::error::{after, lemma_after_after, lemma_after_nothing, Outcome, ParseError, WriteError};
use crate::protocol::types::composite::suffix_after;
use crate::wire::{drop, lemma_u16_roundtrip, push_u16_le, read_u16_le, u16_at, u16_bytes};
use vstd::prelude::*;

verus! {

/// `n` indices; `bad` is the error for an unsupported width byte.
pub open spec fn spec_indices(s: Seq<u8>, n: nat, bad: ParseError) -> Outcome<Seq<usize>>
    decreases n,
{
    if n == 0 {
        Outcome::Done(0, seq![])
    } else if s.len() < 1 {
        Outcome::Error(ParseError::Incomplete)
    } else if s[0] == 0u8 {
        after(1, seq![0usize], spec_indices(drop(s, 1), (n - 1) as nat, bad))
    } else if s[0] == 1u8 {
        if s.len() < 2 {
            Outcome::Error(ParseError::Incomplete)
        } else {
            after(2, seq![s[1] as usize], spec_indices(drop(s, 2), (n - 1) as nat, bad))
        }
    } else if s[0] == 2u8 {
        if s.len() < 3 {
            Outcome::Error(ParseError::Incomplete)
        } else {
            after(3, seq![u16_at(s, 1) as usize], spec_indices(drop(s, 3), (n - 1) as nat, bad))
        }
    } else {
        Outcome::Error(bad)
    }
}

/// Reads `n` indices; `bad` is the error for an unsupported width byte.
pub fn parse_indices<'a>(data: &'a [u8], n: usize, bad: ParseError) -> (res: Result<
    (&'a [u8], Vec<usize>),
    ParseError,
>)
    ensures
        match spec_indices(data@, n as nat, bad) {
            Outcome::Done(k, xs) => res is Ok && suffix_after(data@, res->Ok_0.0@, k) && res->Ok_0.1@
                == xs,
            Outcome::Error(e) => res == Err::<(&'a [u8], Vec<usize>), ParseError>(e),
            Outcome::Panics => false,
        },
{
    let mut cur: &'a [u8] = data;
    let mut xs: Vec<usize> = Vec::new();
    let mut i: usize = 0;
    proof {
        assert(data@.subrange(0, data@.len() as int) =~= data@);
        lemma_after_nothing(spec_indices(data@, n as nat, bad));
    }
    while i < n
        invariant
            i <= n,
            cur@.len() <= data@.len(),
            cur@ == data@.subrange(data@.len() - cur@.len(), data@.len() as int),
            spec_indices(data@, n as nat, bad) == after(
                (data@.len() - cur@.len()) as nat,
                xs@,
                spec_indices(cur@, (n - i) as nat, bad),
            ),
        decreases n - i,
    {
        let ghost c = cur@;
        let ghost before = (data@.len() - c.len()) as nat;
        if cur.len() < 1 {
            return Err(ParseError::Incomplete);
        }
        let (k, x): (usize, usize) = if cur[0] == 0u8 {
            (1, 0)
        } else if cur[0] == 1u8 {
            if cur.len() < 2 {
                return Err(ParseError::Incomplete);
            }
            (2, cur[1] as usize)
        } else if cur[0] == 2u8 {
            if cur.len() < 3 {
                return Err(ParseError::Incomplete);
            }
            (3, read_u16_le(cur, 1) as usize)
        } else {
            return Err(bad);
        };
        let ghost old_xs = xs@;
        xs.push(x);
        cur = vstd::slice::slice_subrange(cur, k, cur.len());
        i = i + 1;
        proof {
            assert(drop(c, k as nat) =~= cur@);
            lemma_after_after(before, old_xs, k as nat, seq![x], spec_indices(cur@, (n - i) as nat, bad));
            assert(old_xs + seq![x] =~= xs@);
            assert(cur@ =~= data@.subrange(data@.len() - cur@.len(), data@.len() as int));
        }
    }
    proof {
        assert(xs@ + Seq::<usize>::empty() =~= xs@);
    }
    Ok((cur, xs))
}

/// The encoding of an index (`None`: it does not fit 16 bits).
pub open spec fn spec_index_bytes(x: usize) -> Option<Seq<u8>> {
    if x == 0 {
        Some(seq![0u8])
    } else if x <= 255 {
        Some(seq![1u8, x as u8])
    } else if x <= 65535 {
        Some(seq![2u8] + u16_bytes(x as u16))
    } else {
        None
    }
}

/// The bytes written for `xs` before the first index that cannot be encoded (all of them
/// where every index can), and whether every index could.
pub open spec fn spec_indices_bytes(xs: Seq<usize>) -> (Seq<u8>, bool)
    decreases xs.len(),
{
    if xs.len() == 0 {
        (seq![], true)
    } else {
        let (a, ok) = spec_indices_bytes(xs.drop_last());
        if !ok {
            (a, false)
        } else {
            match spec_index_bytes(xs.last()) {
                Some(b) => (a + b, true),
                None => (a, false),
            }
        }
    }
}

/// Appends the encodings of the indices, stopping with an error at the first index that
/// does not fit 16 bits (what was written before it stays).
pub fn write_indices(stream: &mut Vec<u8>, indices: &Vec<usize>) -> (res: Result<(), WriteError>)
    ensures
        final(stream)@ == old(stream)@ + spec_indices_bytes(indices@).0,
        res is Ok <==> spec_indices_bytes(indices@).1,
        res is Err ==> res == Err::<(), WriteError>(WriteError::IndexTooLarge),
{
    let mut i: usize = 0;
    let ghost start = stream@;
    proof {
        assert(indices@.take(0) =~= seq![]);
    }
    while i < indices.len()
        invariant
            start == old(stream)@,
            i <= indices@.len(),
            spec_indices_bytes(indices@.take(i as int)).1,
            stream@ == start + spec_indices_bytes(indices@.take(i as int)).0,
        decreases indices@.len() - i,
    {
        let x = indices[i];
        proof {
            assert(indices@.take(i + 1).drop_last() =~= indices@.take(i as int));
        }
        if x == 0 {
            stream.push(0u8);
        } else if x <= 255 {
            stream.push(1u8);
            stream.push(x as u8);
        } else if x <= 65535 {
            stream.push(2u8);
            push_u16_le(stream, x as u16);
        } else {
            proof {
                assert(!spec_indices_bytes(indices@.take(i + 1)).1);
                assert(spec_indices_bytes(indices@.take(i + 1)).0 == spec_indices_bytes(indices@.take(i as int)).0);
                lemma_indices_bytes_stop_rec2(indices@, (i + 1) as int);
            }
            return Err(WriteError::IndexTooLarge);
        }
        i = i + 1;
        proof {
            assert(stream@ =~= start + spec_indices_bytes(indices@.take(i as int)).0);
        }
    }
    proof {
        assert(indices@.take(i as int) =~= indices@);
    }
    Ok(())
}

proof fn lemma_indices_bytes_stop_rec(xs: Seq<usize>, i: int)
    requires
        0 < i <= xs.len(),
        !spec_indices_bytes(xs.take(i - 1)).1,
    ensures
        spec_indices_bytes(xs.take(i)) == spec_indices_bytes(xs.take(i - 1)),
{
    assert(xs.take(i).drop_last() =~= xs.take(i - 1));
}

/// Writing stops for good at an index that cannot be encoded.
proof fn lemma_indices_bytes_stop_rec2(xs: Seq<usize>, i: int)
    requires
        0 < i <= xs.len(),
        !spec_indices_bytes(xs.take(i)).1,
    ensures
        spec_indices_bytes(xs) == spec_indices_bytes(xs.take(i)),
    decreases xs.len() - i,
{
    if i < xs.len() {
        lemma_indices_bytes_stop_rec(xs, i + 1);
        lemma_indices_bytes_stop_rec2(xs, i + 1);
    } else {
        assert(xs.take(i) =~= xs);
    }
}

} // verus!

verus! {

/// One index: its encoding is read back as the index.
proof fn lemma_index_step(x: usize, rest: Seq<u8>, r: nat, bad: ParseError)
    requires
        spec_index_bytes(x) is Some,
    ensures
        spec_indices(spec_index_bytes(x)->Some_0 + rest, r + 1, bad) == after(
            spec_index_bytes(x)->Some_0.len(),
            seq![x],
            spec_indices(rest, r, bad),
        ),
{
    let b = spec_index_bytes(x)->Some_0;
    let s = b + rest;
    assert(drop(s, b.len()) =~= rest);
    if x > 255 {
        lemma_u16_roundtrip(x as u16);
        assert(u16_at(s, 1) == u16_at(u16_bytes(x as u16), 0));
    }
}

/// Law: reading indices over their encodings reads them back and then goes on with what
/// follows (every index must fit 16 bits).
pub proof fn lemma_indices_roundtrip(xs: Seq<usize>, rest: Seq<u8>, r: nat, bad: ParseError)
    requires
        spec_indices_bytes(xs).1,
    ensures
        spec_indices(spec_indices_bytes(xs).0 + rest, xs.len() + r, bad) == after(
            spec_indices_bytes(xs).0.len(),
            xs,
            spec_indices(rest, r, bad),
        ),
    decreases xs.len(),
{
    if xs.len() == 0 {
        assert(spec_indices_bytes(xs).0 + rest =~= rest);
        assert(xs =~= Seq::<usize>::empty());
        lemma_after_nothing(spec_indices(rest, r, bad));
    } else {
        let ws = xs.drop_last();
        let w = xs.last();
        let a = spec_indices_bytes(ws).0;
        let b = spec_index_bytes(w)->Some_0;
        assert(spec_indices_bytes(xs).0 == a + b);
        lemma_indices_roundtrip(ws, b + rest, r + 1, bad);
        lemma_index_step(w, rest, r, bad);
        lemma_after_after(a.len(), ws, b.len(), seq![w], spec_indices(rest, r, bad));
        assert(a + b + rest =~= a + (b + rest));
        assert(ws + seq![w] =~= xs);
    }
}

} // verus!

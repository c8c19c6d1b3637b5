//! Packets over HID reports.
//!
//! A packet travels as its length (a little-endian `u32`) followed by its bytes. That payload
//! is cut into pieces of [`FRAME_PAYLOAD_SIZE`] bytes; each piece goes out as one HID report of
//! [`FRAME_SIZE`] bytes: the report id, the piece, and zero bytes up to the full size.
//!
//! The receiving side strips the report id of each report and hands the remaining
//! [`FRAME_PAYLOAD_SIZE`] bytes to a [`PacketReader`], which reads the length from the first
//! frame and collects bytes from the frames until the packet is complete.

use crate::error::{ParseError, UsbError};
use crate::wire::{lemma_u32_roundtrip, read_u32_le, u32_at, u32_bytes};
use vstd::prelude::*;

verus! {

/// Bytes of a packet payload in one HID report (a report is 256 bytes, one of them the id).
pub const FRAME_PAYLOAD_SIZE: usize = 255;

/// Bytes of one HID report.
pub const FRAME_SIZE: usize = 256;

/// The payload of a packet on the wire: its length as a little-endian `u32` (the length is
/// truncated to 32 bits), then its bytes.
pub open spec fn spec_payload(data: Seq<u8>) -> Seq<u8> {
    u32_bytes(data.len() as u32) + data
}

/// The pieces of `p`, in order: [`FRAME_PAYLOAD_SIZE`] bytes each, the last one shorter where
/// the length is not a multiple.
pub open spec fn spec_chunks(p: Seq<u8>) -> Seq<Seq<u8>>
    decreases p.len(),
{
    if p.len() <= 255 {
        seq![p]
    } else {
        seq![p.take(255)] + spec_chunks(p.skip(255))
    }
}

/// The pieces of `p` from position `start` on (none where `start` is at the end).
pub open spec fn chunks_from(p: Seq<u8>, start: int) -> Seq<Seq<u8>> {
    if start >= p.len() {
        seq![]
    } else {
        spec_chunks(p.skip(start))
    }
}

/// A piece filled with zero bytes up to [`FRAME_PAYLOAD_SIZE`].
pub open spec fn padded(c: Seq<u8>) -> Seq<u8> {
    c + Seq::new((255 - c.len()) as nat, |i: int| 0u8)
}

/// The frames of a packet as the receiving side sees them: each report without its id.
pub open spec fn spec_frames(data: Seq<u8>) -> Seq<Seq<u8>> {
    spec_chunks(spec_payload(data)).map_values(|c: Seq<u8>| padded(c))
}

/// Builds the HID reports that carry `data`: each one is `report_id` followed by the frame of
/// the same position.
pub fn build_frames(report_id: u8, data: &[u8]) -> (frames: Vec<Vec<u8>>)
    ensures
        frames@.len() == spec_frames(data@).len(),
        forall|i: int|
            0 <= i < frames@.len() ==> #[trigger] frames@[i]@ == seq![report_id] + spec_frames(data@)[i],
        forall|i: int| 0 <= i < frames@.len() ==> #[trigger] frames@[i]@.len() == FRAME_SIZE,
{
    let n = #[verifier::truncate] (data.len() as u32);
    let mut payload: Vec<u8> = Vec::new();
    payload.push(#[verifier::truncate] (n as u8));
    payload.push(#[verifier::truncate] ((n >> 8u32) as u8));
    payload.push(#[verifier::truncate] ((n >> 16u32) as u8));
    payload.push(#[verifier::truncate] ((n >> 24u32) as u8));
    payload.extend_from_slice(data);
    let ghost p = payload@;
    proof {
        assert(p =~= spec_payload(data@));
    }
    let mut frames: Vec<Vec<u8>> = Vec::new();
    let ghost mut done: Seq<Seq<u8>> = seq![];
    let mut start: usize = 0;
    proof {
        assert(p.skip(0) =~= p);
    }
    while start < payload.len()
        invariant
            payload@ == p,
            p == spec_payload(data@),
            p.len() >= 4,
            start <= p.len(),
            done + chunks_from(p, start as int) == spec_chunks(p),
            frames@.len() == done.len(),
            forall|i: int| 0 <= i < done.len() ==> #[trigger] frames@[i]@ == seq![report_id] + padded(done[i]),
            forall|i: int| 0 <= i < done.len() ==> #[trigger] frames@[i]@.len() == FRAME_SIZE,
        decreases p.len() - start,
    {
        let rest = payload.len() - start;
        let end = if rest <= FRAME_PAYLOAD_SIZE { payload.len() } else { start + FRAME_PAYLOAD_SIZE };
        let ghost c = p.subrange(start as int, end as int);
        let mut frame: Vec<u8> = Vec::new();
        frame.push(report_id);
        let mut j: usize = start;
        while j < end
            invariant
                payload@ == p,
                start <= j <= end <= p.len(),
                frame@ == seq![report_id] + p.subrange(start as int, j as int),
            decreases end - j,
        {
            frame.push(payload[j]);
            proof {
                assert(p.subrange(start as int, (j + 1) as int) =~= p.subrange(start as int, j as int).push(p[j as int]));
            }
            j = j + 1;
        }
        let ghost filled = frame@.len();
        while frame.len() < FRAME_SIZE
            invariant
                filled == 1 + c.len(),
                filled <= frame@.len() <= FRAME_SIZE,
                frame@.subrange(0, filled as int) == seq![report_id] + c,
                forall|k: int| filled <= k < frame@.len() ==> frame@[k] == 0u8,
            decreases FRAME_SIZE - frame@.len(),
        {
            frame.push(0u8);
            proof {
                assert(frame@.subrange(0, filled as int) =~= frame@.drop_last().subrange(0, filled as int));
            }
        }
        proof {
            let want = seq![report_id] + padded(c);
            assert(want.len() == 256);
            assert forall|k: int| 0 <= k < 256 implies frame@[k] == want[k] by {
                if k < filled {
                    assert(frame@[k] == frame@.subrange(0, filled as int)[k]);
                }
            }
            assert(frame@ =~= want);
            let q = p.skip(start as int);
            if rest <= 255 {
                assert(c =~= q);
                assert(spec_chunks(q) == seq![q]);
                assert(chunks_from(p, end as int) == Seq::<Seq<u8>>::empty());
                assert(done.push(c) + chunks_from(p, end as int) =~= done + chunks_from(p, start as int));
            } else {
                assert(c =~= q.take(255));
                assert(q.skip(255) =~= p.skip(end as int));
                assert(spec_chunks(q) == seq![q.take(255)] + spec_chunks(q.skip(255)));
                assert(done.push(c) + chunks_from(p, end as int) =~= done + chunks_from(p, start as int));
            }
        }
        frames.push(frame);
        proof {
            done = done.push(c);
        }
        start = end;
    }
    proof {
        assert(done + Seq::<Seq<u8>>::empty() =~= done);
    }
    frames
}

} // verus!

verus! {

/// A packet being collected from frames: the length that the first frame announced and the
/// bytes collected so far.
pub struct PacketReader {
    expected: usize,
    packet: Vec<u8>,
}

/// The state of a reader: the announced length and the bytes collected so far.
pub struct SpecReader {
    pub expected: nat,
    pub packet: Seq<u8>,
}

impl View for PacketReader {
    type V = SpecReader;

    closed spec fn view(&self) -> SpecReader {
        SpecReader { expected: self.expected as nat, packet: self.packet@ }
    }
}

/// The smaller of two naturals.
pub open spec fn min_nat(a: nat, b: nat) -> nat {
    if a <= b { a } else { b }
}

/// Starting on the first frame: it must hold the 4 bytes of the length; what follows them is
/// taken up to that length.
pub open spec fn spec_start(first: Seq<u8>) -> Option<SpecReader> {
    if first.len() < 4 {
        None
    } else {
        let n = u32_at(first, 0) as nat;
        Some(SpecReader { expected: n, packet: first.skip(4).take(min_nat(n, (first.len() - 4) as nat) as int) })
    }
}

/// Whether all bytes of the packet are collected.
pub open spec fn spec_complete(r: SpecReader) -> bool {
    r.packet.len() >= r.expected
}

/// Taking a continuation frame: its bytes are appended up to the announced length.
pub open spec fn spec_push(r: SpecReader, frame: Seq<u8>) -> SpecReader {
    SpecReader {
        expected: r.expected,
        packet: r.packet + frame.take(min_nat((r.expected - r.packet.len()) as nat, frame.len()) as int),
    }
}

/// Feeding frames to a reader until its packet is complete: the final state, or `None` where
/// the frames run out before, or some are left over after.
pub open spec fn spec_feed(r: SpecReader, frames: Seq<Seq<u8>>) -> Option<SpecReader>
    decreases frames.len(),
{
    if spec_complete(r) {
        if frames.len() == 0 { Some(r) } else { None }
    } else if frames.len() == 0 {
        None
    } else {
        spec_feed(spec_push(r, frames[0]), frames.drop_first())
    }
}

/// What reading gives for the frames of a packet: the reader started on the first frame and
/// fed the others.
pub open spec fn spec_read(frames: Seq<Seq<u8>>) -> Option<Seq<u8>> {
    if frames.len() == 0 {
        None
    } else {
        match spec_start(frames[0]) {
            Some(r) => match spec_feed(r, frames.drop_first()) {
                Some(f) => Some(f.packet),
                None => None,
            },
            None => None,
        }
    }
}

impl PacketReader {
    /// Starts reading a packet on its first frame. A frame shorter than the 4 bytes of the
    /// length is refused with [`UsbError::FrameParse`] (`Incomplete`).
    pub fn start(first: &[u8]) -> (res: Result<PacketReader, UsbError>)
        ensures
            match spec_start(first@) {
                Some(r) => res is Ok && res->Ok_0@ == r,
                None => res matches Err(UsbError::FrameParse(e)) && e == ParseError::Incomplete,
            },
    {
        if first.len() < 4 {
            return Err(UsbError::FrameParse(ParseError::Incomplete));
        }
        let expected = read_u32_le(first, 0) as usize;
        let avail = first.len() - 4;
        let take = if expected <= avail { expected } else { avail };
        let end = first.len() - (avail - take);
        let mut packet: Vec<u8> = Vec::new();
        let mut j: usize = 4;
        while j < end
            invariant
                first@.len() >= 4,
                end == 4 + take,
                end <= first@.len(),
                4 <= j <= end,
                packet@ == first@.skip(4).take(j - 4),
            decreases end - j,
        {
            packet.push(first[j]);
            proof {
                assert(first@.skip(4).take(j + 1 - 4) =~= first@.skip(4).take(j - 4).push(first@[j as int]));
            }
            j = j + 1;
        }
        Ok(PacketReader { expected, packet })
    }

    /// Whether the packet is complete.
    pub fn is_complete(&self) -> (r: bool)
        ensures
            r == spec_complete(self@),
    {
        self.packet.len() >= self.expected
    }

    /// Takes the next frame of an incomplete packet.
    pub fn push_frame(&mut self, frame: &[u8])
        requires
            !spec_complete(old(self)@),
        ensures
            final(self)@ == spec_push(old(self)@, frame@),
    {
        let missing = self.expected - self.packet.len();
        let take = if missing <= frame.len() { missing } else { frame.len() };
        let ghost start = self.packet@;
        let mut i: usize = 0;
        while i < take
            invariant
                take <= frame@.len(),
                take <= missing,
                missing == self.expected - start.len(),
                i <= take,
                self.packet@ == start + frame@.take(i as int),
            decreases take - i,
        {
            self.packet.push(frame[i]);
            proof {
                assert(frame@.take(i + 1) =~= frame@.take(i as int).push(frame@[i as int]));
            }
            i = i + 1;
        }
    }

    /// The bytes collected.
    pub fn into_packet(self) -> (r: Vec<u8>)
        ensures
            r@ == self@.packet,
    {
        self.packet
    }
}

} // verus!

verus! {

/// A full piece needs no padding.
proof fn lemma_padded_full(c: Seq<u8>)
    requires
        c.len() == 255,
    ensures
        padded(c) == c,
{
    assert(padded(c) =~= c);
}

/// The pieces of `p` after mapping, split into the first one and the others.
proof fn lemma_frames_split(p: Seq<u8>)
    requires
        p.len() > 255,
    ensures
        spec_chunks(p).map_values(|c: Seq<u8>| padded(c)) == seq![padded(p.take(255))] + spec_chunks(
            p.skip(255),
        ).map_values(|c: Seq<u8>| padded(c)),
{
    let f = |c: Seq<u8>| padded(c);
    let rest = spec_chunks(p.skip(255));
    assert(spec_chunks(p) == seq![p.take(255)] + rest);
    assert((seq![p.take(255)] + rest).map_values(f) =~= seq![padded(p.take(255))] + rest.map_values(f));
}

/// Feeding the frames of the rest of `data` to a reader that holds its first `j` bytes
/// completes the packet with the last frame.
proof fn lemma_feed_rest(data: Seq<u8>, j: int)
    requires
        0 <= j < data.len(),
    ensures
        spec_feed(
            SpecReader { expected: data.len(), packet: data.take(j) },
            spec_chunks(data.skip(j)).map_values(|c: Seq<u8>| padded(c)),
        ) == Some(SpecReader { expected: data.len(), packet: data }),
    decreases data.len() - j,
{
    let f = |c: Seq<u8>| padded(c);
    let n = data.len();
    let r = SpecReader { expected: n, packet: data.take(j) };
    let q = data.skip(j);
    let fs = spec_chunks(q).map_values(f);
    assert(!spec_complete(r));
    if q.len() <= 255 {
        assert(spec_chunks(q) == seq![q]);
        assert(fs =~= seq![padded(q)]);
        let r2 = spec_push(r, padded(q));
        assert(padded(q).take(q.len() as int) =~= q);
        assert(r2.packet =~= data);
        assert(fs.drop_first() =~= Seq::<Seq<u8>>::empty());
        assert(spec_feed(r2, fs.drop_first()) == Some(r2));
        assert(r2 == SpecReader { expected: n, packet: data });
        assert(spec_feed(r, fs) == spec_feed(spec_push(r, fs[0]), fs.drop_first()));
    } else {
        lemma_frames_split(q);
        lemma_padded_full(q.take(255));
        let r2 = spec_push(r, q.take(255));
        assert(q.take(255).take(255) =~= q.take(255));
        assert(r2.packet =~= data.take(j + 255));
        assert(fs[0] == q.take(255));
        assert(q.skip(255) =~= data.skip(j + 255));
        assert(fs.drop_first() =~= spec_chunks(data.skip(j + 255)).map_values(f));
        lemma_feed_rest(data, j + 255);
        assert(r2 == SpecReader { expected: n, packet: data.take(j + 255) });
        assert(spec_feed(r, fs) == spec_feed(spec_push(r, fs[0]), fs.drop_first()));
    }
}

/// Law: reading the frames that a packet is sent in gives the packet back. The reader takes
/// the length from the first frame, completes the packet with the last frame and leaves no
/// frame over. Left out: packets longer than `u32::MAX` bytes, whose length prefix wraps.
pub proof fn lemma_read_gives_back_write(data: Seq<u8>)
    requires
        data.len() <= u32::MAX,
    ensures
        spec_read(spec_frames(data)) == Some(data),
{
    let f = |c: Seq<u8>| padded(c);
    let n = data.len();
    let x = n as u32;
    let p = spec_payload(data);
    lemma_u32_roundtrip(x);
    assert(u32_at(p, 0) == u32_at(u32_bytes(x), 0));
    assert(u32_at(p, 0) as nat == n);
    let fs = spec_frames(data);
    if p.len() <= 255 {
        assert(spec_chunks(p) == seq![p]);
        assert(fs =~= seq![padded(p)]);
        let first = padded(p);
        assert(u32_at(first, 0) == u32_at(p, 0));
        let r = spec_start(first)->Some_0;
        assert(first.skip(4).take(n as int) =~= data);
        assert(r.packet =~= data);
        assert(fs.drop_first() =~= Seq::<Seq<u8>>::empty());
    } else {
        lemma_frames_split(p);
        lemma_padded_full(p.take(255));
        let first = p.take(255);
        assert(fs[0] == first);
        assert(u32_at(first, 0) == u32_at(p, 0));
        let r = spec_start(first)->Some_0;
        assert(first.skip(4).take(251) =~= data.take(251));
        assert(r == SpecReader { expected: n, packet: data.take(251) });
        assert(p.skip(255) =~= data.skip(251));
        assert(fs.drop_first() =~= spec_chunks(data.skip(251)).map_values(f));
        lemma_feed_rest(data, 251);
    }
}

} // verus!

verus! {

/// The frames joined one after the other.
pub open spec fn joined(frames: Seq<Seq<u8>>) -> Seq<u8>
    decreases frames.len(),
{
    if frames.len() == 0 {
        seq![]
    } else {
        frames[0] + joined(frames.drop_first())
    }
}

/// Every frame holds [`FRAME_PAYLOAD_SIZE`] bytes, as a report without its id does.
pub open spec fn full_frames(frames: Seq<Seq<u8>>) -> bool {
    forall|i: int| 0 <= i < frames.len() ==> #[trigger] frames[i].len() == 255
}

/// The number of full frames that hold `k` more bytes.
pub open spec fn frames_for(k: nat) -> nat {
    ((k + 254) / 255) as nat
}

/// The number of frames that a packet of `n` bytes takes with its 4-byte length.
pub open spec fn frames_for_packet(n: nat) -> nat {
    ((n + 4 + 254) / 255) as nat
}

proof fn lemma_joined_len(frames: Seq<Seq<u8>>)
    requires
        full_frames(frames),
    ensures
        joined(frames).len() == 255 * frames.len(),
    decreases frames.len(),
{
    if frames.len() > 0 {
        let rest = frames.drop_first();
        assert(full_frames(rest)) by {
            assert forall|i: int| 0 <= i < rest.len() implies #[trigger] rest[i].len() == 255 by {
                assert(rest[i] == frames[i + 1]);
            }
        }
        lemma_joined_len(rest);
        assert(frames[0].len() == 255);
    }
}

proof fn lemma_frames_for_holds(k: nat)
    ensures
        k <= 255 * frames_for(k),
{
    assert(k <= 255 * ((k + 254) / 255)) by (nonlinear_arith);
}

proof fn lemma_frames_for_step(k: nat)
    requires
        k > 0,
    ensures
        frames_for(k) == 1 + frames_for(if k <= 255 { 0 } else { (k - 255) as nat }),
        frames_for(k) >= 1,
{
    if k <= 255 {
        assert((k + 254) / 255 == 1) by (nonlinear_arith)
            requires
                0 < k <= 255,
        ;
    } else {
        assert((k + 254) / 255 == 1 + (k - 255 + 254) / 255) by (nonlinear_arith)
            requires
                k > 255,
        ;
    }
}

/// Feeding full frames to a reader that still misses `k` bytes: the reader completes exactly
/// when it was fed the frames that hold those bytes, and then holds the bytes it had followed
/// by the first `k` bytes of the frames.
proof fn lemma_feed_any(r: SpecReader, frames: Seq<Seq<u8>>)
    requires
        r.packet.len() <= r.expected,
        full_frames(frames),
    ensures
        spec_feed(r, frames) == if frames.len() == frames_for((r.expected - r.packet.len()) as nat) {
            Some(
                SpecReader {
                    expected: r.expected,
                    packet: r.packet + joined(frames).take((r.expected - r.packet.len()) as int),
                },
            )
        } else {
            None::<SpecReader>
        },
    decreases frames.len(),
{
    let k = (r.expected - r.packet.len()) as nat;
    if k == 0 {
        assert(frames_for(0) == 0);
        assert(r.packet + joined(frames).take(0) =~= r.packet);
    } else {
        lemma_frames_for_step(k);
        if frames.len() > 0 {
            let f = frames[0];
            let rest = frames.drop_first();
            assert(f.len() == 255);
            let r2 = spec_push(r, f);
            let t = min_nat(k, 255);
            assert(r2.packet == r.packet + f.take(t as int));
            assert(full_frames(rest)) by {
                assert forall|i: int| 0 <= i < rest.len() implies #[trigger] rest[i].len() == 255 by {
                    assert(rest[i] == frames[i + 1]);
                }
            }
            lemma_feed_any(r2, rest);
            let k2 = (r2.expected - r2.packet.len()) as nat;
            assert(k2 == if k <= 255 { 0 } else { (k - 255) as nat });
            assert(joined(frames) == f + joined(rest));
            if frames.len() == frames_for(k) {
                lemma_joined_len(rest);
                lemma_frames_for_holds(k2);
                assert(joined(rest).len() >= k2);
                assert(r2.packet + joined(rest).take(k2 as int) =~= r.packet + joined(frames).take(k as int));
            }
        }
    }
}

/// Law: reading any run of reports gives the first `n` bytes of their payloads joined,
/// after the 4 bytes of the length `n` that the first one announces; it succeeds exactly when
/// the run holds the number of reports that these `n + 4` bytes take, `ceil((n + 4) / 255)`.
/// Each report is taken without its id, as [`FRAME_PAYLOAD_SIZE`] bytes.
pub proof fn lemma_read_any_frames(frames: Seq<Seq<u8>>)
    requires
        frames.len() > 0,
        full_frames(frames),
    ensures
        spec_read(frames) == if frames.len() == frames_for_packet(u32_at(frames[0], 0) as nat) {
            Some(joined(frames).skip(4).take(u32_at(frames[0], 0) as int))
        } else {
            None::<Seq<u8>>
        },
{
    let f = frames[0];
    let rest = frames.drop_first();
    assert(f.len() == 255);
    let n = u32_at(f, 0) as nat;
    let r = spec_start(f)->Some_0;
    let t = min_nat(n, 251);
    assert(r == SpecReader { expected: n, packet: f.skip(4).take(t as int) });
    assert(full_frames(rest)) by {
        assert forall|i: int| 0 <= i < rest.len() implies #[trigger] rest[i].len() == 255 by {
            assert(rest[i] == frames[i + 1]);
        }
    }
    lemma_feed_any(r, rest);
    let k = (n - t) as nat;
    if n <= 251 {
        assert(k == 0);
        assert(frames_for(0) == 0);
        assert(frames_for_packet(n) == 1) by (nonlinear_arith)
            requires
                n <= 251,
        ;
    } else {
        assert(k == n - 251);
        assert(frames_for_packet(n) == 1 + frames_for(k)) by (nonlinear_arith)
            requires
                n > 251,
                k == n - 251,
        ;
    }
    assert(joined(frames) == f + joined(rest));
    if frames.len() == frames_for_packet(n) {
        lemma_joined_len(rest);
        lemma_frames_for_holds(k);
        assert(joined(rest).len() >= k);
        assert(f.skip(4).take(t as int) + joined(rest).take(k as int) =~= joined(frames).skip(4).take(n as int));
    }
}

} // verus!

verus! {

/// Law: the reports that [`build_frames`] makes for `data`, each taken without its report id,
/// read back as `data`: what [`assemble_packet`] returns for them. Left out: packets longer
/// than `u32::MAX` bytes, whose length prefix wraps.
pub proof fn lemma_written_reports_read_back(report_id: u8, data: Seq<u8>, reports: Seq<Seq<u8>>)
    requires
        data.len() <= u32::MAX,
        reports.len() == spec_frames(data).len(),
        forall|i: int| 0 <= i < reports.len() ==> #[trigger] reports[i] == seq![report_id] + spec_frames(data)[i],
    ensures
        spec_read(reports.map_values(|r: Seq<u8>| r.drop_first())) == Some(data),
{
    let stripped = reports.map_values(|r: Seq<u8>| r.drop_first());
    assert forall|i: int| 0 <= i < stripped.len() implies stripped[i] == spec_frames(data)[i] by {
        assert(reports[i] == seq![report_id] + spec_frames(data)[i]);
        assert(reports[i].drop_first() =~= spec_frames(data)[i]);
    }
    assert(stripped =~= spec_frames(data));
    lemma_read_gives_back_write(data);
}

/// The frames of a list of reports read from a device, each without its report id.
pub open spec fn frames_view(frames: Seq<Vec<u8>>) -> Seq<Seq<u8>> {
    frames.map_values(|f: Vec<u8>| f@)
}

/// How many frames the packet that starts with `first` takes: `ceil((n + 4) / 255)` for the
/// length `n` in its first four bytes; `None` where the frame is too short to hold it.
pub fn frames_needed(first: &[u8]) -> (r: Option<usize>)
    ensures
        first@.len() < 4 ==> r is None,
        first@.len() >= 4 ==> r == Some(frames_for_packet(u32_at(first@, 0) as nat) as usize),
{
    if first.len() < 4 {
        return None;
    }
    let n = read_u32_le(first, 0) as u64;
    let needed = (n + 4 + 254) / 255;
    proof {
        assert(needed as nat == frames_for_packet(n as nat));
    }
    Some(needed as usize)
}

/// Reads a packet from the frames of the reports that carry it: the reader started on the
/// first frame and fed the others. `None` where the frames end before the packet is complete,
/// some are left over, or the first one is too short.
pub fn assemble_packet(frames: &Vec<Vec<u8>>) -> (r: Option<Vec<u8>>)
    ensures
        match spec_read(frames_view(frames@)) {
            Some(p) => r is Some && r->Some_0@ == p,
            None => r is None,
        },
        frames@.len() > 0 && full_frames(frames_view(frames@)) && frames@.len() == frames_for_packet(
            u32_at(frames@[0]@, 0) as nat,
        ) ==> r is Some && r->Some_0@ == joined(frames_view(frames@)).skip(4).take(
            u32_at(frames@[0]@, 0) as int,
        ),
{
    let ghost fs = frames_view(frames@);
    proof {
        assert(fs.len() == frames@.len());
        if frames@.len() > 0 && full_frames(fs) {
            assert(fs[0] == frames@[0]@);
            lemma_read_any_frames(fs);
        }
    }
    if frames.len() == 0 {
        return None;
    }
    let mut reader = match PacketReader::start(frames[0].as_slice()) {
        Ok(r) => r,
        Err(_) => {
            proof {
                assert(fs[0] == frames@[0]@);
            }
            return None;
        },
    };
    let ghost first = reader@;
    proof {
        assert(fs[0] == frames@[0]@);
        assert(fs.drop_first().skip(0) =~= fs.drop_first());
    }
    let mut i: usize = 1;
    while i < frames.len() && !reader.is_complete()
        invariant
            1 <= i <= frames@.len(),
            fs == frames_view(frames@),
            fs.len() == frames@.len(),
            spec_start(fs[0]) == Some(first),
            spec_feed(first, fs.drop_first()) == spec_feed(reader@, fs.skip(i as int)),
        decreases frames@.len() - i,
    {
        let ghost before = reader@;
        proof {
            assert(fs[i as int] == frames@[i as int]@);
            assert(fs.skip(i as int)[0] == fs[i as int]);
            assert(fs.skip(i as int).drop_first() =~= fs.skip(i + 1));
        }
        reader.push_frame(frames[i].as_slice());
        i = i + 1;
    }
    let complete = reader.is_complete();
    if complete && i == frames.len() {
        proof {
            assert(fs.skip(i as int) =~= Seq::<Seq<u8>>::empty());
        }
        Some(reader.into_packet())
    } else {
        proof {
            if complete {
                assert(fs.skip(i as int).len() > 0);
            } else {
                assert(fs.skip(i as int) =~= Seq::<Seq<u8>>::empty());
            }
        }
        None
    }
}

} // verus!

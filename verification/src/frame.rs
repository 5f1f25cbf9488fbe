//! The wire protocol: three frame variants with a fixed binary layout.
//!
//! Every encoded frame begins with a 16-bit big-endian tag (Join = 0,
//! Heartbeat = 1, Leave = 2) followed by the variant's fields in order,
//! followed by one reserved zero padding byte. Join and Heartbeat encode to
//! 22 bytes, Leave to 20. Decoding a buffer stops silently at the first
//! short or unrecognized trailing fragment: a truncated frame or an unknown
//! tag ends the stream without an error.

use vstd::prelude::*;

verus! {

pub const JOIN: u16 = 0;
pub const HEARTBEAT: u16 = 1;
pub const LEAVE: u16 = 2;

/// Total encoded size of a Join or Heartbeat frame, tag and padding included.
pub const JOIN_FRAME_LEN: usize = 22;
/// Total encoded size of a Leave frame, tag and padding included.
pub const LEAVE_FRAME_LEN: usize = 20;

/// One unit of the binary presence protocol.
#[derive(Clone, Copy, Debug, PartialEq, Eq, Structural)]
pub enum Frame {
    Join { uuid: u128, port: u16, flags: u8 },
    Heartbeat { uuid: u128, port: u16, flags: u8 },
    Leave { uuid: u128, flags: u8 },
}

/// The two big-endian bytes of a 16-bit value, most significant first.
pub open spec fn spec_u16_to_be(x: u16) -> Seq<u8> {
    seq![((x >> 8) & 0xff) as u8, (x & 0xff) as u8]
}

/// The 16-bit value read back from two big-endian bytes.
pub open spec fn spec_u16_from_be(b0: u8, b1: u8) -> u16 {
    ((b0 as u16) << 8) | (b1 as u16)
}

/// The sixteen big-endian bytes of a 128-bit value, most significant first.
pub open spec fn spec_u128_to_be(x: u128) -> Seq<u8> {
    seq![
        ((x >> 120) & 0xff) as u8,
        ((x >> 112) & 0xff) as u8,
        ((x >> 104) & 0xff) as u8,
        ((x >> 96) & 0xff) as u8,
        ((x >> 88) & 0xff) as u8,
        ((x >> 80) & 0xff) as u8,
        ((x >> 72) & 0xff) as u8,
        ((x >> 64) & 0xff) as u8,
        ((x >> 56) & 0xff) as u8,
        ((x >> 48) & 0xff) as u8,
        ((x >> 40) & 0xff) as u8,
        ((x >> 32) & 0xff) as u8,
        ((x >> 24) & 0xff) as u8,
        ((x >> 16) & 0xff) as u8,
        ((x >> 8) & 0xff) as u8,
        (x & 0xff) as u8,
    ]
}

/// The 128-bit value read back from sixteen big-endian bytes.
pub open spec fn spec_u128_from_be(s: Seq<u8>) -> u128
    recommends
        s.len() == 16,
{
    ((s[0] as u128) << 120) | ((s[1] as u128) << 112) | ((s[2] as u128) << 104)
        | ((s[3] as u128) << 96) | ((s[4] as u128) << 88) | ((s[5] as u128) << 80)
        | ((s[6] as u128) << 72) | ((s[7] as u128) << 64) | ((s[8] as u128) << 56)
        | ((s[9] as u128) << 48) | ((s[10] as u128) << 40) | ((s[11] as u128) << 32)
        | ((s[12] as u128) << 24) | ((s[13] as u128) << 16) | ((s[14] as u128) << 8)
        | (s[15] as u128)
}

/// The exact byte layout of one frame on the wire.
pub open spec fn spec_encode(f: Frame) -> Seq<u8> {
    match f {
        Frame::Join { uuid, port, flags } => spec_u16_to_be(JOIN) + spec_u128_to_be(uuid)
            + spec_u16_to_be(port) + seq![flags, 0u8],
        Frame::Heartbeat { uuid, port, flags } => spec_u16_to_be(HEARTBEAT)
            + spec_u128_to_be(uuid) + spec_u16_to_be(port) + seq![flags, 0u8],
        Frame::Leave { uuid, flags } => spec_u16_to_be(LEAVE) + spec_u128_to_be(uuid)
            + seq![flags, 0u8],
    }
}

/// The number of bytes one frame occupies on the wire.
pub open spec fn spec_frame_len(f: Frame) -> int {
    match f {
        Frame::Leave { .. } => LEAVE_FRAME_LEN as int,
        _ => JOIN_FRAME_LEN as int,
    }
}

/// Every frame decoded from the front of a buffer, in encounter order.
///
/// Decoding stops without an item as soon as fewer than two bytes remain,
/// the tag is not one of Join/Heartbeat/Leave, or fewer bytes remain than
/// the full fixed size of the tagged variant.
pub open spec fn spec_decode(b: Seq<u8>) -> Seq<Frame>
    decreases b.len(),
{
    if b.len() < 2 {
        Seq::empty()
    } else {
        let tag = spec_u16_from_be(b[0], b[1]);
        if (tag == JOIN || tag == HEARTBEAT) && b.len() >= JOIN_FRAME_LEN {
            let uuid = spec_u128_from_be(b.subrange(2, 18));
            let port = spec_u16_from_be(b[18], b[19]);
            let flags = b[20];
            let f = if tag == JOIN {
                Frame::Join { uuid, port, flags }
            } else {
                Frame::Heartbeat { uuid, port, flags }
            };
            seq![f] + spec_decode(b.skip(JOIN_FRAME_LEN as int))
        } else if tag == LEAVE && b.len() >= LEAVE_FRAME_LEN {
            let f = Frame::Leave { uuid: spec_u128_from_be(b.subrange(2, 18)), flags: b[18] };
            seq![f] + spec_decode(b.skip(LEAVE_FRAME_LEN as int))
        } else {
            Seq::empty()
        }
    }
}

/// The concatenated wire bytes of a sequence of frames, in order.
pub open spec fn spec_encode_all(fs: Seq<Frame>) -> Seq<u8>
    decreases fs.len(),
{
    if fs.len() == 0 {
        Seq::empty()
    } else {
        spec_encode(fs[0]) + spec_encode_all(fs.skip(1))
    }
}

/// Bit 0 of the flags byte drives a display-only "extra" indicator: it reads
/// true exactly when the flags value is even.
pub fn extra(flags: u8) -> (r: bool)
    ensures
        r == (flags % 2 == 0),
{
    flags % 2 == 0
}

proof fn lemma_u16_bytes_fit(x: u16)
    by (bit_vector)
    ensures
        (x >> 8) & 0xff < 256,
        x & 0xff < 256,
{
}

proof fn lemma_u128_bytes_fit(x: u128)
    by (bit_vector)
    ensures
        (x >> 120) & 0xff < 256,
        (x >> 112) & 0xff < 256,
        (x >> 104) & 0xff < 256,
        (x >> 96) & 0xff < 256,
        (x >> 88) & 0xff < 256,
        (x >> 80) & 0xff < 256,
        (x >> 72) & 0xff < 256,
        (x >> 64) & 0xff < 256,
        (x >> 56) & 0xff < 256,
        (x >> 48) & 0xff < 256,
        (x >> 40) & 0xff < 256,
        (x >> 32) & 0xff < 256,
        (x >> 24) & 0xff < 256,
        (x >> 16) & 0xff < 256,
        (x >> 8) & 0xff < 256,
        x & 0xff < 256,
{
}

fn push_u16_be(buf: &mut Vec<u8>, x: u16)
    ensures
        final(buf)@ == old(buf)@ + spec_u16_to_be(x),
{
    proof {
        lemma_u16_bytes_fit(x);
    }
    buf.push(((x >> 8) & 0xff) as u8);
    buf.push((x & 0xff) as u8);
    assert(buf@ =~= old(buf)@ + spec_u16_to_be(x));
}

fn push_u128_be(buf: &mut Vec<u8>, x: u128)
    ensures
        final(buf)@ == old(buf)@ + spec_u128_to_be(x),
{
    proof {
        lemma_u128_bytes_fit(x);
    }
    buf.push(((x >> 120) & 0xff) as u8);
    buf.push(((x >> 112) & 0xff) as u8);
    buf.push(((x >> 104) & 0xff) as u8);
    buf.push(((x >> 96) & 0xff) as u8);
    buf.push(((x >> 88) & 0xff) as u8);
    buf.push(((x >> 80) & 0xff) as u8);
    buf.push(((x >> 72) & 0xff) as u8);
    buf.push(((x >> 64) & 0xff) as u8);
    buf.push(((x >> 56) & 0xff) as u8);
    buf.push(((x >> 48) & 0xff) as u8);
    buf.push(((x >> 40) & 0xff) as u8);
    buf.push(((x >> 32) & 0xff) as u8);
    buf.push(((x >> 24) & 0xff) as u8);
    buf.push(((x >> 16) & 0xff) as u8);
    buf.push(((x >> 8) & 0xff) as u8);
    buf.push((x & 0xff) as u8);
    assert(buf@ =~= old(buf)@ + spec_u128_to_be(x));
}

/// Encode one frame to its exact wire bytes. Pure, with no failure path;
/// the output length is fixed per variant and the padding byte is zero.
pub fn encode(f: &Frame) -> (buf: Vec<u8>)
    ensures
        buf@ == spec_encode(*f),
        buf@.len() == spec_frame_len(*f),
{
    let mut buf: Vec<u8> = Vec::new();
    match f {
        Frame::Join { uuid, port, flags } => {
            push_u16_be(&mut buf, JOIN);
            push_u128_be(&mut buf, *uuid);
            push_u16_be(&mut buf, *port);
            buf.push(*flags);
            buf.push(0u8);
        }
        Frame::Heartbeat { uuid, port, flags } => {
            push_u16_be(&mut buf, HEARTBEAT);
            push_u128_be(&mut buf, *uuid);
            push_u16_be(&mut buf, *port);
            buf.push(*flags);
            buf.push(0u8);
        }
        Frame::Leave { uuid, flags } => {
            push_u16_be(&mut buf, LEAVE);
            push_u128_be(&mut buf, *uuid);
            buf.push(*flags);
            buf.push(0u8);
        }
    }
    assert(buf@ =~= spec_encode(*f));
    buf
}

proof fn lemma_u16_be_round_trip(x: u16)
    by (bit_vector)
    ensures
        (((((x >> 8) & 0xff) as u8) as u16) << 8) | (((x & 0xff) as u8) as u16) == x,
{
}

proof fn lemma_u128_be_round_trip(x: u128)
    by (bit_vector)
    ensures
        (((((x >> 120) & 0xff) as u8) as u128) << 120) | (((((x >> 112) & 0xff) as u8) as u128)
            << 112) | (((((x >> 104) & 0xff) as u8) as u128) << 104) | (((((x >> 96)
            & 0xff) as u8) as u128) << 96) | (((((x >> 88) & 0xff) as u8) as u128) << 88) | (((((x
            >> 80) & 0xff) as u8) as u128) << 80) | (((((x >> 72) & 0xff) as u8) as u128) << 72) | (
        ((((x >> 64) & 0xff) as u8) as u128) << 64) | (((((x >> 56) & 0xff) as u8) as u128) << 56)
            | (((((x >> 48) & 0xff) as u8) as u128) << 48) | (((((x >> 40) & 0xff) as u8) as u128)
            << 40) | (((((x >> 32) & 0xff) as u8) as u128) << 32) | (((((x >> 24)
            & 0xff) as u8) as u128) << 24) | (((((x >> 16) & 0xff) as u8) as u128) << 16) | (((((x
            >> 8) & 0xff) as u8) as u128) << 8) | (((x & 0xff) as u8) as u128) == x,
{
}

/// The wire bytes of a frame occupy exactly its fixed size.
pub proof fn lemma_encode_len(f: Frame)
    ensures
        spec_encode(f).len() == spec_frame_len(f),
{
}

/// Decoding starts over whatever follows one encoded frame: the frame itself
/// is recovered exactly, and the rest of the buffer is decoded as if alone.
pub proof fn lemma_decode_encode_prefix(f: Frame, rest: Seq<u8>)
    ensures
        spec_decode(spec_encode(f) + rest) == seq![f] + spec_decode(rest),
{
    let e = spec_encode(f) + rest;
    match f {
        Frame::Join { uuid, port, flags } => {
            lemma_u16_be_round_trip(JOIN);
            assert(spec_u16_from_be(e[0], e[1]) == JOIN);
            assert(e.subrange(2, 18) =~= spec_u128_to_be(uuid));
            lemma_u128_be_round_trip(uuid);
            assert(spec_u128_from_be(spec_u128_to_be(uuid)) == uuid);
            lemma_u16_be_round_trip(port);
            assert(spec_u16_from_be(e[18], e[19]) == port);
            assert(e[20] == flags);
            assert(e.skip(JOIN_FRAME_LEN as int) =~= rest);
            assert(spec_decode(e) =~= seq![f] + spec_decode(rest));
        }
        Frame::Heartbeat { uuid, port, flags } => {
            lemma_u16_be_round_trip(HEARTBEAT);
            assert(spec_u16_from_be(e[0], e[1]) == HEARTBEAT);
            assert(e.subrange(2, 18) =~= spec_u128_to_be(uuid));
            lemma_u128_be_round_trip(uuid);
            assert(spec_u128_from_be(spec_u128_to_be(uuid)) == uuid);
            lemma_u16_be_round_trip(port);
            assert(spec_u16_from_be(e[18], e[19]) == port);
            assert(e[20] == flags);
            assert(e.skip(JOIN_FRAME_LEN as int) =~= rest);
            assert(spec_decode(e) =~= seq![f] + spec_decode(rest));
        }
        Frame::Leave { uuid, flags } => {
            lemma_u16_be_round_trip(LEAVE);
            assert(spec_u16_from_be(e[0], e[1]) == LEAVE);
            assert(e.subrange(2, 18) =~= spec_u128_to_be(uuid));
            lemma_u128_be_round_trip(uuid);
            assert(spec_u128_from_be(spec_u128_to_be(uuid)) == uuid);
            assert(e[18] == flags);
            assert(e.skip(LEAVE_FRAME_LEN as int) =~= rest);
            assert(spec_decode(e) =~= seq![f] + spec_decode(rest));
        }
    }
}

/// Round trip: decoding the encoding of any frame yields exactly that frame,
/// once, whatever its field values.
pub proof fn lemma_round_trip(f: Frame)
    ensures
        spec_decode(spec_encode(f)) == seq![f],
{
    lemma_decode_encode_prefix(f, Seq::empty());
    assert(spec_encode(f) + Seq::<u8>::empty() =~= spec_encode(f));
    assert(seq![f] + spec_decode(Seq::<u8>::empty()) =~= seq![f]);
}

/// Concatenation: encoding each frame of a sequence, concatenating the bytes
/// and decoding the result recovers the original sequence in order.
pub proof fn lemma_decode_concatenation(fs: Seq<Frame>)
    ensures
        spec_decode(spec_encode_all(fs)) == fs,
    decreases fs.len(),
{
    if fs.len() == 0 {
        assert(spec_decode(spec_encode_all(fs)) =~= fs);
    } else {
        lemma_decode_concatenation(fs.skip(1));
        lemma_decode_encode_prefix(fs[0], spec_encode_all(fs.skip(1)));
        assert(seq![fs[0]] + fs.skip(1) =~= fs);
    }
}

/// A strict prefix of one encoded frame decodes to nothing: the incomplete
/// frame is dropped, not reported as an error.
pub proof fn lemma_truncated_frame(f: Frame, keep: int)
    requires
        0 <= keep < spec_frame_len(f),
    ensures
        spec_decode(spec_encode(f).take(keep)) == Seq::<Frame>::empty(),
{
    let t = spec_encode(f).take(keep);
    if keep >= 2 {
        match f {
            Frame::Join { .. } => {
                lemma_u16_be_round_trip(JOIN);
                assert(spec_u16_from_be(t[0], t[1]) == JOIN);
            }
            Frame::Heartbeat { .. } => {
                lemma_u16_be_round_trip(HEARTBEAT);
                assert(spec_u16_from_be(t[0], t[1]) == HEARTBEAT);
            }
            Frame::Leave { .. } => {
                lemma_u16_be_round_trip(LEAVE);
                assert(spec_u16_from_be(t[0], t[1]) == LEAVE);
            }
        }
    }
    assert(spec_decode(t) =~= Seq::<Frame>::empty());
}

proof fn lemma_encode_all_len_ge_last(fs: Seq<Frame>)
    requires
        fs.len() > 0,
    ensures
        spec_encode_all(fs).len() >= spec_frame_len(fs.last()),
    decreases fs.len(),
{
    lemma_encode_len(fs[0]);
    if fs.len() == 1 {
        assert(spec_encode_all(fs.skip(1)) =~= Seq::<u8>::empty());
    } else {
        lemma_encode_all_len_ge_last(fs.skip(1));
        assert(fs.skip(1).last() == fs.last());
    }
}

/// Truncation safety: removing between one byte and the whole last frame from
/// the end of a concatenation of encoded frames loses exactly the final item;
/// every earlier frame is still decoded, in order.
pub proof fn lemma_truncation_safety(fs: Seq<Frame>, n: int)
    requires
        fs.len() > 0,
        0 < n <= spec_frame_len(fs.last()),
    ensures
        spec_decode(spec_encode_all(fs).take(spec_encode_all(fs).len() - n)) == fs.drop_last(),
    decreases fs.len(),
{
    let total = spec_encode_all(fs);
    if fs.len() == 1 {
        assert(spec_encode_all(fs.skip(1)) =~= Seq::<u8>::empty());
        assert(total =~= spec_encode(fs[0]));
        lemma_encode_len(fs[0]);
        lemma_truncated_frame(fs[0], spec_frame_len(fs[0]) - n);
        assert(fs.drop_last() =~= Seq::<Frame>::empty());
    } else {
        let tail = fs.skip(1);
        let enc0 = spec_encode(fs[0]);
        let tail_enc = spec_encode_all(tail);
        assert(tail.last() == fs.last());
        lemma_truncation_safety(tail, n);
        lemma_encode_all_len_ge_last(tail);
        lemma_encode_len(fs[0]);
        assert(total.take(total.len() - n) =~= enc0 + tail_enc.take(tail_enc.len() - n));
        lemma_decode_encode_prefix(fs[0], tail_enc.take(tail_enc.len() - n));
        assert(seq![fs[0]] + tail.drop_last() =~= fs.drop_last());
    }
}

/// Unknown tag: a buffer whose first two bytes name no known variant decodes
/// to the empty sequence, whatever follows them.
pub proof fn lemma_unknown_tag(b: Seq<u8>)
    requires
        b.len() >= 2,
        spec_u16_from_be(b[0], b[1]) != JOIN,
        spec_u16_from_be(b[0], b[1]) != HEARTBEAT,
        spec_u16_from_be(b[0], b[1]) != LEAVE,
    ensures
        spec_decode(b) == Seq::<Frame>::empty(),
{
    assert(spec_decode(b) =~= Seq::<Frame>::empty());
}

/// A cursor over a byte buffer that yields the frames packed at its front.
pub struct FrameIterator<'a> {
    pos: usize,
    bytes: &'a [u8],
}

impl<'a> FrameIterator<'a> {
    /// The bytes not yet consumed.
    pub closed spec fn remaining(self) -> Seq<u8> {
        self.bytes@.skip(self.pos as int)
    }

    /// The cursor never points past the end of the buffer.
    pub closed spec fn wf(self) -> bool {
        self.pos <= self.bytes@.len()
    }

    pub fn new(bytes: &'a [u8]) -> (it: FrameIterator<'a>)
        ensures
            it.wf(),
            it.remaining() == bytes@,
    {
        let it = FrameIterator { bytes, pos: 0usize };
        assert(it.remaining() =~= bytes@);
        it
    }

    /// The next frame at the cursor, or `None` once the rest of the buffer
    /// does not begin with one complete recognized frame.
    pub fn next(&mut self) -> (r: Option<Frame>)
        requires
            old(self).wf(),
        ensures
            final(self).wf(),
            match r {
                Some(f) => spec_decode(old(self).remaining()).len() > 0
                    && f == spec_decode(old(self).remaining())[0]
                    && final(self).remaining() == old(self).remaining().skip(spec_frame_len(f))
                    && spec_decode(final(self).remaining()) == spec_decode(
                    old(self).remaining(),
                ).skip(1)
                    && final(self).remaining().len() < old(self).remaining().len(),
                None => spec_decode(old(self).remaining()).len() == 0 && *final(self) == *old(
                    self,
                ),
            },
    {
        let ghost rem = self.remaining();
        let len = self.bytes.len();
        if len - self.pos < 2 {
            return None;
        }
        let b0 = self.bytes[self.pos];
        let b1 = self.bytes[self.pos + 1];
        let tag = ((b0 as u16) << 8) | (b1 as u16);
        assert(tag == spec_u16_from_be(rem[0], rem[1]));
        if tag == JOIN || tag == HEARTBEAT {
            if len - self.pos < JOIN_FRAME_LEN {
                return None;
            }
            let uuid = ((self.bytes[self.pos + 2] as u128) << 120) | (
            (self.bytes[self.pos + 3] as u128) << 112) | ((self.bytes[self.pos + 4] as u128)
                << 104) | ((self.bytes[self.pos + 5] as u128) << 96) | ((self.bytes[self.pos
                + 6] as u128) << 88) | ((self.bytes[self.pos + 7] as u128) << 80) | ((self.bytes[
            self.pos + 8] as u128) << 72) | ((self.bytes[self.pos + 9] as u128) << 64) | (
            (self.bytes[self.pos + 10] as u128) << 56) | ((self.bytes[self.pos + 11] as u128)
                << 48) | ((self.bytes[self.pos + 12] as u128) << 40) | ((self.bytes[self.pos
                + 13] as u128) << 32) | ((self.bytes[self.pos + 14] as u128) << 24) | ((self.bytes[
            self.pos + 15] as u128) << 16) | ((self.bytes[self.pos + 16] as u128) << 8) | (
            self.bytes[self.pos + 17] as u128);
            assert(rem.subrange(2, 18) =~= self.bytes@.subrange(
                self.pos + 2,
                self.pos + 18,
            ));
            assert(uuid == spec_u128_from_be(rem.subrange(2, 18)));
            let port = ((self.bytes[self.pos + 18] as u16) << 8) | (self.bytes[self.pos
                + 19] as u16);
            let flags = self.bytes[self.pos + 20];
            self.pos = self.pos + JOIN_FRAME_LEN;
            let f = if tag == JOIN {
                Frame::Join { uuid, port, flags }
            } else {
                Frame::Heartbeat { uuid, port, flags }
            };
            proof {
                assert(self.remaining() =~= rem.skip(JOIN_FRAME_LEN as int));
                assert(spec_decode(rem) == seq![f] + spec_decode(rem.skip(JOIN_FRAME_LEN as int)));
                assert(spec_decode(self.remaining()) =~= spec_decode(rem).skip(1));
            }
            Some(f)
        } else if tag == LEAVE {
            if len - self.pos < LEAVE_FRAME_LEN {
                return None;
            }
            let uuid = ((self.bytes[self.pos + 2] as u128) << 120) | (
            (self.bytes[self.pos + 3] as u128) << 112) | ((self.bytes[self.pos + 4] as u128)
                << 104) | ((self.bytes[self.pos + 5] as u128) << 96) | ((self.bytes[self.pos
                + 6] as u128) << 88) | ((self.bytes[self.pos + 7] as u128) << 80) | ((self.bytes[
            self.pos + 8] as u128) << 72) | ((self.bytes[self.pos + 9] as u128) << 64) | (
            (self.bytes[self.pos + 10] as u128) << 56) | ((self.bytes[self.pos + 11] as u128)
                << 48) | ((self.bytes[self.pos + 12] as u128) << 40) | ((self.bytes[self.pos
                + 13] as u128) << 32) | ((self.bytes[self.pos + 14] as u128) << 24) | ((self.bytes[
            self.pos + 15] as u128) << 16) | ((self.bytes[self.pos + 16] as u128) << 8) | (
            self.bytes[self.pos + 17] as u128);
            assert(rem.subrange(2, 18) =~= self.bytes@.subrange(
                self.pos + 2,
                self.pos + 18,
            ));
            assert(uuid == spec_u128_from_be(rem.subrange(2, 18)));
            let flags = self.bytes[self.pos + 18];
            self.pos = self.pos + LEAVE_FRAME_LEN;
            let f = Frame::Leave { uuid, flags };
            proof {
                assert(self.remaining() =~= rem.skip(LEAVE_FRAME_LEN as int));
                assert(spec_decode(rem) == seq![f] + spec_decode(rem.skip(LEAVE_FRAME_LEN as int)));
                assert(spec_decode(self.remaining()) =~= spec_decode(rem).skip(1));
            }
            Some(f)
        } else {
            None
        }
    }
}

/// Decode every complete frame packed at the front of a buffer, in order,
/// stopping silently at the first short or unrecognized trailing fragment.
pub fn decode_all(bytes: &[u8]) -> (frames: Vec<Frame>)
    ensures
        frames@ == spec_decode(bytes@),
{
    let mut it = FrameIterator::new(bytes);
    let mut frames: Vec<Frame> = Vec::new();
    loop
        invariant
            it.wf(),
            frames@ + spec_decode(it.remaining()) == spec_decode(bytes@),
        ensures
            spec_decode(it.remaining()).len() == 0,
        decreases it.remaining().len(),
    {
        match it.next() {
            Some(f) => {
                frames.push(f);
                assert(frames@ + spec_decode(it.remaining()) =~= spec_decode(bytes@));
            }
            None => {
                break ;
            }
        }
    }
    assert(frames@ =~= spec_decode(bytes@));
    frames
}

} // verus!

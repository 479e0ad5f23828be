//! Frames around messages: two marker bytes, a version, the payload's length and checksum, the
//! payload. A [`StreamDecoder`] finds frames in a run of bytes that arrives piece by piece.

use vstd::prelude::*;
use crate::codec::{decode_message, encode_message, message_bytes, message_round_trip};
use crate::codec::{payload_bytes, read_message};
use crate::message::{MessageView, Payload, PayloadView, Ping, WireMessage};
use crate::text::{decimal, decimal_text};
use crate::wire::{lemma_u32_bytes, lemma_varint_round_trip, le_u32, put_u32_bytes, u32_bytes};
use crate::wire::{key_bytes, varint_bytes, DecodeFault, FaultView, FieldKind};

verus! {

/// The first marker byte, an `R`.
pub const FRAME_MAGIC_0: u8 = 82;

/// The second marker byte, an `F`.
pub const FRAME_MAGIC_1: u8 = 70;

pub const FRAME_VERSION: u8 = 1;

pub const FRAME_HEADER_LEN: usize = 9;

pub const MAX_PAYLOAD_LEN: usize = 4096;

/// The name under which the device makes itself known.
pub const BLE_DEVICE_NAME: &'static str = "lander001";

/// Why bytes are no frame, or a message fits into none.
#[derive(Clone, Debug, PartialEq, Eq)]
pub enum FrameError {
    TooShort,
    BadMagic,
    UnsupportedVersion(u8),
    LengthMismatch,
    CrcMismatch,
    PayloadTooLarge,
    Decode(DecodeFault),
    SelfCheckFailed,
}

/// Why bytes are no frame, as seen by the contracts.
pub enum FrameErrorView {
    TooShort,
    BadMagic,
    UnsupportedVersion(u8),
    LengthMismatch,
    CrcMismatch,
    PayloadTooLarge,
    Decode(FaultView),
    SelfCheckFailed,
}

impl View for FrameError {
    type V = FrameErrorView;

    open spec fn view(&self) -> FrameErrorView {
        match self {
            FrameError::TooShort => FrameErrorView::TooShort,
            FrameError::BadMagic => FrameErrorView::BadMagic,
            FrameError::UnsupportedVersion(v) => FrameErrorView::UnsupportedVersion(*v),
            FrameError::LengthMismatch => FrameErrorView::LengthMismatch,
            FrameError::CrcMismatch => FrameErrorView::CrcMismatch,
            FrameError::PayloadTooLarge => FrameErrorView::PayloadTooLarge,
            FrameError::Decode(fault) => FrameErrorView::Decode(fault@),
            FrameError::SelfCheckFailed => FrameErrorView::SelfCheckFailed,
        }
    }
}

/// The words for an error.
pub open spec fn error_text(e: FrameErrorView) -> Seq<char> {
    match e {
        FrameErrorView::TooShort => "frame too short"@,
        FrameErrorView::BadMagic => "invalid frame magic"@,
        FrameErrorView::UnsupportedVersion(v) => "unsupported frame version: "@ + decimal(v as nat),
        FrameErrorView::LengthMismatch => "frame length mismatch"@,
        FrameErrorView::CrcMismatch => "frame checksum mismatch"@,
        FrameErrorView::PayloadTooLarge => "payload exceeds maximum allowed size"@,
        FrameErrorView::Decode(fault) => "protobuf decode error: "@ + fault.text(),
        FrameErrorView::SelfCheckFailed => "startup protocol self-check failed"@,
    }
}

impl FrameError {
    /// The words for this error.
    pub fn text(&self) -> (r: String)
        ensures
            r@ == error_text(self@),
    {
        match self {
            FrameError::TooShort => "frame too short".to_string(),
            FrameError::BadMagic => "invalid frame magic".to_string(),
            FrameError::UnsupportedVersion(v) => {
                let mut s = "unsupported frame version: ".to_string();
                s.append(decimal_text(*v as u64).as_str());
                s
            },
            FrameError::LengthMismatch => "frame length mismatch".to_string(),
            FrameError::CrcMismatch => "frame checksum mismatch".to_string(),
            FrameError::PayloadTooLarge => "payload exceeds maximum allowed size".to_string(),
            FrameError::Decode(fault) => {
                let mut s = "protobuf decode error: ".to_string();
                s.append(fault.text().as_str());
                s
            },
            FrameError::SelfCheckFailed => "startup protocol self-check failed".to_string(),
        }
    }
}

/// The CRC-32 checksum of `data`.
pub uninterp spec fn crc32_of(data: Seq<u8>) -> u32;

/// `b` is `a` with another byte at `i`.
pub open spec fn one_byte_changed(a: Seq<u8>, b: Seq<u8>, i: int) -> bool {
    &&& 0 <= i < a.len() == b.len()
    &&& a[i] != b[i]
    &&& forall|j: int| 0 <= j < a.len() && j != i ==> a[j] == b[j]
}

/// `crc32fast::hash` gives the CRC-32 checksum (IEEE) of the bytes, which depends on nothing else
/// and is another one where a single byte is another one. How it comes from the bytes is not said
/// here.
#[verifier::external_body]
fn checksum(data: &[u8]) -> (r: u32)
    ensures
        r == crc32_of(data@),
        forall|other: Seq<u8>, i: int| #[trigger]
            one_byte_changed(other, data@, i) ==> crc32_of(other) != r,
{
    crc32fast::hash(data)
}

/// The frame of a payload that has the checksum `crc`.
pub open spec fn frame_with(payload: Seq<u8>, crc: u32) -> Seq<u8> {
    seq![
        FRAME_MAGIC_0,
        FRAME_MAGIC_1,
        FRAME_VERSION,
        (payload.len() % 0x100) as u8,
        (payload.len() / 0x100) as u8,
    ] + u32_bytes(crc) + payload
}

/// The frame of a payload.
pub open spec fn frame_bytes(payload: Seq<u8>) -> Seq<u8> {
    frame_with(payload, crc32_of(payload))
}

/// Whether the two marker bytes stand at `i`.
pub open spec fn magic_at(b: Seq<u8>, i: int) -> bool {
    0 <= i && i + 1 < b.len() && b[i] == FRAME_MAGIC_0 && b[i + 1] == FRAME_MAGIC_1
}

/// The payload length that a header declares.
pub open spec fn declared_len(b: Seq<u8>) -> int {
    b[3] + 0x100 * b[4]
}

/// What is wrong with the header of a frame, if anything is.
pub open spec fn header_fault(b: Seq<u8>) -> Option<FrameErrorView> {
    if b.len() < FRAME_HEADER_LEN {
        Some(FrameErrorView::TooShort)
    } else if !magic_at(b, 0) {
        Some(FrameErrorView::BadMagic)
    } else if b[2] != FRAME_VERSION {
        Some(FrameErrorView::UnsupportedVersion(b[2]))
    } else if declared_len(b) > MAX_PAYLOAD_LEN {
        Some(FrameErrorView::PayloadTooLarge)
    } else if b.len() != FRAME_HEADER_LEN + declared_len(b) {
        Some(FrameErrorView::LengthMismatch)
    } else {
        None
    }
}

/// What a frame holds whose payload has the checksum `crc`.
pub open spec fn read_frame_with(b: Seq<u8>, crc: u32) -> Result<MessageView, FrameErrorView> {
    match header_fault(b) {
        Some(e) => Err(e),
        None => if crc != le_u32(b.skip(5)) {
            Err(FrameErrorView::CrcMismatch)
        } else {
            match read_message(b.skip(FRAME_HEADER_LEN as int)) {
                Ok(m) => Ok(m),
                Err(fault) => Err(FrameErrorView::Decode(fault)),
            }
        },
    }
}

/// What a frame holds.
pub open spec fn read_frame(b: Seq<u8>) -> Result<MessageView, FrameErrorView> {
    read_frame_with(b, crc32_of(b.skip(FRAME_HEADER_LEN as int)))
}

/// A decoded message as seen by the contracts.
pub open spec fn result_view(r: Result<WireMessage, FrameError>) -> Result<MessageView, FrameErrorView> {
    match r {
        Ok(m) => Ok(m@),
        Err(e) => Err(e@),
    }
}

/// Puts a payload that has the checksum `crc` into a frame.
pub fn frame_payload(payload: &[u8], crc: u32) -> (r: Result<Vec<u8>, FrameError>)
    ensures
        match r {
            Ok(frame) => {
                &&& payload@.len() <= MAX_PAYLOAD_LEN
                &&& frame@ == frame_with(payload@, crc)
            },
            Err(e) => payload@.len() > MAX_PAYLOAD_LEN && e == FrameError::PayloadTooLarge,
        },
{
    if payload.len() > MAX_PAYLOAD_LEN {
        return Err(FrameError::PayloadTooLarge);
    }
    let mut frame: Vec<u8> = Vec::with_capacity(FRAME_HEADER_LEN + payload.len());
    frame.push(FRAME_MAGIC_0);
    frame.push(FRAME_MAGIC_1);
    frame.push(FRAME_VERSION);
    frame.push((payload.len() % 0x100) as u8);
    frame.push((payload.len() / 0x100) as u8);
    put_u32_bytes(crc, &mut frame);
    frame.extend_from_slice(payload);
    assert(frame@ =~= frame_with(payload@, crc));
    Ok(frame)
}

/// Puts a message into a frame.
pub fn encode_frame(msg: &WireMessage) -> (r: Result<Vec<u8>, FrameError>)
    ensures
        match r {
            Ok(frame) => {
                &&& message_bytes(msg@).len() <= MAX_PAYLOAD_LEN
                &&& frame@ == frame_bytes(message_bytes(msg@))
            },
            Err(e) => {
                &&& message_bytes(msg@).len() > MAX_PAYLOAD_LEN
                &&& e == FrameError::PayloadTooLarge
            },
        },
{
    let payload = encode_message(msg);
    if payload.len() > MAX_PAYLOAD_LEN {
        return Err(FrameError::PayloadTooLarge);
    }
    let crc: u32 = checksum(payload.as_slice());
    frame_payload(payload.as_slice(), crc)
}

/// The payload of a frame, where nothing is wrong with the header.
pub fn payload_in<'a>(frame: &'a [u8]) -> (r: Result<&'a [u8], FrameError>)
    ensures
        match r {
            Ok(payload) => {
                &&& header_fault(frame@) is None
                &&& payload@ == frame@.skip(FRAME_HEADER_LEN as int)
            },
            Err(e) => header_fault(frame@) == Some(e@),
        },
{
    if frame.len() < FRAME_HEADER_LEN {
        return Err(FrameError::TooShort);
    }
    if frame[0] != FRAME_MAGIC_0 || frame[1] != FRAME_MAGIC_1 {
        return Err(FrameError::BadMagic);
    }
    let version: u8 = frame[2];
    if version != FRAME_VERSION {
        return Err(FrameError::UnsupportedVersion(version));
    }
    let payload_len: usize = frame[3] as usize + 0x100 * (frame[4] as usize);
    if payload_len > MAX_PAYLOAD_LEN {
        return Err(FrameError::PayloadTooLarge);
    }
    if frame.len() != FRAME_HEADER_LEN + payload_len {
        return Err(FrameError::LengthMismatch);
    }
    let payload = vstd::slice::slice_subrange(frame, FRAME_HEADER_LEN, frame.len());
    assert(payload@ =~= frame@.skip(FRAME_HEADER_LEN as int));
    Ok(payload)
}

/// Takes the message out of a frame whose payload has the checksum `actual`.
pub fn decode_frame_with(frame: &[u8], actual: u32) -> (r: Result<WireMessage, FrameError>)
    ensures
        result_view(r) == read_frame_with(frame@, actual),
{
    let payload = payload_in(frame)?;
    let expected: u32 = frame[5] as u32 + 0x100 * (frame[6] as u32) + 0x1_0000 * (frame[7] as u32)
        + 0x100_0000 * (frame[8] as u32);
    if actual != expected {
        return Err(FrameError::CrcMismatch);
    }
    match decode_message(payload) {
        Ok(m) => Ok(m),
        Err(fault) => Err(FrameError::Decode(fault)),
    }
}

/// A change of one byte behind the declared length leaves the header's other parts as they were,
/// and changes either the checksum or the payload.
proof fn lemma_one_byte(good: Seq<u8>, b: Seq<u8>, i: int)
    requires
        one_byte_changed(good, b, i),
        5 <= i,
        good.len() >= FRAME_HEADER_LEN,
    ensures
        magic_at(b, 0) == magic_at(good, 0),
        b[2] == good[2],
        declared_len(b) == declared_len(good),
        i < FRAME_HEADER_LEN ==> le_u32(b.skip(5)) != le_u32(good.skip(5)) && b.skip(
            FRAME_HEADER_LEN as int,
        ) == good.skip(FRAME_HEADER_LEN as int),
        i >= FRAME_HEADER_LEN ==> le_u32(b.skip(5)) == le_u32(good.skip(5)) && one_byte_changed(
            good.skip(FRAME_HEADER_LEN as int),
            b.skip(FRAME_HEADER_LEN as int),
            i - FRAME_HEADER_LEN,
        ),
{
    let x = b.skip(5);
    let y = good.skip(5);
    assert(x[0] == b[5] && x[1] == b[6] && x[2] == b[7] && x[3] == b[8]);
    assert(y[0] == good[5] && y[1] == good[6] && y[2] == good[7] && y[3] == good[8]);
    if i < FRAME_HEADER_LEN {
        assert(b.skip(FRAME_HEADER_LEN as int) =~= good.skip(FRAME_HEADER_LEN as int));
    }
}

/// Takes the message out of a frame. A good frame in which one byte of the checksum or of the
/// payload was changed is refused for its checksum.
pub fn decode_frame(frame: &[u8]) -> (r: Result<WireMessage, FrameError>)
    ensures
        result_view(r) == read_frame(frame@),
        forall|good: Seq<u8>, i: int|
            read_frame(good) is Ok && #[trigger] one_byte_changed(good, frame@, i) && i >= 5
                ==> r matches Err(FrameError::CrcMismatch),
{
    let payload = payload_in(frame)?;
    let actual: u32 = checksum(payload);
    proof {
        assert forall|good: Seq<u8>, i: int|
            read_frame(good) is Ok && #[trigger] one_byte_changed(good, frame@, i) && i
                >= 5 implies actual != le_u32(frame@.skip(5)) by {
            lemma_one_byte(good, frame@, i);
            if i >= FRAME_HEADER_LEN {
                assert(one_byte_changed(
                    good.skip(FRAME_HEADER_LEN as int),
                    payload@,
                    i - FRAME_HEADER_LEN,
                ));
            }
        }
    }
    decode_frame_with(frame, actual)
}

/// Where the marker bytes first stand at or behind `i`.
pub open spec fn first_magic(b: Seq<u8>, i: int) -> Option<int>
    decreases b.len() - i,
{
    if i + 1 >= b.len() {
        None
    } else if magic_at(b, i) {
        Some(i)
    } else {
        first_magic(b, i + 1)
    }
}

/// The buffer from the first marker on; nothing if no marker is in it. A buffer too short for a
/// header is left alone.
pub open spec fn resynced(b: Seq<u8>) -> Seq<u8> {
    if b.len() < FRAME_HEADER_LEN {
        b
    } else {
        match first_magic(b, 0) {
            Some(p) => b.skip(p),
            None => Seq::empty(),
        }
    }
}

/// What the next call on a buffer gives, and the buffer after it.
pub open spec fn next_in(b: Seq<u8>) -> (Option<Result<MessageView, FrameErrorView>>, Seq<u8>) {
    let c = resynced(b);
    if c.len() < FRAME_HEADER_LEN {
        (None, c)
    } else if declared_len(c) > MAX_PAYLOAD_LEN {
        (Some(Err(FrameErrorView::LengthMismatch)), c.skip(2))
    } else {
        let end = FRAME_HEADER_LEN + declared_len(c);
        if c.len() < end {
            (None, c)
        } else {
            (Some(read_frame(c.take(end))), c.skip(end))
        }
    }
}

/// Finds frames in bytes that arrive piece by piece.
pub struct StreamDecoder {
    buf: Vec<u8>,
}

impl View for StreamDecoder {
    type V = Seq<u8>;

    /// The bytes that have arrived and belong to no message handed out.
    closed spec fn view(&self) -> Seq<u8> {
        self.buf@
    }
}

fn find_magic(b: &Vec<u8>) -> (r: Option<usize>)
    ensures
        match r {
            Some(p) => first_magic(b@, 0) == Some(p as int) && magic_at(b@, p as int),
            None => first_magic(b@, 0) is None,
        },
{
    let end: usize = b.len();
    if end < 2 {
        return None;
    }
    let mut i: usize = 0;
    while i < end - 1
        invariant
            end == b@.len(),
            2 <= end,
            i <= end - 1,
            first_magic(b@, 0) == first_magic(b@, i as int),
        decreases end - i,
    {
        if b[i] == FRAME_MAGIC_0 && b[i + 1] == FRAME_MAGIC_1 {
            return Some(i);
        }
        i = i + 1;
    }
    None
}

/// Takes the first `n` bytes out of `b`.
fn take_front(b: &mut Vec<u8>, n: usize) -> (r: Vec<u8>)
    requires
        n <= old(b)@.len(),
    ensures
        r@ == old(b)@.take(n as int),
        final(b)@ == old(b)@.skip(n as int),
{
    let mut front = b.split_off(n);
    std::mem::swap(&mut front, b);
    assert(front@ =~= old(b)@.take(n as int));
    assert(b@ =~= old(b)@.skip(n as int));
    front
}

impl StreamDecoder {
    /// A decoder that has seen nothing.
    pub fn new() -> (r: Self)
        ensures
            r@ == Seq::<u8>::empty(),
    {
        StreamDecoder { buf: Vec::new() }
    }

    /// Takes in the bytes that arrived.
    pub fn push_bytes(&mut self, bytes: &[u8])
        ensures
            final(self)@ == old(self)@ + bytes@,
    {
        self.buf.extend_from_slice(bytes);
        assert(self.buf@ =~= old(self)@ + bytes@);
    }

    /// The next message, or the error that the next frame is; nothing while no frame is complete.
    pub fn next_message(&mut self) -> (r: Option<Result<WireMessage, FrameError>>)
        ensures
            match r {
                Some(m) => next_in(old(self)@).0 == Some(result_view(m)),
                None => next_in(old(self)@).0 is None,
            },
            final(self)@ == next_in(old(self)@).1,
    {
        if self.buf.len() < FRAME_HEADER_LEN {
            return None;
        }
        match find_magic(&self.buf) {
            Some(p) => {
                let _ = take_front(&mut self.buf, p);
            },
            None => {
                self.buf.clear();
            },
        }
        assert(self.buf@ =~= resynced(old(self)@));
        if self.buf.len() < FRAME_HEADER_LEN {
            return None;
        }
        let payload_len: usize = self.buf[3] as usize + 0x100 * (self.buf[4] as usize);
        if payload_len > MAX_PAYLOAD_LEN {
            let _ = take_front(&mut self.buf, 2);
            return Some(Err(FrameError::LengthMismatch));
        }
        let frame_len: usize = FRAME_HEADER_LEN + payload_len;
        if self.buf.len() < frame_len {
            return None;
        }
        let frame = take_front(&mut self.buf, frame_len);
        Some(decode_frame(frame.as_slice()))
    }
}

/// A message that fits into a frame and whose angle, where it has one, is not -0.0.
pub open spec fn sendable(m: MessageView) -> bool {
    &&& message_bytes(m).len() <= MAX_PAYLOAD_LEN
    &&& m.payload matches Some(PayloadView::SetServo(s)) ==> s.angle_bits != 0x8000_0000
}

proof fn lemma_frame_parts(payload: Seq<u8>)
    requires
        payload.len() <= MAX_PAYLOAD_LEN,
    ensures
        ({
            let b = frame_bytes(payload);
            &&& b.len() == FRAME_HEADER_LEN + payload.len()
            &&& magic_at(b, 0)
            &&& b[2] == FRAME_VERSION
            &&& declared_len(b) == payload.len()
            &&& le_u32(b.skip(5)) == crc32_of(payload)
            &&& b.skip(FRAME_HEADER_LEN as int) == payload
        }),
{
    let b = frame_bytes(payload);
    let crc = u32_bytes(crc32_of(payload));
    lemma_u32_bytes(crc32_of(payload));
    let tail = b.skip(5);
    assert(tail =~= crc + payload);
    assert(tail[0] == crc[0] && tail[1] == crc[1] && tail[2] == crc[2] && tail[3] == crc[3]);
    assert(b.skip(FRAME_HEADER_LEN as int) =~= payload);
}

/// Bytes that go on with `p` and then `q` behind the first `n`.
pub proof fn lemma_take_more(all: Seq<u8>, n: int, p: Seq<u8>, q: Seq<u8>)
    requires
        0 <= n <= all.len(),
        all.skip(n) == p + q,
    ensures
        n + p.len() <= all.len(),
        all.take(n) + p == all.take(n + p.len()),
        q == all.skip(n + p.len()),
{
    let rest = all.skip(n);
    assert(rest.len() == p.len() + q.len());
    assert forall|i: int| 0 <= i < p.len() implies p[i] == all[n + i] by {
        assert(rest[i] == (p + q)[i]);
    }
    assert forall|i: int| 0 <= i < q.len() implies q[i] == all[n + p.len() + i] by {
        assert(rest[p.len() + i] == (p + q)[p.len() + i]);
    }
    assert(all.take(n) + p =~= all.take(n + p.len()));
    assert(q =~= all.skip(n + p.len()));
}

/// What is put into a frame is what the frame is decoded to.
pub proof fn frame_round_trip(m: MessageView)
    requires
        sendable(m),
    ensures
        read_frame(frame_bytes(message_bytes(m))) == Ok::<MessageView, FrameErrorView>(m),
{
    lemma_frame_parts(message_bytes(m));
    message_round_trip(m);
}

/// A frame whose payload was changed to one of the same length with another checksum is
/// refused as such.
pub proof fn corruption_is_refused(payload: Seq<u8>, changed: Seq<u8>)
    requires
        payload.len() <= MAX_PAYLOAD_LEN,
        changed.len() == payload.len(),
        crc32_of(changed) != crc32_of(payload),
    ensures
        read_frame(frame_bytes(payload).take(FRAME_HEADER_LEN as int) + changed) == Err::<
            MessageView,
            FrameErrorView,
        >(FrameErrorView::CrcMismatch),
{
    lemma_frame_parts(payload);
    let b = frame_bytes(payload);
    let c = b.take(FRAME_HEADER_LEN as int) + changed;
    assert(c.skip(FRAME_HEADER_LEN as int) =~= changed);
    assert(c.skip(5)[0] == b.skip(5)[0]);
    assert(c.skip(5)[1] == b.skip(5)[1]);
    assert(c.skip(5)[2] == b.skip(5)[2]);
    assert(c.skip(5)[3] == b.skip(5)[3]);
}

/// A frame at the front of the buffer comes out next, and leaves what stands behind it.
pub proof fn leading_frame_comes_out(m: MessageView, rest: Seq<u8>)
    requires
        sendable(m),
    ensures
        next_in(frame_bytes(message_bytes(m)) + rest) == (
            Some(Ok::<MessageView, FrameErrorView>(m)),
            rest,
        ),
{
    let f = frame_bytes(message_bytes(m));
    lemma_frame_parts(message_bytes(m));
    frame_round_trip(m);
    let b = f + rest;
    assert(magic_at(b, 0));
    assert(b.skip(0) =~= b);
    assert(b.take(f.len() as int) =~= f);
    assert(b.skip(f.len() as int) =~= rest);
}

proof fn lemma_first_magic_is(b: Seq<u8>, i: int, p: int)
    requires
        0 <= i <= p,
        magic_at(b, p),
        forall|j: int| i <= j < p ==> !magic_at(b, j),
    ensures
        first_magic(b, i) == Some(p),
    decreases p - i,
{
    if i < p {
        lemma_first_magic_is(b, i + 1, p);
    }
}

/// Noise before a frame is passed over: where the marker bytes do not stand in it, the frame
/// comes out next.
pub proof fn noise_is_passed_over(noise: Seq<u8>, m: MessageView, rest: Seq<u8>)
    requires
        sendable(m),
        forall|i: int| !magic_at(noise, i),
    ensures
        next_in(noise + frame_bytes(message_bytes(m)) + rest) == (
            Some(Ok::<MessageView, FrameErrorView>(m)),
            rest,
        ),
{
    let f = frame_bytes(message_bytes(m));
    let n = noise.len() as int;
    let b = noise + f + rest;
    lemma_frame_parts(message_bytes(m));
    assert(b[n] == f[0] && b[n + 1] == f[1]);
    assert forall|j: int| 0 <= j < n implies !magic_at(b, j) by {
        assert(!magic_at(noise, j));
        assert(b[j] == noise[j]);
        if j + 1 < n {
            assert(b[j + 1] == noise[j + 1]);
        }
    }
    lemma_first_magic_is(b, 0, n);
    assert(b.skip(n) =~= f + rest);
    leading_frame_comes_out(m, rest);
    assert((f + rest).skip(0) =~= f + rest);
}

/// A damaged frame is reported, and no more than itself is lost: what stands behind it is next.
pub proof fn damaged_frame_is_dropped(payload: Seq<u8>, changed: Seq<u8>, rest: Seq<u8>)
    requires
        payload.len() <= MAX_PAYLOAD_LEN,
        changed.len() == payload.len(),
        crc32_of(changed) != crc32_of(payload),
    ensures
        next_in(frame_bytes(payload).take(FRAME_HEADER_LEN as int) + changed + rest) == (
            Some(Err::<MessageView, FrameErrorView>(FrameErrorView::CrcMismatch)),
            rest,
        ),
{
    let c = frame_bytes(payload).take(FRAME_HEADER_LEN as int) + changed;
    lemma_frame_parts(payload);
    corruption_is_refused(payload, changed);
    let b = c + rest;
    assert(magic_at(b, 0));
    assert(b.skip(0) =~= b);
    assert(b.take(c.len() as int) =~= c);
    assert(b.skip(c.len() as int) =~= rest);
}

/// While a frame is incomplete nothing comes out and nothing is lost.
pub proof fn incomplete_frame_waits(m: MessageView, n: int)
    requires
        sendable(m),
        0 <= n < frame_bytes(message_bytes(m)).len(),
    ensures
        next_in(frame_bytes(message_bytes(m)).take(n)) == (
            None::<Result<MessageView, FrameErrorView>>,
            frame_bytes(message_bytes(m)).take(n),
        ),
{
    let f = frame_bytes(message_bytes(m));
    lemma_frame_parts(message_bytes(m));
    let b = f.take(n);
    if n >= FRAME_HEADER_LEN {
        assert(magic_at(b, 0));
        assert(b.skip(0) =~= b);
    }
}

/// The frames of messages, one behind the other.
pub open spec fn frames_of(ms: Seq<MessageView>) -> Seq<u8>
    decreases ms.len(),
{
    if ms.len() == 0 {
        Seq::empty()
    } else {
        frame_bytes(message_bytes(ms[0])) + frames_of(ms.drop_first())
    }
}

/// All that comes out of a buffer until nothing more does, and the buffer after it.
pub open spec fn drained(b: Seq<u8>) -> (Seq<Result<MessageView, FrameErrorView>>, Seq<u8>)
    decreases b.len(),
{
    let (r, rest) = next_in(b);
    match r {
        None => (Seq::empty(), rest),
        Some(m) => if rest.len() >= b.len() {
            (Seq::empty(), rest)
        } else {
            let (more, left) = drained(rest);
            (seq![m] + more, left)
        },
    }
}

/// All that comes out when pieces arrive one after the other and the buffer is drained after
/// each, and the buffer after the last.
pub open spec fn received(b: Seq<u8>, pieces: Seq<Seq<u8>>) -> (
    Seq<Result<MessageView, FrameErrorView>>,
    Seq<u8>,
)
    decreases pieces.len(),
{
    if pieces.len() == 0 {
        (Seq::empty(), b)
    } else {
        let (now, rest) = drained(b + pieces[0]);
        let (later, left) = received(rest, pieces.drop_first());
        (now + later, left)
    }
}

/// The pieces put together.
pub open spec fn joined(pieces: Seq<Seq<u8>>) -> Seq<u8>
    decreases pieces.len(),
{
    if pieces.len() == 0 {
        Seq::empty()
    } else {
        pieces[0] + joined(pieces.drop_first())
    }
}

/// The messages as what the decoder hands out for them.
pub open spec fn as_received(ms: Seq<MessageView>) -> Seq<Result<MessageView, FrameErrorView>> {
    ms.map_values(|m: MessageView| Ok::<MessageView, FrameErrorView>(m))
}

/// How far into the frames of the messages behind the first `k` the first `n` bytes of all
/// frames reach.
spec fn reach(ms: Seq<MessageView>, n: int, k: int) -> int {
    n - (frames_of(ms).len() - frames_of(ms.skip(k)).len())
}

/// The first `n` bytes of the frames of messages are drained to the first `k` of them, and the
/// next frame is incomplete.
spec fn drains_to(ms: Seq<MessageView>, n: int, k: int) -> bool {
    let left = ms.skip(k);
    &&& 0 <= k <= ms.len()
    &&& 0 <= reach(ms, n, k) <= frames_of(left).len()
    &&& drained(frames_of(ms).take(n)) == (
        as_received(ms.take(k)),
        frames_of(left).take(reach(ms, n, k)),
    )
    &&& frames_of(ms).skip(n) == frames_of(left).skip(reach(ms, n, k))
    &&& k < ms.len() ==> reach(ms, n, k) < frame_bytes(message_bytes(ms[k])).len()
}

proof fn lemma_drains_to_nothing(ms: Seq<MessageView>, n: int)
    requires
        0 <= n <= frames_of(ms).len(),
        ms.len() > 0 ==> sendable(ms[0]) && n < frame_bytes(message_bytes(ms[0])).len(),
    ensures
        drains_to(ms, n, 0),
{
    let b = frames_of(ms).take(n);
    assert(ms.skip(0) =~= ms);
    assert(as_received(ms.take(0)) =~= Seq::<Result<MessageView, FrameErrorView>>::empty());
    if ms.len() > 0 {
        let f = frame_bytes(message_bytes(ms[0]));
        assert(b =~= f.take(n));
        incomplete_frame_waits(ms[0], n);
    } else {
        assert(b =~= Seq::<u8>::empty());
    }
}

proof fn lemma_drains_one_more(ms: Seq<MessageView>, n: int, j: int)
    requires
        ms.len() > 0,
        sendable(ms[0]),
        frame_bytes(message_bytes(ms[0])).len() <= n <= frames_of(ms).len(),
        drains_to(ms.drop_first(), n - frame_bytes(message_bytes(ms[0])).len(), j),
    ensures
        drains_to(ms, n, j + 1),
{
    let all = frames_of(ms);
    let f = frame_bytes(message_bytes(ms[0]));
    let tail = ms.drop_first();
    let rest = frames_of(tail).take(n - f.len());
    assert(all.take(n) =~= f + rest);
    assert(all.skip(n) =~= frames_of(tail).skip(n - f.len()));
    assert(tail.skip(j) =~= ms.skip(j + 1));
    lemma_frame_parts(message_bytes(ms[0]));
    leading_frame_comes_out(ms[0], rest);
    assert(as_received(ms.take(j + 1)) =~= seq![Ok::<MessageView, FrameErrorView>(ms[0])]
        + as_received(tail.take(j)));
}

proof fn lemma_drain_prefix(ms: Seq<MessageView>, n: int) -> (k: int)
    requires
        forall|i: int| 0 <= i < ms.len() ==> sendable(#[trigger] ms[i]),
        0 <= n <= frames_of(ms).len(),
    ensures
        drains_to(ms, n, k),
    decreases ms.len(),
{
    if ms.len() == 0 || n < frame_bytes(message_bytes(ms[0])).len() {
        lemma_drains_to_nothing(ms, n);
        0
    } else {
        let f = frame_bytes(message_bytes(ms[0]));
        let tail = ms.drop_first();
        assert forall|i: int| 0 <= i < tail.len() implies sendable(#[trigger] tail[i]) by {
            assert(tail[i] == ms[i + 1]);
        }
        let j = lemma_drain_prefix(tail, n - f.len());
        lemma_drains_one_more(ms, n, j);
        j + 1
    }
}

proof fn lemma_received_none(ms: Seq<MessageView>, n: int)
    requires
        0 <= n <= frames_of(ms).len(),
        frames_of(ms).skip(n).len() == 0,
        ms.len() > 0 ==> n < frame_bytes(message_bytes(ms[0])).len(),
    ensures
        received(frames_of(ms).take(n), Seq::empty()) == (as_received(ms), Seq::<u8>::empty()),
{
    let all = frames_of(ms);
    if ms.len() > 0 {
        assert(all.len() >= frame_bytes(message_bytes(ms[0])).len());
    }
    assert(all.take(n) =~= Seq::<u8>::empty());
    assert(as_received(ms) =~= Seq::<Result<MessageView, FrameErrorView>>::empty());
}

proof fn lemma_received_more(ms: Seq<MessageView>, n: int, pieces: Seq<Seq<u8>>, k: int)
    requires
        0 <= n <= frames_of(ms).len(),
        pieces.len() > 0,
        frames_of(ms).take(n) + pieces[0] == frames_of(ms).take(n + pieces[0].len()),
        drains_to(ms, n + pieces[0].len(), k),
        received(
            frames_of(ms.skip(k)).take(reach(ms, n + pieces[0].len(), k)),
            pieces.drop_first(),
        ) == (as_received(ms.skip(k)), Seq::<u8>::empty()),
    ensures
        received(frames_of(ms).take(n), pieces) == (as_received(ms), Seq::<u8>::empty()),
{
    assert(as_received(ms.take(k)) + as_received(ms.skip(k)) =~= as_received(ms));
}

proof fn lemma_received(ms: Seq<MessageView>, n: int, pieces: Seq<Seq<u8>>)
    requires
        forall|i: int| 0 <= i < ms.len() ==> sendable(#[trigger] ms[i]),
        0 <= n <= frames_of(ms).len(),
        joined(pieces) == frames_of(ms).skip(n),
        ms.len() > 0 ==> n < frame_bytes(message_bytes(ms[0])).len(),
    ensures
        received(frames_of(ms).take(n), pieces) == (as_received(ms), Seq::<u8>::empty()),
    decreases pieces.len(),
{
    if pieces.len() == 0 {
        assert(pieces =~= Seq::<Seq<u8>>::empty());
        lemma_received_none(ms, n);
    } else {
        let p = pieces[0];
        let more = pieces.drop_first();
        let n2 = n + p.len();
        lemma_take_more(frames_of(ms), n, p, joined(more));
        let k = lemma_drain_prefix(ms, n2);
        let left = ms.skip(k);
        assert forall|i: int| 0 <= i < left.len() implies sendable(#[trigger] left[i]) by {
            assert(left[i] == ms[k + i]);
        }
        if left.len() > 0 {
            assert(left[0] == ms[k]);
        }
        lemma_received(left, reach(ms, n2, k), more);
        lemma_received_more(ms, n, pieces, k);
    }
}

/// Frames that arrive one behind the other, cut into pieces anywhere, come out as their
/// messages, each once and in order, and nothing is left over.
pub proof fn stream_is_cut_anywhere(ms: Seq<MessageView>, pieces: Seq<Seq<u8>>)
    requires
        forall|i: int| 0 <= i < ms.len() ==> sendable(#[trigger] ms[i]),
        joined(pieces) == frames_of(ms),
    ensures
        received(Seq::empty(), pieces) == (as_received(ms), Seq::<u8>::empty()),
{
    assert(frames_of(ms).take(0) =~= Seq::<u8>::empty());
    assert(frames_of(ms).skip(0) =~= frames_of(ms));
    if ms.len() > 0 {
        lemma_frame_parts(message_bytes(ms[0]));
    }
    lemma_received(ms, 0, pieces);
}

/// Sends one message through a frame and back. It never fails.
pub fn startup_protocol_self_check() -> (r: Result<(), FrameError>)
    ensures
        r is Ok,
{
    let msg = WireMessage { msg_id: 1, payload: Some(Payload::Ping(Ping { unix_ms: 0 })) };
    proof {
        let none = Seq::<u8>::empty();
        lemma_varint_round_trip(1, none);
        lemma_varint_round_trip(0, none);
        lemma_varint_round_trip(8, none);
        lemma_varint_round_trip(50, none);
        assert(key_bytes(1, FieldKind::Varint) == varint_bytes(8));
        assert(key_bytes(6, FieldKind::Bytes) == varint_bytes(50));
        assert(payload_bytes(PayloadView::Ping(Ping { unix_ms: 0 })).len() == 0);
        assert(message_bytes(msg@).len() <= MAX_PAYLOAD_LEN);
        frame_round_trip(msg@);
    }
    let frame = encode_frame(&msg)?;
    let parsed = decode_frame(frame.as_slice())?;
    if parsed.msg_id != msg.msg_id {
        return Err(FrameError::SelfCheckFailed);
    }
    Ok(())
}

/// How a frame is laid out: the marker, the version, the length and the checksum of the payload
/// with the low bytes first, and the payload.
pub proof fn frame_is_laid_out(payload: Seq<u8>)
    requires
        payload.len() <= 4096,
    ensures
        ({
            let f = frame_bytes(payload);
            &&& f.len() == 9 + payload.len()
            &&& f[0] == 82 && f[1] == 70
            &&& f[2] == 1
            &&& f[3] + 0x100 * f[4] == payload.len()
            &&& f[5] + 0x100 * f[6] + 0x1_0000 * f[7] + 0x100_0000 * f[8] == crc32_of(payload)
            &&& f.skip(9) == payload
        }),
{
    lemma_frame_parts(payload);
    let f = frame_bytes(payload);
    lemma_u32_bytes(crc32_of(payload));
    let crc = u32_bytes(crc32_of(payload));
    assert(f[5] == crc[0] && f[6] == crc[1] && f[7] == crc[2] && f[8] == crc[3]);
}

/// Each part of a frame is looked at: another marker, another version, a payload that is shorter or
/// longer than declared, a length that no payload may have and another checksum are each refused,
/// and for that reason.
pub proof fn damaged_header_is_refused(payload: Seq<u8>, i: int, x: u8)
    requires
        0 < payload.len() <= 4096,
    ensures
        ({
            let f = frame_bytes(payload);
            &&& 0 <= i <= 1 && x != f[i] ==> read_frame(f.update(i, x)) == Err::<
                MessageView,
                FrameErrorView,
            >(FrameErrorView::BadMagic)
            &&& x != 1 ==> read_frame(f.update(2, x)) == Err::<MessageView, FrameErrorView>(
                FrameErrorView::UnsupportedVersion(x),
            )
            &&& x > 16 ==> read_frame(f.update(4, x)) == Err::<MessageView, FrameErrorView>(
                FrameErrorView::PayloadTooLarge,
            )
            &&& x != f[3] && f[4] < 16 ==> read_frame(f.update(3, x)) == Err::<
                MessageView,
                FrameErrorView,
            >(FrameErrorView::LengthMismatch)
            &&& 5 <= i < 9 && x != f[i] ==> read_frame(f.update(i, x)) == Err::<
                MessageView,
                FrameErrorView,
            >(FrameErrorView::CrcMismatch)
            &&& read_frame(f.push(x)) == Err::<MessageView, FrameErrorView>(
                FrameErrorView::LengthMismatch,
            )
            &&& 0 <= i < 9 ==> read_frame(f.take(i)) == Err::<MessageView, FrameErrorView>(
                FrameErrorView::TooShort,
            )
            &&& 9 <= i < f.len() ==> read_frame(f.take(i)) == Err::<MessageView, FrameErrorView>(
                FrameErrorView::LengthMismatch,
            )
        }),
{
    let f = frame_bytes(payload);
    lemma_frame_parts(payload);
    frame_is_laid_out(payload);
    if 5 <= i < 9 && x != f[i] {
        let g = f.update(i, x);
        assert(g.skip(9) =~= payload);
        let t = g.skip(5);
        assert(t[0] == g[5] && t[1] == g[6] && t[2] == g[7] && t[3] == g[8]);
        assert(le_u32(t) != crc32_of(payload));
    }
}

/// A marker with a length behind it that no payload may have is passed over, and what follows is
/// looked at again.
pub proof fn impossible_length_is_passed_over(b: Seq<u8>)
    requires
        b.len() >= 9,
        b[0] == 82,
        b[1] == 70,
        b[3] + 0x100 * b[4] > 4096,
    ensures
        next_in(b) == (
            Some(Err::<MessageView, FrameErrorView>(FrameErrorView::LengthMismatch)),
            b.skip(2),
        ),
{
    assert(magic_at(b, 0));
    assert(b.skip(0) =~= b);
}

/// Bytes without a marker are no part of a frame: of enough of them for a header, none is kept.
pub proof fn bytes_without_a_marker_are_dropped(b: Seq<u8>)
    requires
        forall|i: int| 0 <= i < b.len() - 1 ==> !((#[trigger] b[i]) == 82 && b[i + 1] == 70),
    ensures
        next_in(b) == (
            None::<Result<MessageView, FrameErrorView>>,
            if b.len() < 9 {
                b
            } else {
                Seq::empty()
            },
        ),
{
    lemma_no_marker(b, 0);
}

proof fn lemma_no_marker(b: Seq<u8>, i: int)
    requires
        0 <= i,
        forall|j: int| i <= j < b.len() - 1 ==> !((#[trigger] b[j]) == 82 && b[j + 1] == 70),
    ensures
        first_magic(b, i) is None,
    decreases b.len() - i,
{
    if i + 1 < b.len() {
        assert(!magic_at(b, i));
        lemma_no_marker(b, i + 1);
    }
}

/// Errors are told apart by their words, which name what an error is about: the version that was
/// found, or the fault in the message.
pub proof fn errors_are_put_into_words(v: u8, fault: FaultView)
    ensures
        error_text(FrameErrorView::TooShort) == "frame too short"@,
        error_text(FrameErrorView::BadMagic) == "invalid frame magic"@,
        error_text(FrameErrorView::UnsupportedVersion(v)) == "unsupported frame version: "@ + decimal(
            v as nat,
        ),
        error_text(FrameErrorView::LengthMismatch) == "frame length mismatch"@,
        error_text(FrameErrorView::CrcMismatch) == "frame checksum mismatch"@,
        error_text(FrameErrorView::PayloadTooLarge) == "payload exceeds maximum allowed size"@,
        error_text(FrameErrorView::Decode(fault)) == "protobuf decode error: "@ + fault.text(),
        error_text(FrameErrorView::SelfCheckFailed) == "startup protocol self-check failed"@,
{
}

} // verus!

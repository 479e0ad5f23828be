//! The desktop's side of the link: finding the robot, cutting frames into pieces and waiting for
//! answers.

use vstd::prelude::*;
use crate::codec::message_bytes;
use crate::frame::{as_received, first_magic, frame_bytes, frames_of, incomplete_frame_waits};
use crate::frame::{joined, leading_frame_comes_out, lemma_take_more, magic_at, next_in, received};
use crate::frame::sendable;
use crate::frame::{stream_is_cut_anywhere, FrameError, FrameErrorView, StreamDecoder};
use crate::frame::BLE_DEVICE_NAME;
use crate::message::{AckView, MessageView, Payload, PayloadView};
use crate::text::{chars_of, contains, decimal, decimal_text, find_chars, lower, lower_chars};
use crate::text::{part, same_chars, same_text, split_at_first, text_before_or_same, text_le};
use crate::text::text_of;
use crate::wrap::texts;

verus! {

/// How many bytes go in one write.
pub const CHUNK_LEN: usize = 180;

pub const BLE_WRITE_TIMEOUT_MS: u64 = 700;

pub const BLE_ACK_TIMEOUT_MS: u64 = 900;

pub const BLE_DISCONNECT_TIMEOUT_MS: u64 = 1200;

/// How long to wait for bytes before looking at the time again.
pub const ACK_POLL_MS: u64 = 80;

/// `b` in pieces of [`CHUNK_LEN`] bytes, the last one perhaps shorter.
pub open spec fn chunks_of(b: Seq<u8>) -> Seq<Seq<u8>>
    decreases b.len(),
{
    if b.len() == 0 {
        Seq::empty()
    } else if b.len() <= CHUNK_LEN {
        seq![b]
    } else {
        seq![b.take(CHUNK_LEN as int)] + chunks_of(b.skip(CHUNK_LEN as int))
    }
}

/// The contents of a list of byte strings.
pub open spec fn byte_lists(v: Seq<Vec<u8>>) -> Seq<Seq<u8>> {
    v.map_values(|b: Vec<u8>| b@)
}

/// Cuts a frame into pieces for writing.
pub fn frame_chunks(frame: &[u8]) -> (r: Vec<Vec<u8>>)
    ensures
        byte_lists(r@) == chunks_of(frame@),
{
    let mut r: Vec<Vec<u8>> = Vec::new();
    let mut start: usize = 0;
    let end: usize = frame.len();
    assert(frame@.skip(0) =~= frame@);
    assert(byte_lists(r@) + chunks_of(frame@) =~= chunks_of(frame@));
    while start < end
        invariant
            end == frame@.len(),
            start <= end,
            byte_lists(r@) + chunks_of(frame@.skip(start as int)) == chunks_of(frame@),
        decreases end - start,
    {
        let stop: usize = if end - start > CHUNK_LEN {
            start + CHUNK_LEN
        } else {
            end
        };
        let ghost rest = frame@.skip(start as int);
        let piece = vstd::slice::slice_to_vec(vstd::slice::slice_subrange(frame, start, stop));
        let ghost before = byte_lists(r@);
        r.push(piece);
        assert(byte_lists(r@) =~= before.push(piece@));
        assert(rest.skip(stop - start) =~= frame@.skip(stop as int));
        assert(piece@ =~= rest.take(stop - start));
        if end - start <= CHUNK_LEN {
            assert(piece@ =~= rest);
            assert(frame@.skip(stop as int) =~= Seq::<u8>::empty());
            assert(before + seq![rest] =~= byte_lists(r@) + Seq::<Seq<u8>>::empty());
        } else {
            assert(before + (seq![piece@] + chunks_of(frame@.skip(stop as int))) =~= byte_lists(r@)
                + chunks_of(frame@.skip(stop as int)));
        }
        start = stop;
    }
    assert(frame@.skip(start as int) =~= Seq::<u8>::empty());
    assert(byte_lists(r@) + Seq::<Seq<u8>>::empty() =~= byte_lists(r@));
    r
}

/// The pieces of a frame are never empty and never too long, and make up the frame.
pub proof fn chunks_make_up_the_frame(b: Seq<u8>)
    ensures
        joined(chunks_of(b)) == b,
        forall|i: int|
            0 <= i < chunks_of(b).len() ==> 0 < (#[trigger] chunks_of(b)[i]).len() <= CHUNK_LEN,
    decreases b.len(),
{
    if b.len() == 0 {
        assert(b =~= joined(chunks_of(b)));
    } else if b.len() <= CHUNK_LEN {
        assert(seq![b].drop_first() =~= Seq::<Seq<u8>>::empty());
        assert(joined(Seq::<Seq<u8>>::empty()) =~= Seq::<u8>::empty());
        assert(b + Seq::<u8>::empty() =~= b);
    } else {
        let rest = b.skip(CHUNK_LEN as int);
        chunks_make_up_the_frame(rest);
        assert(chunks_of(b).drop_first() =~= chunks_of(rest));
        assert(b.take(CHUNK_LEN as int) + rest =~= b);
        assert forall|i: int| 0 <= i < chunks_of(b).len() implies 0 < (#[trigger] chunks_of(
            b,
        )[i]).len() <= CHUNK_LEN by {
            if i > 0 {
                assert(chunks_of(b)[i] == chunks_of(rest)[i - 1]);
            }
        }
    }
}

/// A message that is put into a frame, cut into pieces and taken in piece by piece on the other
/// side comes out there as it was, and nothing is left over.
pub proof fn sent_message_arrives(m: MessageView)
    requires
        sendable(m),
    ensures
        received(Seq::empty(), chunks_of(frame_bytes(message_bytes(m)))) == (
            seq![Ok::<MessageView, FrameErrorView>(m)],
            Seq::<u8>::empty(),
        ),
{
    let f = frame_bytes(message_bytes(m));
    chunks_make_up_the_frame(f);
    let ms = seq![m];
    assert(ms.drop_first() =~= Seq::<MessageView>::empty());
    assert(frames_of(Seq::<MessageView>::empty()) =~= Seq::<u8>::empty());
    assert(frames_of(ms) =~= f);
    stream_is_cut_anywhere(ms, chunks_of(f));
    assert(as_received(ms) =~= seq![Ok::<MessageView, FrameErrorView>(m)]);
}

/// What came of looking for an answer.
pub enum AckScan {
    /// The answer has not come yet.
    Waiting,
    Acked,
    /// The robot refused; the text is its reason.
    Refused(String),
    /// A frame could not be decoded.
    BadFrame(FrameError),
}

/// What came of looking for an answer, as seen by the contracts.
#[verifier::ext_equal]
pub enum AckScanView {
    Waiting,
    Acked,
    Refused(Seq<char>),
    BadFrame(FrameErrorView),
}

impl View for AckScan {
    type V = AckScanView;

    open spec fn view(&self) -> AckScanView {
        match *self {
            AckScan::Waiting => AckScanView::Waiting,
            AckScan::Acked => AckScanView::Acked,
            AckScan::Refused(text) => AckScanView::Refused(text@),
            AckScan::BadFrame(e) => AckScanView::BadFrame(e@),
        }
    }
}

/// The answer to a message that another message is, if it is one.
pub open spec fn answer_in(m: MessageView, expected: u32) -> Option<AckView> {
    match m.payload {
        Some(PayloadView::Ack(ack)) => if ack.msg_id == expected {
            Some(ack)
        } else {
            None
        },
        _ => None,
    }
}

/// Takes messages out of a buffer until one is the answer to `expected`, one cannot be decoded,
/// or none is left; gives what came of it and the buffer after it.
pub open spec fn scan_for(b: Seq<u8>, expected: u32) -> (AckScanView, Seq<u8>)
    decreases b.len(),
{
    let (r, rest) = next_in(b);
    match r {
        None => (AckScanView::Waiting, rest),
        Some(Err(e)) => (AckScanView::BadFrame(e), rest),
        Some(Ok(m)) => match answer_in(m, expected) {
            Some(ack) => if ack.ok {
                (AckScanView::Acked, rest)
            } else {
                (AckScanView::Refused(ack.error), rest)
            },
            None => if rest.len() < b.len() {
                scan_for(rest, expected)
            } else {
                (AckScanView::Waiting, rest)
            },
        },
    }
}

proof fn lemma_next_shrinks(b: Seq<u8>)
    ensures
        next_in(b).0 is Some ==> next_in(b).1.len() < b.len(),
{
    lemma_first_magic(b, 0);
}

proof fn lemma_first_magic(b: Seq<u8>, i: int)
    requires
        0 <= i,
    ensures
        first_magic(b, i) matches Some(p) ==> i <= p < b.len(),
    decreases b.len() - i,
{
    if i + 1 < b.len() && !magic_at(b, i) {
        lemma_first_magic(b, i + 1);
    }
}

/// Looks for the answer to `expected` in what has arrived.
pub fn scan_for_ack(decoder: &mut StreamDecoder, expected: u32) -> (r: AckScan)
    ensures
        (r@, final(decoder)@) == scan_for(old(decoder)@, expected),
{
    loop
        invariant
            scan_for(old(decoder)@, expected) == scan_for(decoder@, expected),
        decreases decoder@.len(),
    {
        proof {
            lemma_next_shrinks(decoder@);
        }
        let next = decoder.next_message();
        match next {
            None => {
                return AckScan::Waiting;
            },
            Some(Err(e)) => {
                return AckScan::BadFrame(e);
            },
            Some(Ok(msg)) => {
                if let Some(Payload::Ack(ack)) = msg.payload {
                    if ack.msg_id == expected {
                        if ack.ok {
                            return AckScan::Acked;
                        }
                        return AckScan::Refused(ack.error);
                    }
                }
            },
        }
    }
}

/// What happened while waiting for bytes.
pub enum LinkEvent {
    Bytes(Vec<u8>),
    /// Nothing came for a while.
    Quiet,
    /// Nothing will come any more.
    Closed,
}

/// What happened while waiting for bytes, as seen by the contracts.
#[verifier::ext_equal]
pub enum LinkView {
    Bytes(Seq<u8>),
    Quiet,
    Closed,
}

impl View for LinkEvent {
    type V = LinkView;

    open spec fn view(&self) -> LinkView {
        match *self {
            LinkEvent::Bytes(b) => LinkView::Bytes(b@),
            LinkEvent::Quiet => LinkView::Quiet,
            LinkEvent::Closed => LinkView::Closed,
        }
    }
}

/// What the wait for an answer comes to after an event.
#[derive(Clone, Debug, PartialEq, Eq)]
pub enum WaitOutcome {
    Waiting,
    Acked,
    /// The words for why the wait is over, and the error of the frame that ended it, if one did.
    Failed { text: String, cause: Option<FrameError> },
}

/// What the wait for an answer comes to after an event, as seen by the contracts.
#[verifier::ext_equal]
pub enum WaitView {
    Waiting,
    Acked,
    Failed { text: Seq<char>, cause: Option<FrameErrorView> },
}

impl WaitView {
    /// The wait is over for a reason that is no frame's.
    pub open spec fn failed(text: Seq<char>) -> WaitView {
        WaitView::Failed { text, cause: None }
    }
}

impl View for WaitOutcome {
    type V = WaitView;

    open spec fn view(&self) -> WaitView {
        match *self {
            WaitOutcome::Waiting => WaitView::Waiting,
            WaitOutcome::Acked => WaitView::Acked,
            WaitOutcome::Failed { text, cause } => WaitView::Failed {
                text: text@,
                cause: match cause {
                    Some(e) => Some(e@),
                    None => None,
                },
            },
        }
    }
}

/// What the wait for the answer to `expected` comes to after an event, and the buffer then.
pub open spec fn wait_step(b: Seq<u8>, expected: u32, event: LinkView) -> (WaitView, Seq<u8>) {
    match event {
        LinkView::Quiet => (WaitView::Waiting, b),
        LinkView::Closed => (WaitView::failed("BLE notification stream closed"@), b),
        LinkView::Bytes(bytes) => {
            let (scan, rest) = scan_for(b + bytes, expected);
            (
                match scan {
                    AckScanView::Waiting => WaitView::Waiting,
                    AckScanView::Acked => WaitView::Acked,
                    AckScanView::Refused(reason) => WaitView::failed(
                        "firmware NACK for "@ + decimal(expected as nat) + ": "@ + reason,
                    ),
                    AckScanView::BadFrame(e) => WaitView::Failed {
                        text: "failed to decode inbound frame"@,
                        cause: Some(e),
                    },
                },
                rest,
            )
        },
    }
}

/// Takes an event of the wait for the answer to `expected`.
pub fn on_link_event(decoder: &mut StreamDecoder, expected: u32, event: LinkEvent) -> (r:
    WaitOutcome)
    ensures
        (r@, final(decoder)@) == wait_step(old(decoder)@, expected, event@),
{
    match event {
        LinkEvent::Quiet => WaitOutcome::Waiting,
        LinkEvent::Closed => WaitOutcome::Failed {
            text: "BLE notification stream closed".to_string(),
            cause: None,
        },
        LinkEvent::Bytes(bytes) => {
            decoder.push_bytes(bytes.as_slice());
            match scan_for_ack(decoder, expected) {
                AckScan::Waiting => WaitOutcome::Waiting,
                AckScan::Acked => WaitOutcome::Acked,
                AckScan::Refused(reason) => {
                    let mut text = "firmware NACK for ".to_string();
                    text.append(decimal_text(expected as u64).as_str());
                    text.append(": ");
                    text.append(reason.as_str());
                    WaitOutcome::Failed { text, cause: None }
                },
                AckScan::BadFrame(e) => WaitOutcome::Failed {
                    text: "failed to decode inbound frame".to_string(),
                    cause: Some(e),
                },
            }
        },
    }
}

/// Whether the wait goes on; if not, the words for it.
pub fn ack_overdue(expected: u32, elapsed_nanos: u64, timeout_ms: u64) -> (r: Option<String>)
    requires
        timeout_ms * 1_000_000 <= u64::MAX,
    ensures
        match r {
            Some(text) => {
                &&& elapsed_nanos >= timeout_ms * 1_000_000
                &&& text@ == "timed out waiting for ACK for msg_id "@ + decimal(expected as nat)
            },
            None => elapsed_nanos < timeout_ms * 1_000_000,
        },
{
    if elapsed_nanos < timeout_ms * 1_000_000 {
        None
    } else {
        let mut text = "timed out waiting for ACK for msg_id ".to_string();
        text.append(decimal_text(expected as u64).as_str());
        Some(text)
    }
}

/// What the wait for the answer to `expected` comes to while pieces arrive one after the other.
pub open spec fn waited(b: Seq<u8>, expected: u32, pieces: Seq<Seq<u8>>) -> WaitView
    decreases pieces.len(),
{
    if pieces.len() == 0 {
        WaitView::Waiting
    } else {
        let (outcome, rest) = wait_step(b, expected, LinkView::Bytes(pieces[0]));
        if outcome is Waiting {
            waited(rest, expected, pieces.drop_first())
        } else {
            outcome
        }
    }
}

/// What the wait comes to with an answer.
pub open spec fn answered(ack: AckView) -> WaitView {
    if ack.ok {
        WaitView::Acked
    } else {
        WaitView::failed("firmware NACK for "@ + decimal(ack.msg_id as nat) + ": "@ + ack.error)
    }
}

proof fn lemma_waited(answer: MessageView, ack: AckView, n: int, pieces: Seq<Seq<u8>>)
    requires
        sendable(answer),
        answer_in(answer, ack.msg_id) == Some(ack),
        0 <= n < frame_bytes(message_bytes(answer)).len(),
        joined(pieces) == frame_bytes(message_bytes(answer)).skip(n),
    ensures
        waited(frame_bytes(message_bytes(answer)).take(n), ack.msg_id, pieces) == answered(ack),
    decreases pieces.len(),
{
    let f = frame_bytes(message_bytes(answer));
    assert(f.skip(n).len() > 0);
    let p = pieces[0];
    let more = pieces.drop_first();
    let b = f.take(n) + p;
    let m = n + p.len();
    lemma_take_more(f, n, p, joined(more));
    if m < f.len() {
        incomplete_frame_waits(answer, m);
        lemma_waited(answer, ack, m, more);
    } else {
        assert(f.take(m) =~= f);
        assert(f + Seq::<u8>::empty() =~= f);
        leading_frame_comes_out(answer, Seq::empty());
    }
}

/// The answer to a message is recognised, cut into pieces anywhere: the wait ends with the last
/// piece of it, well or with the robot's reason.
pub proof fn answer_is_recognised(answer: MessageView, ack: AckView, pieces: Seq<Seq<u8>>)
    requires
        sendable(answer),
        answer_in(answer, ack.msg_id) == Some(ack),
        joined(pieces) == frame_bytes(message_bytes(answer)),
    ensures
        waited(Seq::empty(), ack.msg_id, pieces) == answered(ack),
{
    let f = frame_bytes(message_bytes(answer));
    assert(f.len() > 0);
    assert(f.take(0) =~= Seq::<u8>::empty());
    assert(f.skip(0) =~= f);
    lemma_waited(answer, ack, 0, pieces);
}

/// What stands behind the first `|` of a label: the name that a device goes by. A label without
/// one is the name itself.
pub open spec fn display_name(label: Seq<char>) -> Seq<char> {
    match split_at_first(label, seq!['|']) {
        Some((_, name)) => name,
        None => label,
    }
}

/// What stands before the first `|` of a label: the device's identifier. A label without one is
/// the identifier itself.
pub open spec fn label_id(label: Seq<char>) -> Seq<char> {
    match split_at_first(label, seq!['|']) {
        Some((id, _)) => id,
        None => label,
    }
}

fn bar() -> (r: Vec<char>)
    ensures
        r@ == seq!['|'],
{
    let mut r: Vec<char> = Vec::new();
    r.push('|');
    assert(r@ =~= seq!['|']);
    r
}

/// The name that a device goes by.
pub fn ble_device_display_name(label: &str) -> (r: String)
    ensures
        r@ == display_name(label@),
{
    let chars = chars_of(label);
    let end: usize = chars.len();
    let needle = bar();
    match find_chars(chars.as_slice(), needle.as_slice()) {
        Some(i) => {
            assert(i + 1 <= end);
            let name = part(chars.as_slice(), i + 1, end);
            assert(name@ =~= label@.skip(i + 1));
            text_of(name.as_slice())
        },
        None => label.to_string(),
    }
}

/// The identifier of a device.
pub fn ble_device_id(label: &str) -> (r: String)
    ensures
        r@ == label_id(label@),
{
    let chars = chars_of(label);
    match find_chars(chars.as_slice(), bar().as_slice()) {
        Some(i) => {
            let id = part(chars.as_slice(), 0, i);
            assert(id@ =~= label@.take(i as int));
            text_of(id.as_slice())
        },
        None => label.to_string(),
    }
}

/// Whether a device in reach is a robot: it offers the service, or its name says so.
pub open spec fn is_robot(has_service: bool, local_name: Option<Seq<char>>) -> bool {
    has_service || match local_name {
        Some(name) => contains(lower(name), lower(BLE_DEVICE_NAME@)),
        None => false,
    }
}

/// The label under which a device is listed.
pub open spec fn label_of(id: Seq<char>, local_name: Option<Seq<char>>) -> Seq<char> {
    id.push('|') + match local_name {
        Some(name) => name,
        None => "(unnamed)"@,
    }
}

/// A device in reach, as it makes itself known.
#[derive(Clone, Debug, PartialEq, Eq)]
pub struct SeenDevice {
    pub id: String,
    pub has_service: bool,
    pub local_name: Option<String>,
}

/// A device in reach, as seen by the contracts.
#[verifier::ext_equal]
pub struct SeenView {
    pub id: Seq<char>,
    pub has_service: bool,
    pub local_name: Option<Seq<char>>,
}

impl View for SeenDevice {
    type V = SeenView;

    open spec fn view(&self) -> SeenView {
        SeenView {
            id: self.id@,
            has_service: self.has_service,
            local_name: match self.local_name {
                Some(name) => Some(name@),
                None => None,
            },
        }
    }
}

/// Devices in reach, as seen by the contracts.
pub open spec fn seen_views(v: Seq<SeenDevice>) -> Seq<SeenView> {
    v.map_values(|d: SeenDevice| d@)
}

/// The labels of the robots among devices.
pub open spec fn labels_of(seen: Seq<SeenView>) -> Seq<Seq<char>>
    decreases seen.len(),
{
    if seen.len() == 0 {
        Seq::empty()
    } else {
        let d = seen.last();
        let before = labels_of(seen.drop_last());
        if is_robot(d.has_service, d.local_name) {
            before.push(label_of(d.id, d.local_name))
        } else {
            before
        }
    }
}

fn name_contains(name: &str, wanted: &str) -> (r: bool)
    ensures
        r == contains(lower(name@), lower(wanted@)),
{
    let name_chars = lower_chars(name);
    let wanted_chars = lower_chars(wanted);
    find_chars(name_chars.as_slice(), wanted_chars.as_slice()).is_some()
}

/// The label of a device in reach, if it is a robot.
pub fn robot_label(id: &str, has_service: bool, local_name: &Option<String>) -> (r: Option<String>)
    ensures
        ({
            let name = match local_name {
                Some(n) => Some(n@),
                None => None,
            };
            match r {
                Some(label) => is_robot(has_service, name) && label@ == label_of(id@, name),
                None => !is_robot(has_service, name),
            }
        }),
{
    let name_matches = match local_name {
        Some(name) => name_contains(name.as_str(), BLE_DEVICE_NAME),
        None => false,
    };
    if !has_service && !name_matches {
        return None;
    }
    let mut label = id.to_string();
    label.push('|');
    match local_name {
        Some(name) => {
            label.append(name.as_str());
        },
        None => {
            label.append("(unnamed)");
        },
    }
    Some(label)
}

/// Whether a device in reach is the one that was chosen: by its identifier, by its name, or by
/// being any robot where just the robots' own name was given.
pub open spec fn is_selected(
    id: Seq<char>,
    local_name: Seq<char>,
    has_service: bool,
    selected: Seq<char>,
) -> bool {
    ||| id == selected
    ||| contains(lower(local_name), lower(selected))
    ||| lower(selected) == lower(BLE_DEVICE_NAME@) && (has_service || contains(
        lower(local_name),
        lower(BLE_DEVICE_NAME@),
    ))
}

/// Whether a device in reach is the one that was chosen.
pub fn peripheral_matches(id: &str, local_name: &str, has_service: bool, selected: &str) -> (r: bool)
    ensures
        r == is_selected(id@, local_name@, has_service, selected@),
{
    if same_text(id, selected) {
        return true;
    }
    if name_contains(local_name, selected) {
        return true;
    }
    let selected_chars = lower_chars(selected);
    let own_chars = lower_chars(BLE_DEVICE_NAME);
    same_chars(selected_chars.as_slice(), own_chars.as_slice()) && (has_service || name_contains(
        local_name,
        BLE_DEVICE_NAME,
    ))
}

/// Whether a list of texts is in order.
pub open spec fn in_order(s: Seq<Seq<char>>) -> bool {
    forall|i: int, j: int| 0 <= i < j < s.len() ==> text_le(#[trigger] s[i], #[trigger] s[j])
}

proof fn lemma_le_total(a: Seq<char>, b: Seq<char>)
    ensures
        text_le(a, b) || text_le(b, a),
    decreases a.len(),
{
    if a.len() > 0 && b.len() > 0 && a[0] == b[0] {
        lemma_le_total(a.drop_first(), b.drop_first());
    }
}

proof fn lemma_le_transitive(a: Seq<char>, b: Seq<char>, c: Seq<char>)
    requires
        text_le(a, b),
        text_le(b, c),
    ensures
        text_le(a, c),
    decreases a.len(),
{
    if a.len() > 0 && b.len() > 0 && c.len() > 0 && a[0] == b[0] && b[0] == c[0] {
        lemma_le_transitive(a.drop_first(), b.drop_first(), c.drop_first());
    }
}

/// Where in the ordered list `sorted` a text belongs: behind all that do not come after it.
fn insertion_point(sorted: &Vec<String>, text: &[char]) -> (r: usize)
    requires
        in_order(texts(sorted@)),
    ensures
        r <= sorted@.len(),
        forall|i: int| 0 <= i < r ==> text_le(#[trigger] texts(sorted@)[i], text@),
        forall|i: int| r <= i < sorted@.len() ==> text_le(text@, #[trigger] texts(sorted@)[i]),
{
    let mut i: usize = 0;
    while i < sorted.len()
        invariant
            in_order(texts(sorted@)),
            i <= sorted@.len(),
            forall|j: int| 0 <= j < i ==> text_le(#[trigger] texts(sorted@)[j], text@),
        decreases sorted@.len() - i,
    {
        let here = chars_of(sorted[i].as_str());
        assert(texts(sorted@)[i as int] == here@);
        if !text_before_or_same(here.as_slice(), text) {
            proof {
                lemma_le_total(here@, text@);
                assert forall|j: int| i <= j < sorted@.len() implies text_le(
                    text@,
                    #[trigger] texts(sorted@)[j],
                ) by {
                    if j > i {
                        assert(text_le(texts(sorted@)[i as int], texts(sorted@)[j]));
                        lemma_le_transitive(text@, here@, texts(sorted@)[j]);
                    }
                }
            }
            return i;
        }
        i = i + 1;
    }
    i
}

/// Puts labels in order.
pub fn sort_labels(labels: Vec<String>) -> (r: Vec<String>)
    ensures
        in_order(texts(r@)),
        texts(r@).to_multiset() == texts(labels@).to_multiset(),
{
    let mut r: Vec<String> = Vec::new();
    let mut i: usize = 0;
    let ghost all = texts(labels@);
    assert(texts(r@) =~= all.take(0));
    while i < labels.len()
        invariant
            i <= labels@.len(),
            all == texts(labels@),
            in_order(texts(r@)),
            texts(r@).to_multiset() == all.take(i as int).to_multiset(),
        decreases labels@.len() - i,
    {
        let label = labels[i].clone();
        let chars = chars_of(label.as_str());
        let at: usize = insertion_point(&r, chars.as_slice());
        let ghost before = texts(r@);
        r.insert(at, label);
        proof {
            let after = texts(r@);
            assert(after =~= before.insert(at as int, label@));
            assert(after.remove(at as int) =~= before);
            assert(after[at as int] == label@);
            after.to_multiset_ensures();
            assert(after.contains(label@));
            assert(after.to_multiset() =~= before.to_multiset().insert(label@));
            assert(all.take(i + 1) =~= all.take(i as int).push(all[i as int]));
            all.take(i as int).to_multiset_ensures();
            assert forall|x: int, y: int| 0 <= x < y < after.len() implies text_le(
                #[trigger] after[x],
                #[trigger] after[y],
            ) by {
                if y < at {
                    assert(text_le(before[x], before[y]));
                } else if x < at && y == at {
                    assert(text_le(before[x], label@));
                } else if x < at {
                    assert(text_le(before[x], before[y - 1]));
                } else if x == at {
                    assert(text_le(label@, before[y - 1]));
                } else {
                    assert(text_le(before[x - 1], before[y - 1]));
                }
            }
        }
        i = i + 1;
    }
    assert(all.take(i as int) =~= all);
    r
}

/// The labels of the robots among devices, in order.
pub fn robot_labels(seen: &[SeenDevice]) -> (r: Vec<String>)
    ensures
        in_order(texts(r@)),
        texts(r@).to_multiset() == labels_of(seen_views(seen@)).to_multiset(),
{
    let mut labels: Vec<String> = Vec::new();
    let mut i: usize = 0;
    let ghost all = seen_views(seen@);
    assert(texts(labels@) =~= labels_of(all.take(0)));
    while i < seen.len()
        invariant
            i <= seen@.len(),
            all == seen_views(seen@),
            texts(labels@) == labels_of(all.take(i as int)),
        decreases seen@.len() - i,
    {
        let d = &seen[i];
        let ghost before = texts(labels@);
        assert(all[i as int] == d@);
        if let Some(label) = robot_label(d.id.as_str(), d.has_service, &d.local_name) {
            let ghost text = label@;
            labels.push(label);
            assert(texts(labels@) =~= before.push(text));
        }
        i = i + 1;
        assert(all.take(i as int).drop_last() =~= all.take(i - 1));
    }
    assert(all.take(i as int) =~= all);
    sort_labels(labels)
}

/// The robots that are listed, and nothing else: a label is listed as often as robots have it.
pub proof fn robots_are_listed(seen: Seq<SeenView>, listed: Seq<Seq<char>>, label: Seq<char>)
    requires
        listed.to_multiset() == labels_of(seen).to_multiset(),
    ensures
        listed.contains(label) <==> exists|i: int|
            0 <= i < seen.len() && is_robot((#[trigger] seen[i]).has_service, seen[i].local_name)
                && label == label_of(seen[i].id, seen[i].local_name),
{
    listed.to_multiset_ensures();
    labels_of(seen).to_multiset_ensures();
    assert(listed.contains(label) <==> listed.to_multiset().count(label) > 0);
    assert(labels_of(seen).contains(label) <==> labels_of(seen).to_multiset().count(label) > 0);
    lemma_labels_of(seen, label);
}

proof fn lemma_labels_of(seen: Seq<SeenView>, label: Seq<char>)
    ensures
        labels_of(seen).contains(label) <==> exists|i: int|
            0 <= i < seen.len() && is_robot((#[trigger] seen[i]).has_service, seen[i].local_name)
                && label == label_of(seen[i].id, seen[i].local_name),
    decreases seen.len(),
{
    if seen.len() > 0 {
        let front = seen.drop_last();
        let before = labels_of(front);
        let d = seen.last();
        let all = labels_of(seen);
        lemma_labels_of(front, label);
        if all.contains(label) {
            let j = choose|j: int| 0 <= j < all.len() && all[j] == label;
            if j < before.len() {
                assert(before[j] == label);
                let i = choose|i: int|
                    0 <= i < front.len() && is_robot(
                        (#[trigger] front[i]).has_service,
                        front[i].local_name,
                    ) && label == label_of(front[i].id, front[i].local_name);
                assert(seen[i] == front[i]);
            } else {
                assert(seen[seen.len() - 1] == d);
            }
        }
        if exists|i: int|
            0 <= i < seen.len() && is_robot((#[trigger] seen[i]).has_service, seen[i].local_name)
                && label == label_of(seen[i].id, seen[i].local_name) {
            let i = choose|i: int|
                0 <= i < seen.len() && is_robot(
                    (#[trigger] seen[i]).has_service,
                    seen[i].local_name,
                ) && label == label_of(seen[i].id, seen[i].local_name);
            if i < front.len() {
                assert(front[i] == seen[i]);
                let j = choose|j: int| 0 <= j < before.len() && before[j] == label;
                assert(all[j] == label);
            } else {
                assert(all.last() == label);
            }
        }
    }
}

/// Where `wanted` first stands among the identifiers of a device's characteristics.
pub open spec fn first_uuid(uuids: Seq<u128>, wanted: u128, i: int) -> Option<int>
    decreases uuids.len() - i,
{
    if i >= uuids.len() {
        None
    } else if uuids[i] == wanted {
        Some(i)
    } else {
        first_uuid(uuids, wanted, i + 1)
    }
}

/// Where `wanted` first stands among the identifiers of a device's characteristics.
pub fn find_characteristic(uuids: &[u128], wanted: u128) -> (r: Option<usize>)
    ensures
        match r {
            Some(i) => first_uuid(uuids@, wanted, 0) == Some(i as int) && i < uuids@.len(),
            None => first_uuid(uuids@, wanted, 0) is None,
        },
{
    let mut i: usize = 0;
    while i < uuids.len()
        invariant
            i <= uuids@.len(),
            first_uuid(uuids@, wanted, 0) == first_uuid(uuids@, wanted, i as int),
        decreases uuids@.len() - i,
    {
        if uuids[i] == wanted {
            return Some(i);
        }
        i = i + 1;
    }
    None
}

/// A message that is no answer to the one that waits for it does not end the wait, be it an answer
/// to another one; the answer behind it does, well where it says yes and with its reason where it
/// says no.
pub proof fn only_its_own_answer_ends_the_wait(other: MessageView, answer: MessageView, ack: AckView)
    requires
        sendable(other),
        sendable(answer),
        other.payload matches Some(PayloadView::Ack(a)) ==> a.msg_id != ack.msg_id,
        answer.payload == Some(PayloadView::Ack(ack)),
    ensures
        ({
            let first = frame_bytes(message_bytes(other));
            let second = frame_bytes(message_bytes(answer));
            let none = Seq::<u8>::empty();
            &&& wait_step(none, ack.msg_id, LinkView::Bytes(first)) == (WaitView::Waiting, none)
            &&& wait_step(none, ack.msg_id, LinkView::Bytes(first + second)).0 == if ack.ok {
                WaitView::Acked
            } else {
                WaitView::Failed {
                    text: "firmware NACK for "@ + decimal(ack.msg_id as nat) + ": "@ + ack.error,
                    cause: None,
                }
            }
            &&& wait_step(none, ack.msg_id, LinkView::Bytes(second)).0 == wait_step(
                none,
                ack.msg_id,
                LinkView::Bytes(first + second),
            ).0
        }),
{
    reveal_with_fuel(scan_for, 3);
    let first = frame_bytes(message_bytes(other));
    let second = frame_bytes(message_bytes(answer));
    let none = Seq::<u8>::empty();
    leading_frame_comes_out(other, none);
    leading_frame_comes_out(other, second);
    leading_frame_comes_out(answer, none);
    assert(first + none =~= first);
    assert(none + first =~= first);
    assert(second + none =~= second);
    assert(none + second =~= second);
    assert(none + (first + second) =~= first + second);
    lemma_next_shrinks(first);
    lemma_next_shrinks(first + second);
    assert(next_in(none) == (None::<Result<MessageView, FrameErrorView>>, none));
}

/// While nothing comes the wait goes on and nothing is lost; where nothing can come any more it is
/// over; and a frame that cannot be decoded ends it with that frame's error.
pub proof fn wait_ends_for_a_reason(b: Seq<u8>, expected: u32, bytes: Seq<u8>)
    ensures
        wait_step(b, expected, LinkView::Quiet) == (WaitView::Waiting, b),
        wait_step(b, expected, LinkView::Closed).0 == (WaitView::Failed {
            text: "BLE notification stream closed"@,
            cause: None,
        }),
        next_in(b + bytes).0 matches Some(Err(e)) ==> wait_step(
            b,
            expected,
            LinkView::Bytes(bytes),
        ).0 == (WaitView::Failed { text: "failed to decode inbound frame"@, cause: Some(e) }),
        next_in(b + bytes).0 is None ==> wait_step(b, expected, LinkView::Bytes(bytes)).0
            == WaitView::Waiting,
{
}

proof fn lemma_bar(id: Seq<char>, name: Seq<char>)
    requires
        forall|i: int| 0 <= i < id.len() ==> (#[trigger] id[i]) != '|',
    ensures
        split_at_first(id.push('|') + name, seq!['|']) == Some((id, name)),
{
    let label = id.push('|') + name;
    let needle = seq!['|'];
    let n = id.len() as int;
    assert(label.subrange(n, n + 1) =~= needle);
    assert(crate::text::occurs_at(label, needle, n));
    assert forall|j: int| 0 <= j < n implies !crate::text::occurs_at(label, needle, j) by {
        assert(label.subrange(j, j + 1)[0] == id[j]);
    }
    crate::text::lemma_first_at_unique(label, needle, n);
    assert(label.take(n) =~= id);
    assert(label.skip(n + 1) =~= name);
}

/// The label of a robot tells its identifier and its name apart again, and a device that is chosen
/// by such a label is that one, whatever it calls itself meanwhile.
pub proof fn label_tells_identifier_and_name(
    id: Seq<char>,
    name: Seq<char>,
    now_called: Seq<char>,
    has_service: bool,
)
    requires
        forall|i: int| 0 <= i < id.len() ==> (#[trigger] id[i]) != '|',
    ensures
        label_id(label_of(id, Some(name))) == id,
        display_name(label_of(id, Some(name))) == name,
        label_id(label_of(id, None)) == id,
        display_name(label_of(id, None)) == "(unnamed)"@,
        is_selected(id, now_called, has_service, label_id(label_of(id, Some(name)))),
        label_id(id) == id,
        display_name(id) == id,
{
    lemma_bar(id, name);
    lemma_bar(id, "(unnamed)"@);
    assert(!contains(id, seq!['|'])) by {
        if contains(id, seq!['|']) {
            let i = choose|i: int| crate::text::occurs_at(id, seq!['|'], i);
            assert(id.subrange(i, i + 1)[0] == '|');
            assert(id[i] == '|');
        }
    }
}

/// A device is a robot when it offers the service, whatever it is called, and when it is called
/// like one in letters of any size, whatever stands around that; a device without either is none.
pub proof fn robots_are_known_by_service_or_name(front: Seq<char>, own: Seq<char>, back: Seq<char>)
    ensures
        forall|name: Option<Seq<char>>| #[trigger] is_robot(true, name),
        !is_robot(false, None),
        lower(own) == lower("lander001"@) ==> is_robot(false, Some(front + own + back)),
        is_robot(false, Some(own)) ==> contains(lower(own), lower("lander001"@)),
{
    let name = front + own + back;
    let n = front.len() as int;
    if lower(own) == lower("lander001"@) {
        let w = lower("lander001"@);
        assert(lower(name).subrange(n, n + w.len()) =~= lower(own));
        assert(crate::text::occurs_at(lower(name), w, n));
    }
}

/// A device is chosen by its identifier, by any part of its name in letters of any size, or, where
/// just the robots' own name was given, by being a robot; and in no other way.
pub proof fn devices_are_chosen_in_three_ways(
    id: Seq<char>,
    front: Seq<char>,
    part_of_name: Seq<char>,
    back: Seq<char>,
    has_service: bool,
    selected: Seq<char>,
)
    ensures
        is_selected(id, front, has_service, id),
        lower(part_of_name) == lower(selected) ==> is_selected(
            id,
            front + part_of_name + back,
            has_service,
            selected,
        ),
        lower(selected) == lower("lander001"@) ==> is_selected(id, front, true, selected),
        id != selected && !contains(lower(front), lower(selected)) && lower(selected) != lower(
            "lander001"@,
        ) ==> !is_selected(id, front, has_service, selected),
        id != selected && !contains(lower(front), lower(selected)) && !has_service ==> !is_selected(
            id,
            front,
            has_service,
            selected,
        ),
{
    let name = front + part_of_name + back;
    let n = front.len() as int;
    if lower(part_of_name) == lower(selected) {
        let w = lower(selected);
        assert(lower(name).subrange(n, n + w.len()) =~= lower(part_of_name));
        assert(crate::text::occurs_at(lower(name), w, n));
    }
}

/// A characteristic is found at the first place where it stands, and nowhere if it stands nowhere.
pub proof fn characteristic_is_found(uuids: Seq<u128>, wanted: u128, from: int)
    requires
        0 <= from,
    ensures
        match first_uuid(uuids, wanted, from) {
            Some(i) => {
                &&& from <= i < uuids.len()
                &&& uuids[i] == wanted
                &&& forall|j: int| from <= j < i ==> uuids[j] != wanted
            },
            None => forall|j: int| from <= j < uuids.len() ==> uuids[j] != wanted,
        },
    decreases uuids.len() - from,
{
    if from < uuids.len() && uuids[from] != wanted {
        characteristic_is_found(uuids, wanted, from + 1);
    }
}

/// A frame is cut into pieces of one hundred and eighty bytes, and only the last may be shorter.
pub proof fn pieces_are_full(b: Seq<u8>)
    ensures
        forall|i: int| 0 <= i < chunks_of(b).len() - 1 ==> (#[trigger] chunks_of(b)[i]).len() == 180,
        b.len() > 0 ==> 0 < chunks_of(b).last().len() <= 180,
        180 * (chunks_of(b).len() - 1) < b.len() || b.len() == 0,
    decreases b.len(),
{
    if b.len() > CHUNK_LEN {
        let rest = b.skip(CHUNK_LEN as int);
        pieces_are_full(rest);
        assert forall|i: int| 0 <= i < chunks_of(b).len() - 1 implies (#[trigger] chunks_of(
            b,
        )[i]).len() == 180 by {
            if i > 0 {
                assert(chunks_of(b)[i] == chunks_of(rest)[i - 1]);
            }
        }
        assert(chunks_of(b).last() == chunks_of(rest).last());
    }
}

} // verus!

//! The messages as Protocol Buffers: which field stands under which number.

use vstd::prelude::*;
use vstd::utf8::{encode_utf8, encode_utf8_decode_utf8, encode_utf8_valid_utf8};
use crate::message::{Ack, AckView, IconChunk, LedAnimation, MessageView, NotificationEvent};
use crate::message::{NotificationView, Payload, PayloadView, Ping, SetServo, ShowIcon};
use crate::message::{ShowIconView, WireMessage};
use crate::wire::{at_limit, bytes_field, field_fixed32, field_number, field_text, fixed32_at};
use crate::wire::{fixed32_field, in_field, key_bytes, lemma_fixed32_at, lemma_merged_step};
use crate::wire::{lemma_number_at, lemma_run_at, merged, next_key, number_at, pass_over};
use crate::wire::{passed_over, put_bytes_field, put_fixed32_field, put_varint_field, run_at};
use crate::wire::{take_run, text_at, u32_bytes, varint_bytes, varint_field, DecodeFault};
use crate::wire::{FaultView, FieldKind};

verus! {

pub const TAG_MSG_ID: u32 = 1;

pub const TAG_SET_SERVO: u32 = 2;

pub const TAG_LED_ANIMATION: u32 = 3;

pub const TAG_SHOW_ICON: u32 = 4;

pub const TAG_NOTIFICATION: u32 = 5;

pub const TAG_PING: u32 = 6;

pub const TAG_ICON_CHUNK: u32 = 7;

pub const TAG_ACK: u32 = 8;

/// A number field; 0 is left out.
pub open spec fn opt_varint(tag: u32, v: u64) -> Seq<u8> {
    if v == 0 {
        Seq::empty()
    } else {
        varint_field(tag, v)
    }
}

/// A text field; the empty text is left out.
pub open spec fn opt_text(tag: u32, s: Seq<char>) -> Seq<u8> {
    if s.len() == 0 {
        Seq::empty()
    } else {
        bytes_field(tag, encode_utf8(s))
    }
}

/// A signed number as it goes on the wire: two's complement in 64 bits.
pub open spec fn signed_wire(v: i32) -> u64 {
    if v >= 0 {
        v as u64
    } else {
        (v + 0x1_0000_0000_0000_0000) as u64
    }
}

/// The signed number in the lowest 32 bits.
pub open spec fn signed_value(v: u64) -> i32 {
    let low = v % 0x1_0000_0000;
    if low < 0x8000_0000 {
        low as i32
    } else {
        (low - 0x1_0000_0000) as i32
    }
}

/// The unsigned number in the lowest 32 bits.
pub open spec fn unsigned_value(v: u64) -> u32 {
    (v % 0x1_0000_0000) as u32
}

/// The bits of a single-precision number that is zero, of either sign.
pub open spec fn is_zero_bits(bits: u32) -> bool {
    bits == 0 || bits == 0x8000_0000
}

pub open spec fn servo_bytes(m: SetServo) -> Seq<u8> {
    if is_zero_bits(m.angle_bits) {
        Seq::empty()
    } else {
        fixed32_field(1, m.angle_bits)
    }
}

pub open spec fn led_bytes(m: LedAnimation) -> Seq<u8> {
    opt_varint(1, m.pattern_id as u64) + opt_varint(2, m.repeats as u64)
}

pub open spec fn icon_bytes(m: ShowIconView) -> Seq<u8> {
    opt_text(1, m.icon_id)
}

pub open spec fn notification_bytes(m: NotificationView) -> Seq<u8> {
    opt_text(1, m.id) + (opt_text(2, m.source_app) + (opt_text(3, m.title) + (opt_text(4, m.body) + (
    opt_varint(5, signed_wire(m.urgency)) + (opt_varint(6, signed_wire(m.category)) + (opt_text(
        7,
        m.source_bundle_id,
    ) + (opt_text(8, m.sender_name) + (opt_text(9, m.sender_handle) + opt_text(
        10,
        m.app_icon_hint,
    )))))))))
}

pub open spec fn ping_bytes(m: Ping) -> Seq<u8> {
    opt_varint(1, m.unix_ms)
}

pub open spec fn ack_bytes(m: AckView) -> Seq<u8> {
    opt_varint(1, m.msg_id as u64) + (opt_varint(2, if m.ok { 1u64 } else { 0u64 }) + opt_text(3, m.error))
}

/// The field number of a payload.
pub open spec fn payload_tag(p: PayloadView) -> u32 {
    match p {
        PayloadView::SetServo(_) => TAG_SET_SERVO,
        PayloadView::LedAnimation(_) => TAG_LED_ANIMATION,
        PayloadView::ShowIcon(_) => TAG_SHOW_ICON,
        PayloadView::Notification(_) => TAG_NOTIFICATION,
        PayloadView::Ping(_) => TAG_PING,
        PayloadView::IconChunk => TAG_ICON_CHUNK,
        PayloadView::Ack(_) => TAG_ACK,
    }
}

/// The bytes of a payload, without its key and length.
pub open spec fn payload_bytes(p: PayloadView) -> Seq<u8> {
    match p {
        PayloadView::SetServo(m) => servo_bytes(m),
        PayloadView::LedAnimation(m) => led_bytes(m),
        PayloadView::ShowIcon(m) => icon_bytes(m),
        PayloadView::Notification(m) => notification_bytes(m),
        PayloadView::Ping(m) => ping_bytes(m),
        PayloadView::IconChunk => Seq::empty(),
        PayloadView::Ack(m) => ack_bytes(m),
    }
}

/// The bytes of a message.
pub open spec fn message_bytes(m: MessageView) -> Seq<u8> {
    opt_varint(TAG_MSG_ID, m.msg_id as u64) + match m.payload {
        Some(p) => bytes_field(payload_tag(p), payload_bytes(p)),
        None => Seq::empty(),
    }
}

fn put_opt_varint(tag: u32, v: u64, buf: &mut Vec<u8>)
    requires
        1 <= tag <= 100,
    ensures
        final(buf)@ == old(buf)@ + opt_varint(tag, v),
{
    if v != 0 {
        put_varint_field(tag, v, buf);
    } else {
        assert(old(buf)@ + Seq::<u8>::empty() =~= old(buf)@);
    }
}

fn put_opt_text(tag: u32, s: &str, buf: &mut Vec<u8>)
    requires
        1 <= tag <= 100,
    ensures
        final(buf)@ == old(buf)@ + opt_text(tag, s@),
{
    if !s.is_empty() {
        put_bytes_field(tag, s.as_bytes(), buf);
    } else {
        assert(old(buf)@ + Seq::<u8>::empty() =~= old(buf)@);
    }
}

fn signed_to_wire(v: i32) -> (r: u64)
    ensures
        r == signed_wire(v),
{
    if v >= 0 {
        v as u64
    } else {
        let below: i64 = -1 - (v as i64);
        u64::MAX - below as u64
    }
}

fn signed_from_wire(v: u64) -> (r: i32)
    ensures
        r == signed_value(v),
{
    let low: u64 = v % 0x1_0000_0000;
    if low < 0x8000_0000 {
        low as i32
    } else {
        (low as i64 - 0x1_0000_0000i64) as i32
    }
}

proof fn lemma_concat(a: Seq<u8>, b: Seq<u8>, c: Seq<u8>)
    ensures
        (a + b) + c == a + (b + c),
{
    assert((a + b) + c =~= a + (b + c));
}

fn encode_notification(m: &NotificationEvent) -> (buf: Vec<u8>)
    ensures
        buf@ == notification_bytes(m@),
{
    let mut buf: Vec<u8> = Vec::new();
    // What is still to come behind each field.
    let ghost t9 = opt_text(10, m@.app_icon_hint);
    let ghost t8 = opt_text(9, m@.sender_handle) + t9;
    let ghost t7 = opt_text(8, m@.sender_name) + t8;
    let ghost t6 = opt_text(7, m@.source_bundle_id) + t7;
    let ghost t5 = opt_varint(6, signed_wire(m@.category)) + t6;
    let ghost t4 = opt_varint(5, signed_wire(m@.urgency)) + t5;
    let ghost t3 = opt_text(4, m@.body) + t4;
    let ghost t2 = opt_text(3, m@.title) + t3;
    let ghost t1 = opt_text(2, m@.source_app) + t2;
    put_opt_text(1, m.id.as_str(), &mut buf);
    assert(buf@ =~= opt_text(1, m@.id));
    proof {
        lemma_concat(buf@, opt_text(2, m@.source_app), t2);
    }
    put_opt_text(2, m.source_app.as_str(), &mut buf);
    proof {
        lemma_concat(buf@, opt_text(3, m@.title), t3);
    }
    put_opt_text(3, m.title.as_str(), &mut buf);
    proof {
        lemma_concat(buf@, opt_text(4, m@.body), t4);
    }
    put_opt_text(4, m.body.as_str(), &mut buf);
    proof {
        lemma_concat(buf@, opt_varint(5, signed_wire(m@.urgency)), t5);
    }
    put_opt_varint(5, signed_to_wire(m.urgency), &mut buf);
    proof {
        lemma_concat(buf@, opt_varint(6, signed_wire(m@.category)), t6);
    }
    put_opt_varint(6, signed_to_wire(m.category), &mut buf);
    proof {
        lemma_concat(buf@, opt_text(7, m@.source_bundle_id), t7);
    }
    put_opt_text(7, m.source_bundle_id.as_str(), &mut buf);
    proof {
        lemma_concat(buf@, opt_text(8, m@.sender_name), t8);
    }
    put_opt_text(8, m.sender_name.as_str(), &mut buf);
    proof {
        lemma_concat(buf@, opt_text(9, m@.sender_handle), t9);
    }
    put_opt_text(9, m.sender_handle.as_str(), &mut buf);
    put_opt_text(10, m.app_icon_hint.as_str(), &mut buf);
    buf
}

fn encode_payload(p: &Payload) -> (r: (u32, Vec<u8>))
    ensures
        r.0 == payload_tag(p@),
        r.1@ == payload_bytes(p@),
        2 <= r.0 <= 8,
{
    let mut buf: Vec<u8> = Vec::new();
    match p {
        Payload::SetServo(m) => {
            if m.angle_bits != 0 && m.angle_bits != 0x8000_0000 {
                put_fixed32_field(1, m.angle_bits, &mut buf);
            }
            assert(buf@ =~= servo_bytes(*m));
            (TAG_SET_SERVO, buf)
        },
        Payload::LedAnimation(m) => {
            put_opt_varint(1, m.pattern_id as u64, &mut buf);
            put_opt_varint(2, m.repeats as u64, &mut buf);
            assert(buf@ =~= led_bytes(*m));
            (TAG_LED_ANIMATION, buf)
        },
        Payload::ShowIcon(m) => {
            put_opt_text(1, m.icon_id.as_str(), &mut buf);
            assert(buf@ =~= icon_bytes(m@));
            (TAG_SHOW_ICON, buf)
        },
        Payload::Notification(m) => (TAG_NOTIFICATION, encode_notification(m)),
        Payload::Ping(m) => {
            put_opt_varint(1, m.unix_ms, &mut buf);
            assert(buf@ =~= ping_bytes(*m));
            (TAG_PING, buf)
        },
        Payload::IconChunk(_) => (TAG_ICON_CHUNK, buf),
        Payload::Ack(m) => {
            put_opt_varint(1, m.msg_id as u64, &mut buf);
            put_opt_varint(2, if m.ok { 1 } else { 0 }, &mut buf);
            put_opt_text(3, m.error.as_str(), &mut buf);
            assert(buf@ =~= ack_bytes(m@));
            (TAG_ACK, buf)
        },
    }
}

/// Writes a message down.
pub fn encode_message(m: &WireMessage) -> (buf: Vec<u8>)
    ensures
        buf@ == message_bytes(m@),
{
    let mut buf: Vec<u8> = Vec::new();
    put_opt_varint(TAG_MSG_ID, m.msg_id as u64, &mut buf);
    if let Some(p) = &m.payload {
        let (tag, data) = encode_payload(p);
        put_bytes_field(tag, data.as_slice(), &mut buf);
    }
    assert(buf@ =~= message_bytes(m@));
    buf
}

/// What a field makes of a [`SetServo`].
pub open spec fn servo_merge(m: SetServo, tag: u32, kind: FieldKind, body: Seq<u8>) -> Result<
    (SetServo, Seq<u8>),
    FaultView,
> {
    if tag == 1 {
        match in_field(fixed32_at(kind, body), "SetServo"@, "angle_deg"@) {
            Ok((v, rest)) => Ok((SetServo { angle_bits: v }, rest)),
            Err(e) => Err(e),
        }
    } else {
        passed_over(m, tag, kind, body, true)
    }
}

/// What a field makes of a [`LedAnimation`].
pub open spec fn led_merge(m: LedAnimation, tag: u32, kind: FieldKind, body: Seq<u8>) -> Result<
    (LedAnimation, Seq<u8>),
    FaultView,
> {
    if tag == 1 {
        match in_field(number_at(kind, body), "LedAnimation"@, "pattern_id"@) {
            Ok((v, rest)) => Ok((LedAnimation { pattern_id: unsigned_value(v), ..m }, rest)),
            Err(e) => Err(e),
        }
    } else if tag == 2 {
        match in_field(number_at(kind, body), "LedAnimation"@, "repeats"@) {
            Ok((v, rest)) => Ok((LedAnimation { repeats: unsigned_value(v), ..m }, rest)),
            Err(e) => Err(e),
        }
    } else {
        passed_over(m, tag, kind, body, true)
    }
}

/// What a field makes of a [`ShowIcon`].
pub open spec fn icon_merge(m: ShowIconView, tag: u32, kind: FieldKind, body: Seq<u8>) -> Result<
    (ShowIconView, Seq<u8>),
    FaultView,
> {
    if tag == 1 {
        match in_field(text_at(kind, body), "ShowIcon"@, "icon_id"@) {
            Ok((v, rest)) => Ok((ShowIconView { icon_id: v }, rest)),
            Err(e) => Err(e),
        }
    } else {
        passed_over(m, tag, kind, body, true)
    }
}

/// What a field makes of a [`NotificationEvent`].
pub open spec fn notification_merge(m: NotificationView, tag: u32, kind: FieldKind, body: Seq<u8>) -> Result<
    (NotificationView, Seq<u8>),
    FaultView,
> {
    if tag == 1 {
        match in_field(text_at(kind, body), "NotificationEvent"@, "id"@) {
            Ok((v, rest)) => Ok((NotificationView { id: v, ..m }, rest)),
            Err(e) => Err(e),
        }
    } else if tag == 2 {
        match in_field(text_at(kind, body), "NotificationEvent"@, "source_app"@) {
            Ok((v, rest)) => Ok((NotificationView { source_app: v, ..m }, rest)),
            Err(e) => Err(e),
        }
    } else if tag == 3 {
        match in_field(text_at(kind, body), "NotificationEvent"@, "title"@) {
            Ok((v, rest)) => Ok((NotificationView { title: v, ..m }, rest)),
            Err(e) => Err(e),
        }
    } else if tag == 4 {
        match in_field(text_at(kind, body), "NotificationEvent"@, "body"@) {
            Ok((v, rest)) => Ok((NotificationView { body: v, ..m }, rest)),
            Err(e) => Err(e),
        }
    } else if tag == 5 {
        match in_field(number_at(kind, body), "NotificationEvent"@, "urgency"@) {
            Ok((v, rest)) => Ok((NotificationView { urgency: signed_value(v), ..m }, rest)),
            Err(e) => Err(e),
        }
    } else if tag == 6 {
        match in_field(number_at(kind, body), "NotificationEvent"@, "category"@) {
            Ok((v, rest)) => Ok((NotificationView { category: signed_value(v), ..m }, rest)),
            Err(e) => Err(e),
        }
    } else if tag == 7 {
        match in_field(text_at(kind, body), "NotificationEvent"@, "source_bundle_id"@) {
            Ok((v, rest)) => Ok((NotificationView { source_bundle_id: v, ..m }, rest)),
            Err(e) => Err(e),
        }
    } else if tag == 8 {
        match in_field(text_at(kind, body), "NotificationEvent"@, "sender_name"@) {
            Ok((v, rest)) => Ok((NotificationView { sender_name: v, ..m }, rest)),
            Err(e) => Err(e),
        }
    } else if tag == 9 {
        match in_field(text_at(kind, body), "NotificationEvent"@, "sender_handle"@) {
            Ok((v, rest)) => Ok((NotificationView { sender_handle: v, ..m }, rest)),
            Err(e) => Err(e),
        }
    } else if tag == 10 {
        match in_field(text_at(kind, body), "NotificationEvent"@, "app_icon_hint"@) {
            Ok((v, rest)) => Ok((NotificationView { app_icon_hint: v, ..m }, rest)),
            Err(e) => Err(e),
        }
    } else {
        passed_over(m, tag, kind, body, true)
    }
}

/// What a field makes of a [`Ping`].
pub open spec fn ping_merge(m: Ping, tag: u32, kind: FieldKind, body: Seq<u8>) -> Result<
    (Ping, Seq<u8>),
    FaultView,
> {
    if tag == 1 {
        match in_field(number_at(kind, body), "Ping"@, "unix_ms"@) {
            Ok((v, rest)) => Ok((Ping { unix_ms: v }, rest)),
            Err(e) => Err(e),
        }
    } else {
        passed_over(m, tag, kind, body, true)
    }
}

/// What a field makes of an [`Ack`].
pub open spec fn ack_merge(m: AckView, tag: u32, kind: FieldKind, body: Seq<u8>) -> Result<
    (AckView, Seq<u8>),
    FaultView,
> {
    if tag == 1 {
        match in_field(number_at(kind, body), "Ack"@, "msg_id"@) {
            Ok((v, rest)) => Ok((AckView { msg_id: unsigned_value(v), ..m }, rest)),
            Err(e) => Err(e),
        }
    } else if tag == 2 {
        match in_field(number_at(kind, body), "Ack"@, "ok"@) {
            Ok((v, rest)) => Ok((AckView { ok: v != 0, ..m }, rest)),
            Err(e) => Err(e),
        }
    } else if tag == 3 {
        match in_field(text_at(kind, body), "Ack"@, "error"@) {
            Ok((v, rest)) => Ok((AckView { error: v, ..m }, rest)),
            Err(e) => Err(e),
        }
    } else {
        passed_over(m, tag, kind, body, true)
    }
}

/// What a field makes of an [`IconChunk`]: it has no known fields, and every field is passed over.
pub open spec fn chunk_merge(m: (), tag: u32, kind: FieldKind, body: Seq<u8>) -> Result<
    ((), Seq<u8>),
    FaultView,
> {
    passed_over(m, tag, kind, body, true)
}

pub open spec fn servo_merges() -> spec_fn(SetServo, u32, FieldKind, Seq<u8>) -> Result<
    (SetServo, Seq<u8>),
    FaultView,
> {
    |m: SetServo, tag: u32, kind: FieldKind, body: Seq<u8>| servo_merge(m, tag, kind, body)
}

pub open spec fn led_merges() -> spec_fn(LedAnimation, u32, FieldKind, Seq<u8>) -> Result<
    (LedAnimation, Seq<u8>),
    FaultView,
> {
    |m: LedAnimation, tag: u32, kind: FieldKind, body: Seq<u8>| led_merge(m, tag, kind, body)
}

pub open spec fn icon_merges() -> spec_fn(ShowIconView, u32, FieldKind, Seq<u8>) -> Result<
    (ShowIconView, Seq<u8>),
    FaultView,
> {
    |m: ShowIconView, tag: u32, kind: FieldKind, body: Seq<u8>| icon_merge(m, tag, kind, body)
}

pub open spec fn notification_merges() -> spec_fn(NotificationView, u32, FieldKind, Seq<u8>) -> Result<
    (NotificationView, Seq<u8>),
    FaultView,
> {
    |m: NotificationView, tag: u32, kind: FieldKind, body: Seq<u8>| notification_merge(m, tag, kind, body)
}

pub open spec fn ping_merges() -> spec_fn(Ping, u32, FieldKind, Seq<u8>) -> Result<
    (Ping, Seq<u8>),
    FaultView,
> {
    |m: Ping, tag: u32, kind: FieldKind, body: Seq<u8>| ping_merge(m, tag, kind, body)
}

pub open spec fn ack_merges() -> spec_fn(AckView, u32, FieldKind, Seq<u8>) -> Result<
    (AckView, Seq<u8>),
    FaultView,
> {
    |m: AckView, tag: u32, kind: FieldKind, body: Seq<u8>| ack_merge(m, tag, kind, body)
}

pub open spec fn chunk_merges() -> spec_fn((), u32, FieldKind, Seq<u8>) -> Result<
    ((), Seq<u8>),
    FaultView,
> {
    |m: (), tag: u32, kind: FieldKind, body: Seq<u8>| chunk_merge(m, tag, kind, body)
}

pub open spec fn empty_notification() -> NotificationView {
    NotificationView {
        id: Seq::empty(),
        source_app: Seq::empty(),
        title: Seq::empty(),
        body: Seq::empty(),
        urgency: 0,
        category: 0,
        source_bundle_id: Seq::empty(),
        sender_name: Seq::empty(),
        sender_handle: Seq::empty(),
        app_icon_hint: Seq::empty(),
    }
}

pub open spec fn empty_ack() -> AckView {
    AckView { msg_id: 0, ok: false, error: Seq::empty() }
}

/// The payload that the fields at the front of `data` make, as far as `limit` bytes before its
/// end, and these bytes. The payload field has the number `tag`, and `old` is what was read
/// before: a second field of the same number adds to the first, another replaces it.
pub open spec fn payload_fields(
    old: Option<PayloadView>,
    tag: u32,
    data: Seq<u8>,
    limit: nat,
) -> Result<(PayloadView, Seq<u8>), FaultView> {
    if tag == TAG_SET_SERVO {
        let start = match old {
            Some(PayloadView::SetServo(m)) => m,
            _ => SetServo { angle_bits: 0 },
        };
        match merged(data, limit, start, servo_merges()) {
            Ok((m, rest)) => Ok((PayloadView::SetServo(m), rest)),
            Err(e) => Err(e),
        }
    } else if tag == TAG_LED_ANIMATION {
        let start = match old {
            Some(PayloadView::LedAnimation(m)) => m,
            _ => LedAnimation { pattern_id: 0, repeats: 0 },
        };
        match merged(data, limit, start, led_merges()) {
            Ok((m, rest)) => Ok((PayloadView::LedAnimation(m), rest)),
            Err(e) => Err(e),
        }
    } else if tag == TAG_SHOW_ICON {
        let start = match old {
            Some(PayloadView::ShowIcon(m)) => m,
            _ => ShowIconView { icon_id: Seq::empty() },
        };
        match merged(data, limit, start, icon_merges()) {
            Ok((m, rest)) => Ok((PayloadView::ShowIcon(m), rest)),
            Err(e) => Err(e),
        }
    } else if tag == TAG_NOTIFICATION {
        let start = match old {
            Some(PayloadView::Notification(m)) => m,
            _ => empty_notification(),
        };
        match merged(data, limit, start, notification_merges()) {
            Ok((m, rest)) => Ok((PayloadView::Notification(m), rest)),
            Err(e) => Err(e),
        }
    } else if tag == TAG_PING {
        let start = match old {
            Some(PayloadView::Ping(m)) => m,
            _ => Ping { unix_ms: 0 },
        };
        match merged(data, limit, start, ping_merges()) {
            Ok((m, rest)) => Ok((PayloadView::Ping(m), rest)),
            Err(e) => Err(e),
        }
    } else if tag == TAG_ICON_CHUNK {
        match merged(data, limit, (), chunk_merges()) {
            Ok((_, rest)) => Ok((PayloadView::IconChunk, rest)),
            Err(e) => Err(e),
        }
    } else {
        let start = match old {
            Some(PayloadView::Ack(m)) => m,
            _ => empty_ack(),
        };
        match merged(data, limit, start, ack_merges()) {
            Ok((m, rest)) => Ok((PayloadView::Ack(m), rest)),
            Err(e) => Err(e),
        }
    }
}

/// The payload that the payload field `tag` makes, and what stands behind it.
pub open spec fn payload_merge(
    old: Option<PayloadView>,
    tag: u32,
    kind: FieldKind,
    body: Seq<u8>,
) -> Result<(PayloadView, Seq<u8>), FaultView> {
    match run_at(kind, body) {
        Ok((len, data)) => payload_fields(old, tag, data, (data.len() - len) as nat),
        Err(e) => Err(FaultView::of(e)),
    }
}

/// What a field makes of a message.
pub open spec fn message_merge(m: MessageView, tag: u32, kind: FieldKind, body: Seq<u8>) -> Result<
    (MessageView, Seq<u8>),
    FaultView,
> {
    if tag == TAG_MSG_ID {
        match in_field(number_at(kind, body), "WireMessage"@, "msg_id"@) {
            Ok((v, rest)) => Ok((MessageView { msg_id: unsigned_value(v), ..m }, rest)),
            Err(e) => Err(e),
        }
    } else if TAG_SET_SERVO <= tag <= TAG_ACK {
        match payload_merge(m.payload, tag, kind, body) {
            Ok((p, rest)) => Ok((MessageView { payload: Some(p), ..m }, rest)),
            Err(e) => Err(e.within("WireMessage"@, "payload"@)),
        }
    } else {
        passed_over(m, tag, kind, body, false)
    }
}

pub open spec fn message_merges() -> spec_fn(MessageView, u32, FieldKind, Seq<u8>) -> Result<
    (MessageView, Seq<u8>),
    FaultView,
> {
    |m: MessageView, tag: u32, kind: FieldKind, body: Seq<u8>| message_merge(m, tag, kind, body)
}

/// The message that `bytes` hold.
pub open spec fn read_message(bytes: Seq<u8>) -> Result<MessageView, FaultView> {
    match merged(bytes, 0, MessageView { msg_id: 0, payload: None }, message_merges()) {
        Ok((m, _)) => Ok(m),
        Err(e) => Err(e),
    }
}

fn low32(v: u64) -> (r: u32)
    ensures
        r == unsigned_value(v),
{
    (v % 0x1_0000_0000) as u32
}

fn decode_servo<'a>(data: &'a [u8], limit: usize, start: SetServo) -> (r: Result<
    (SetServo, &'a [u8]),
    DecodeFault,
>)
    ensures
        match r {
            Ok((m, rest)) => {
                &&& merged(data@, limit as nat, start, servo_merges()) == Ok::<
                    (SetServo, Seq<u8>),
                    FaultView,
                >((m, rest@))
                &&& rest@.len() <= data@.len()
            },
            Err(e) => merged(data@, limit as nat, start, servo_merges()) == Err::<
                (SetServo, Seq<u8>),
                FaultView,
            >(e@),
        },
{
    let mut m = start;
    let mut rest = data;
    while rest.len() > limit
        invariant
            merged(data@, limit as nat, start, servo_merges()) == merged(
                rest@,
                limit as nat,
                m,
                servo_merges(),
            ),
            rest@.len() <= data@.len(),
        decreases rest@.len(),
    {
        let (tag, kind, body) = next_key(rest)?;
        if tag == 1 {
            let (v, next) = field_fixed32(kind, body, "SetServo", "angle_deg")?;
            m.angle_bits = v;
            rest = next;
        } else {
            rest = pass_over(tag, kind, body, true)?;
        }
    }
    at_limit(rest, limit)?;
    Ok((m, rest))
}

fn decode_led<'a>(data: &'a [u8], limit: usize, start: LedAnimation) -> (r: Result<
    (LedAnimation, &'a [u8]),
    DecodeFault,
>)
    ensures
        match r {
            Ok((m, rest)) => {
                &&& merged(data@, limit as nat, start, led_merges()) == Ok::<
                    (LedAnimation, Seq<u8>),
                    FaultView,
                >((m, rest@))
                &&& rest@.len() <= data@.len()
            },
            Err(e) => merged(data@, limit as nat, start, led_merges()) == Err::<
                (LedAnimation, Seq<u8>),
                FaultView,
            >(e@),
        },
{
    let mut m = start;
    let mut rest = data;
    while rest.len() > limit
        invariant
            merged(data@, limit as nat, start, led_merges()) == merged(
                rest@,
                limit as nat,
                m,
                led_merges(),
            ),
            rest@.len() <= data@.len(),
        decreases rest@.len(),
    {
        let (tag, kind, body) = next_key(rest)?;
        if tag == 1 {
            let (v, next) = field_number(kind, body, "LedAnimation", "pattern_id")?;
            m.pattern_id = low32(v);
            rest = next;
        } else if tag == 2 {
            let (v, next) = field_number(kind, body, "LedAnimation", "repeats")?;
            m.repeats = low32(v);
            rest = next;
        } else {
            rest = pass_over(tag, kind, body, true)?;
        }
    }
    at_limit(rest, limit)?;
    Ok((m, rest))
}

fn decode_icon<'a>(data: &'a [u8], limit: usize, start: ShowIcon) -> (r: Result<
    (ShowIcon, &'a [u8]),
    DecodeFault,
>)
    ensures
        match r {
            Ok((m, rest)) => {
                &&& merged(data@, limit as nat, start@, icon_merges()) == Ok::<
                    (ShowIconView, Seq<u8>),
                    FaultView,
                >((m@, rest@))
                &&& rest@.len() <= data@.len()
            },
            Err(e) => merged(data@, limit as nat, start@, icon_merges()) == Err::<
                (ShowIconView, Seq<u8>),
                FaultView,
            >(e@),
        },
{
    let mut m = start;
    let mut rest = data;
    while rest.len() > limit
        invariant
            merged(data@, limit as nat, start@, icon_merges()) == merged(
                rest@,
                limit as nat,
                m@,
                icon_merges(),
            ),
            rest@.len() <= data@.len(),
        decreases rest@.len(),
    {
        let (tag, kind, body) = next_key(rest)?;
        if tag == 1 {
            let (v, next) = field_text(kind, body, "ShowIcon", "icon_id")?;
            m.icon_id = v;
            rest = next;
        } else {
            rest = pass_over(tag, kind, body, true)?;
        }
    }
    at_limit(rest, limit)?;
    Ok((m, rest))
}

fn decode_notification<'a>(data: &'a [u8], limit: usize, start: NotificationEvent) -> (r: Result<
    (NotificationEvent, &'a [u8]),
    DecodeFault,
>)
    ensures
        match r {
            Ok((m, rest)) => {
                &&& merged(data@, limit as nat, start@, notification_merges()) == Ok::<
                    (NotificationView, Seq<u8>),
                    FaultView,
                >((m@, rest@))
                &&& rest@.len() <= data@.len()
            },
            Err(e) => merged(data@, limit as nat, start@, notification_merges()) == Err::<
                (NotificationView, Seq<u8>),
                FaultView,
            >(e@),
        },
{
    let mut m = start;
    let mut rest = data;
    while rest.len() > limit
        invariant
            merged(data@, limit as nat, start@, notification_merges()) == merged(
                rest@,
                limit as nat,
                m@,
                notification_merges(),
            ),
            rest@.len() <= data@.len(),
        decreases rest@.len(),
    {
        let (tag, kind, body) = next_key(rest)?;
        if tag == 1 {
            let (v, next) = field_text(kind, body, "NotificationEvent", "id")?;
            m.id = v;
            rest = next;
        } else if tag == 2 {
            let (v, next) = field_text(kind, body, "NotificationEvent", "source_app")?;
            m.source_app = v;
            rest = next;
        } else if tag == 3 {
            let (v, next) = field_text(kind, body, "NotificationEvent", "title")?;
            m.title = v;
            rest = next;
        } else if tag == 4 {
            let (v, next) = field_text(kind, body, "NotificationEvent", "body")?;
            m.body = v;
            rest = next;
        } else if tag == 5 {
            let (v, next) = field_number(kind, body, "NotificationEvent", "urgency")?;
            m.urgency = signed_from_wire(v);
            rest = next;
        } else if tag == 6 {
            let (v, next) = field_number(kind, body, "NotificationEvent", "category")?;
            m.category = signed_from_wire(v);
            rest = next;
        } else if tag == 7 {
            let (v, next) = field_text(kind, body, "NotificationEvent", "source_bundle_id")?;
            m.source_bundle_id = v;
            rest = next;
        } else if tag == 8 {
            let (v, next) = field_text(kind, body, "NotificationEvent", "sender_name")?;
            m.sender_name = v;
            rest = next;
        } else if tag == 9 {
            let (v, next) = field_text(kind, body, "NotificationEvent", "sender_handle")?;
            m.sender_handle = v;
            rest = next;
        } else if tag == 10 {
            let (v, next) = field_text(kind, body, "NotificationEvent", "app_icon_hint")?;
            m.app_icon_hint = v;
            rest = next;
        } else {
            rest = pass_over(tag, kind, body, true)?;
        }
    }
    at_limit(rest, limit)?;
    Ok((m, rest))
}

fn decode_ping<'a>(data: &'a [u8], limit: usize, start: Ping) -> (r: Result<
    (Ping, &'a [u8]),
    DecodeFault,
>)
    ensures
        match r {
            Ok((m, rest)) => {
                &&& merged(data@, limit as nat, start, ping_merges()) == Ok::<
                    (Ping, Seq<u8>),
                    FaultView,
                >((m, rest@))
                &&& rest@.len() <= data@.len()
            },
            Err(e) => merged(data@, limit as nat, start, ping_merges()) == Err::<
                (Ping, Seq<u8>),
                FaultView,
            >(e@),
        },
{
    let mut m = start;
    let mut rest = data;
    while rest.len() > limit
        invariant
            merged(data@, limit as nat, start, ping_merges()) == merged(
                rest@,
                limit as nat,
                m,
                ping_merges(),
            ),
            rest@.len() <= data@.len(),
        decreases rest@.len(),
    {
        let (tag, kind, body) = next_key(rest)?;
        if tag == 1 {
            let (v, next) = field_number(kind, body, "Ping", "unix_ms")?;
            m.unix_ms = v;
            rest = next;
        } else {
            rest = pass_over(tag, kind, body, true)?;
        }
    }
    at_limit(rest, limit)?;
    Ok((m, rest))
}

fn decode_ack<'a>(data: &'a [u8], limit: usize, start: Ack) -> (r: Result<
    (Ack, &'a [u8]),
    DecodeFault,
>)
    ensures
        match r {
            Ok((m, rest)) => {
                &&& merged(data@, limit as nat, start@, ack_merges()) == Ok::<
                    (AckView, Seq<u8>),
                    FaultView,
                >((m@, rest@))
                &&& rest@.len() <= data@.len()
            },
            Err(e) => merged(data@, limit as nat, start@, ack_merges()) == Err::<
                (AckView, Seq<u8>),
                FaultView,
            >(e@),
        },
{
    let mut m = start;
    let mut rest = data;
    while rest.len() > limit
        invariant
            merged(data@, limit as nat, start@, ack_merges()) == merged(
                rest@,
                limit as nat,
                m@,
                ack_merges(),
            ),
            rest@.len() <= data@.len(),
        decreases rest@.len(),
    {
        let (tag, kind, body) = next_key(rest)?;
        if tag == 1 {
            let (v, next) = field_number(kind, body, "Ack", "msg_id")?;
            m.msg_id = low32(v);
            rest = next;
        } else if tag == 2 {
            let (v, next) = field_number(kind, body, "Ack", "ok")?;
            m.ok = v != 0;
            rest = next;
        } else if tag == 3 {
            let (v, next) = field_text(kind, body, "Ack", "error")?;
            m.error = v;
            rest = next;
        } else {
            rest = pass_over(tag, kind, body, true)?;
        }
    }
    at_limit(rest, limit)?;
    Ok((m, rest))
}

fn check_chunk<'a>(data: &'a [u8], limit: usize) -> (r: Result<&'a [u8], DecodeFault>)
    ensures
        match r {
            Ok(rest) => {
                &&& merged(data@, limit as nat, (), chunk_merges()) == Ok::<
                    ((), Seq<u8>),
                    FaultView,
                >(((), rest@))
                &&& rest@.len() <= data@.len()
            },
            Err(e) => merged(data@, limit as nat, (), chunk_merges()) == Err::<
                ((), Seq<u8>),
                FaultView,
            >(e@),
        },
{
    let mut rest = data;
    while rest.len() > limit
        invariant
            merged(data@, limit as nat, (), chunk_merges()) == merged(
                rest@,
                limit as nat,
                (),
                chunk_merges(),
            ),
            rest@.len() <= data@.len(),
        decreases rest@.len(),
    {
        let (tag, kind, body) = next_key(rest)?;
        rest = pass_over(tag, kind, body, true)?;
    }
    at_limit(rest, limit)?;
    Ok(rest)
}

fn decode_payload<'a>(old: Option<Payload>, tag: u32, kind: FieldKind, body: &'a [u8]) -> (r: Result<
    (Payload, &'a [u8]),
    DecodeFault,
>)
    requires
        TAG_SET_SERVO <= tag <= TAG_ACK,
    ensures
        ({
            let before = match old {
                Some(p) => Some(p@),
                None => None,
            };
            match r {
                Ok((p, rest)) => {
                    &&& payload_merge(before, tag, kind, body@) == Ok::<
                        (PayloadView, Seq<u8>),
                        FaultView,
                    >((p@, rest@))
                    &&& rest@.len() <= body@.len()
                },
                Err(e) => payload_merge(before, tag, kind, body@) == Err::<
                    (PayloadView, Seq<u8>),
                    FaultView,
                >(e@),
            }
        }),
{
    let (len, data) = match take_run(kind, body) {
        Ok(x) => x,
        Err(e) => {
            return Err(DecodeFault::new(e));
        },
    };
    let limit: usize = data.len() - len;
    if tag == TAG_SET_SERVO {
        let start = match old {
            Some(Payload::SetServo(m)) => m,
            _ => SetServo { angle_bits: 0 },
        };
        let (m, rest) = decode_servo(data, limit, start)?;
        Ok((Payload::SetServo(m), rest))
    } else if tag == TAG_LED_ANIMATION {
        let start = match old {
            Some(Payload::LedAnimation(m)) => m,
            _ => LedAnimation { pattern_id: 0, repeats: 0 },
        };
        let (m, rest) = decode_led(data, limit, start)?;
        Ok((Payload::LedAnimation(m), rest))
    } else if tag == TAG_SHOW_ICON {
        let start = match old {
            Some(Payload::ShowIcon(m)) => m,
            _ => ShowIcon { icon_id: String::new() },
        };
        let (m, rest) = decode_icon(data, limit, start)?;
        Ok((Payload::ShowIcon(m), rest))
    } else if tag == TAG_NOTIFICATION {
        let start = match old {
            Some(Payload::Notification(m)) => m,
            _ => NotificationEvent {
                id: String::new(),
                source_app: String::new(),
                title: String::new(),
                body: String::new(),
                urgency: 0,
                category: 0,
                source_bundle_id: String::new(),
                sender_name: String::new(),
                sender_handle: String::new(),
                app_icon_hint: String::new(),
            },
        };
        let (m, rest) = decode_notification(data, limit, start)?;
        Ok((Payload::Notification(m), rest))
    } else if tag == TAG_PING {
        let start = match old {
            Some(Payload::Ping(m)) => m,
            _ => Ping { unix_ms: 0 },
        };
        let (m, rest) = decode_ping(data, limit, start)?;
        Ok((Payload::Ping(m), rest))
    } else if tag == TAG_ICON_CHUNK {
        let rest = check_chunk(data, limit)?;
        Ok((Payload::IconChunk(IconChunk {  }), rest))
    } else {
        let start = match old {
            Some(Payload::Ack(m)) => m,
            _ => Ack { msg_id: 0, ok: false, error: String::new() },
        };
        let (m, rest) = decode_ack(data, limit, start)?;
        Ok((Payload::Ack(m), rest))
    }
}

/// Reads the message that `bytes` hold.
pub fn decode_message(bytes: &[u8]) -> (r: Result<WireMessage, DecodeFault>)
    ensures
        match r {
            Ok(m) => read_message(bytes@) == Ok::<MessageView, FaultView>(m@),
            Err(e) => read_message(bytes@) == Err::<MessageView, FaultView>(e@),
        },
{
    let mut msg_id: u32 = 0;
    let mut payload: Option<Payload> = None;
    let mut rest = bytes;
    while rest.len() > 0
        invariant
            merged(
                bytes@,
                0,
                (MessageView { msg_id: 0, payload: None }),
                message_merges(),
            ) == merged(rest@, 0, (WireMessage { msg_id, payload })@, message_merges()),
        decreases rest@.len(),
    {
        let (tag, kind, body) = next_key(rest)?;
        if tag == TAG_MSG_ID {
            let (v, next) = field_number(kind, body, "WireMessage", "msg_id")?;
            msg_id = low32(v);
            rest = next;
        } else if TAG_SET_SERVO <= tag && tag <= TAG_ACK {
            match decode_payload(payload, tag, kind, body) {
                Ok((p, next)) => {
                    payload = Some(p);
                    rest = next;
                },
                Err(e) => {
                    return Err(e.within("WireMessage", "payload"));
                },
            }
        } else {
            rest = pass_over(tag, kind, body, false)?;
        }
    }
    Ok(WireMessage { msg_id, payload })
}

/// A number field, left out where it is 0, makes of `acc` what its number makes of it.
proof fn lemma_number_merged<T>(
    tag: u32,
    v: u64,
    rest: Seq<u8>,
    acc: T,
    next: T,
    merge: spec_fn(T, u32, FieldKind, Seq<u8>) -> Result<(T, Seq<u8>), FaultView>,
)
    requires
        1 <= tag <= 100,
        if v == 0 {
            next == acc
        } else {
            let body = varint_bytes(v as nat) + rest;
            number_at(FieldKind::Varint, body) == Ok::<(u64, Seq<u8>), Seq<char>>((v, rest))
                ==> merge(acc, tag, FieldKind::Varint, body) == Ok::<(T, Seq<u8>), FaultView>(
                (next, rest),
            )
        },
    ensures
        merged(opt_varint(tag, v) + rest, 0, acc, merge) == merged(rest, 0, next, merge),
{
    if v == 0 {
        assert(opt_varint(tag, v) + rest =~= rest);
    } else {
        let key = key_bytes(tag, FieldKind::Varint);
        let body = varint_bytes(v as nat) + rest;
        lemma_number_at(v, rest);
        lemma_merged_step(key, body, rest, tag, FieldKind::Varint, 0, acc, next, merge);
        assert(opt_varint(tag, v) + rest =~= key + body);
    }
}

/// A run of bytes in a field, and what stands behind its key.
proof fn lemma_run_field(tag: u32, data: Seq<u8>, rest: Seq<u8>)
    ensures
        bytes_field(tag, data) + rest == key_bytes(tag, FieldKind::Bytes) + (varint_bytes(
            data.len(),
        ) + (data + rest)),
{
    assert(bytes_field(tag, data) + rest =~= key_bytes(tag, FieldKind::Bytes) + (varint_bytes(
        data.len(),
    ) + (data + rest)));
}

/// A text field, left out where it is empty, makes of `acc` what its text makes of it.
proof fn lemma_text_merged<T>(
    tag: u32,
    s: Seq<char>,
    rest: Seq<u8>,
    acc: T,
    next: T,
    merge: spec_fn(T, u32, FieldKind, Seq<u8>) -> Result<(T, Seq<u8>), FaultView>,
)
    requires
        1 <= tag <= 100,
        opt_text(tag, s).len() <= u64::MAX,
        if s.len() == 0 {
            s == Seq::<char>::empty() ==> next == acc
        } else {
            let data = encode_utf8(s);
            let body = varint_bytes(data.len()) + (data + rest);
            text_at(FieldKind::Bytes, body) == Ok::<(Seq<char>, Seq<u8>), Seq<char>>((s, rest))
                ==> merge(acc, tag, FieldKind::Bytes, body) == Ok::<(T, Seq<u8>), FaultView>(
                (next, rest),
            )
        },
    ensures
        merged(opt_text(tag, s) + rest, 0, acc, merge) == merged(rest, 0, next, merge),
{
    if s.len() == 0 {
        assert(s =~= Seq::<char>::empty());
        assert(opt_text(tag, s) + rest =~= rest);
    } else {
        let key = key_bytes(tag, FieldKind::Bytes);
        let data = encode_utf8(s);
        let body = varint_bytes(data.len()) + (data + rest);
        lemma_run_at(data, rest);
        encode_utf8_valid_utf8(s);
        encode_utf8_decode_utf8(s);
        assert((data + rest).take(data.len() as int) =~= data);
        assert((data + rest).skip(data.len() as int) =~= rest);
        lemma_merged_step(key, body, rest, tag, FieldKind::Bytes, 0, acc, next, merge);
        lemma_run_field(tag, data, rest);
    }
}

proof fn lemma_signed_back(v: i32)
    ensures
        signed_value(signed_wire(v)) == v,
        signed_wire(v) == 0 <==> v == 0,
{
}

proof fn lemma_notification_back(m: NotificationView)
    requires
        notification_bytes(m).len() <= u64::MAX,
    ensures
        merged(notification_bytes(m), 0, empty_notification(), notification_merges()) == Ok::<
            (NotificationView, Seq<u8>),
            FaultView,
        >((m, Seq::empty())),
{
    let merge = notification_merges();
    let t10 = Seq::<u8>::empty();
    let t9 = opt_text(10, m.app_icon_hint);
    let t8 = opt_text(9, m.sender_handle) + t9;
    let t7 = opt_text(8, m.sender_name) + t8;
    let t6 = opt_text(7, m.source_bundle_id) + t7;
    let t5 = opt_varint(6, signed_wire(m.category)) + t6;
    let t4 = opt_varint(5, signed_wire(m.urgency)) + t5;
    let t3 = opt_text(4, m.body) + t4;
    let t2 = opt_text(3, m.title) + t3;
    let t1 = opt_text(2, m.source_app) + t2;
    let t0 = opt_text(1, m.id) + t1;
    let m0 = empty_notification();
    let m1 = NotificationView { id: m.id, ..m0 };
    let m2 = NotificationView { source_app: m.source_app, ..m1 };
    let m3 = NotificationView { title: m.title, ..m2 };
    let m4 = NotificationView { body: m.body, ..m3 };
    let m5 = NotificationView { urgency: m.urgency, ..m4 };
    let m6 = NotificationView { category: m.category, ..m5 };
    let m7 = NotificationView { source_bundle_id: m.source_bundle_id, ..m6 };
    let m8 = NotificationView { sender_name: m.sender_name, ..m7 };
    let m9 = NotificationView { sender_handle: m.sender_handle, ..m8 };
    let m10 = NotificationView { app_icon_hint: m.app_icon_hint, ..m9 };
    assert(t9 =~= opt_text(10, m.app_icon_hint) + t10);
    lemma_text_merged(1, m.id, t1, m0, m1, merge);
    lemma_text_merged(2, m.source_app, t2, m1, m2, merge);
    lemma_text_merged(3, m.title, t3, m2, m3, merge);
    lemma_text_merged(4, m.body, t4, m3, m4, merge);
    lemma_signed_back(m.urgency);
    lemma_number_merged(5, signed_wire(m.urgency), t5, m4, m5, merge);
    lemma_signed_back(m.category);
    lemma_number_merged(6, signed_wire(m.category), t6, m5, m6, merge);
    lemma_text_merged(7, m.source_bundle_id, t7, m6, m7, merge);
    lemma_text_merged(8, m.sender_name, t8, m7, m8, merge);
    lemma_text_merged(9, m.sender_handle, t9, m8, m9, merge);
    lemma_text_merged(10, m.app_icon_hint, t10, m9, m10, merge);
}

proof fn lemma_servo_back(m: SetServo)
    requires
        m.angle_bits != 0x8000_0000,
    ensures
        merged(servo_bytes(m), 0, (SetServo { angle_bits: 0 }), servo_merges()) == Ok::<
            (SetServo, Seq<u8>),
            FaultView,
        >((m, Seq::empty())),
{
    let none = Seq::<u8>::empty();
    let start = SetServo { angle_bits: 0 };
    if m.angle_bits != 0 {
        let key = key_bytes(1, FieldKind::Fixed32);
        let body = u32_bytes(m.angle_bits) + none;
        lemma_fixed32_at(m.angle_bits, none);
        lemma_merged_step(key, body, none, 1, FieldKind::Fixed32, 0, start, m, servo_merges());
        assert(key + body =~= servo_bytes(m));
    }
}

proof fn lemma_led_back(m: LedAnimation)
    ensures
        merged(led_bytes(m), 0, (LedAnimation { pattern_id: 0, repeats: 0 }), led_merges()) == Ok::<
            (LedAnimation, Seq<u8>),
            FaultView,
        >((m, Seq::empty())),
{
    let none = Seq::<u8>::empty();
    let m0 = LedAnimation { pattern_id: 0, repeats: 0 };
    let m1 = LedAnimation { pattern_id: m.pattern_id, repeats: 0 };
    let second = opt_varint(2, m.repeats as u64);
    assert(second =~= second + none);
    lemma_number_merged(1, m.pattern_id as u64, second, m0, m1, led_merges());
    lemma_number_merged(2, m.repeats as u64, none, m1, m, led_merges());
}

proof fn lemma_icon_back(m: ShowIconView)
    requires
        icon_bytes(m).len() <= u64::MAX,
    ensures
        merged(icon_bytes(m), 0, (ShowIconView { icon_id: Seq::empty() }), icon_merges()) == Ok::<
            (ShowIconView, Seq<u8>),
            FaultView,
        >((m, Seq::empty())),
{
    let none = Seq::<u8>::empty();
    let m0 = ShowIconView { icon_id: Seq::empty() };
    assert(icon_bytes(m) =~= icon_bytes(m) + none);
    lemma_text_merged(1, m.icon_id, none, m0, m, icon_merges());
}

proof fn lemma_ping_back(m: Ping)
    ensures
        merged(ping_bytes(m), 0, (Ping { unix_ms: 0 }), ping_merges()) == Ok::<
            (Ping, Seq<u8>),
            FaultView,
        >((m, Seq::empty())),
{
    let none = Seq::<u8>::empty();
    let m0 = Ping { unix_ms: 0 };
    assert(ping_bytes(m) =~= ping_bytes(m) + none);
    lemma_number_merged(1, m.unix_ms, none, m0, m, ping_merges());
}

proof fn lemma_ack_back(m: AckView)
    requires
        ack_bytes(m).len() <= u64::MAX,
    ensures
        merged(ack_bytes(m), 0, empty_ack(), ack_merges()) == Ok::<
            (AckView, Seq<u8>),
            FaultView,
        >((m, Seq::empty())),
{
    let none = Seq::<u8>::empty();
    let m0 = empty_ack();
    let m1 = AckView { msg_id: m.msg_id, ..m0 };
    let m2 = AckView { ok: m.ok, ..m1 };
    let ok: u64 = if m.ok { 1 } else { 0 };
    let third = opt_text(3, m.error);
    let second = opt_varint(2, ok) + third;
    assert(third =~= third + none);
    lemma_number_merged(1, m.msg_id as u64, second, m0, m1, ack_merges());
    lemma_number_merged(2, ok, third, m1, m2, ack_merges());
    lemma_text_merged(3, m.error, none, m2, m, ack_merges());
}

proof fn lemma_payload_back(p: PayloadView)
    requires
        payload_bytes(p).len() <= u64::MAX,
        p matches PayloadView::SetServo(m) ==> m.angle_bits != 0x8000_0000,
    ensures
        payload_fields(None, payload_tag(p), payload_bytes(p), 0) == Ok::<
            (PayloadView, Seq<u8>),
            FaultView,
        >((p, Seq::empty())),
{
    match p {
        PayloadView::SetServo(m) => lemma_servo_back(m),
        PayloadView::LedAnimation(m) => lemma_led_back(m),
        PayloadView::ShowIcon(m) => lemma_icon_back(m),
        PayloadView::Notification(m) => lemma_notification_back(m),
        PayloadView::Ping(m) => lemma_ping_back(m),
        PayloadView::IconChunk => {},
        PayloadView::Ack(m) => lemma_ack_back(m),
    }
}

/// A message that is written down is read back as it was. The one exception is the angle -0.0,
/// which is left out as a zero and comes back as 0.0.
pub proof fn message_round_trip(m: MessageView)
    requires
        message_bytes(m).len() <= u64::MAX,
        m.payload matches Some(PayloadView::SetServo(s)) ==> s.angle_bits != 0x8000_0000,
    ensures
        read_message(message_bytes(m)) == Ok::<MessageView, FaultView>(m),
{
    let m0 = MessageView { msg_id: 0, payload: None };
    let m1 = MessageView { msg_id: m.msg_id, payload: None };
    let none = Seq::<u8>::empty();
    let tail = match m.payload {
        Some(p) => bytes_field(payload_tag(p), payload_bytes(p)),
        None => none,
    };
    lemma_number_merged(TAG_MSG_ID, m.msg_id as u64, tail, m0, m1, message_merges());
    if let Some(p) = m.payload {
        let data = payload_bytes(p);
        let tag = payload_tag(p);
        let key = key_bytes(tag, FieldKind::Bytes);
        let body = varint_bytes(data.len()) + (data + none);
        lemma_payload_back(p);
        lemma_run_at(data, none);
        lemma_run_field(tag, data, none);
        assert(data + none =~= data);
        assert(tail =~= tail + none);
        lemma_merged_step(key, body, none, tag, FieldKind::Bytes, 0, m1, m, message_merges());
    }
}

proof fn lemma_field_passed_over(m: MessageView, tag: u32, kind: FieldKind, body: Seq<u8>)
    requires
        9 <= tag <= crate::wire::MAX_TAG,
        message_bytes(m).len() <= u64::MAX,
        m.payload matches Some(PayloadView::SetServo(s)) ==> s.angle_bits != 0x8000_0000,
        body.len() >= message_bytes(m).len(),
        crate::wire::behind_value(tag, kind, body, false) == Ok::<Seq<u8>, Seq<char>>(
            message_bytes(m),
        ),
    ensures
        read_message(key_bytes(tag, kind) + body) == Ok::<MessageView, FaultView>(m),
{
    let m0 = MessageView { msg_id: 0, payload: None };
    let rest = message_bytes(m);
    message_round_trip(m);
    lemma_merged_step(
        key_bytes(tag, kind),
        body,
        rest,
        tag,
        kind,
        0,
        m0,
        m0,
        message_merges(),
    );
}

/// A field that no message has is passed over, whatever its kind and whatever it holds: the message
/// behind it is read as it is.
pub proof fn unknown_fields_are_passed_over(
    m: MessageView,
    tag: u32,
    number: u64,
    fixed: u32,
    data: Seq<u8>,
)
    requires
        9 <= tag <= crate::wire::MAX_TAG,
        message_bytes(m).len() <= u64::MAX,
        data.len() <= u64::MAX,
        m.payload matches Some(PayloadView::SetServo(s)) ==> s.angle_bits != 0x8000_0000,
    ensures
        read_message(varint_field(tag, number) + message_bytes(m)) == Ok::<MessageView, FaultView>(
            m,
        ),
        read_message(fixed32_field(tag, fixed) + message_bytes(m)) == Ok::<MessageView, FaultView>(
            m,
        ),
        read_message(bytes_field(tag, data) + message_bytes(m)) == Ok::<MessageView, FaultView>(m),
{
    let rest = message_bytes(m);
    let first = varint_bytes(number as nat) + rest;
    lemma_number_at(number, rest);
    lemma_field_passed_over(m, tag, FieldKind::Varint, first);
    assert(varint_field(tag, number) + rest =~= key_bytes(tag, FieldKind::Varint) + first);
    let second = crate::wire::u32_bytes(fixed) + rest;
    crate::wire::lemma_u32_bytes(fixed);
    assert(second.skip(4) =~= rest);
    lemma_field_passed_over(m, tag, FieldKind::Fixed32, second);
    assert(fixed32_field(tag, fixed) + rest =~= key_bytes(tag, FieldKind::Fixed32) + second);
    let third = varint_bytes(data.len()) + (data + rest);
    lemma_run_at(data, rest);
    assert((data + rest).skip(data.len() as int) =~= rest);
    lemma_field_passed_over(m, tag, FieldKind::Bytes, third);
    assert(bytes_field(tag, data) + rest =~= key_bytes(tag, FieldKind::Bytes) + third);
}

/// What a message's bytes make of one that has another number.
proof fn lemma_renumbered(m: MessageView, first: MessageView)
    requires
        m.msg_id > 0,
        first.payload is None,
    ensures
        merged(message_bytes(m), 0, first, message_merges()) == merged(
            message_bytes(m),
            0,
            (MessageView { msg_id: 0, payload: None }),
            message_merges(),
        ),
{
    let m0 = MessageView { msg_id: 0, payload: None };
    let m1 = MessageView { msg_id: m.msg_id, payload: None };
    let tail = match m.payload {
        Some(p) => bytes_field(payload_tag(p), payload_bytes(p)),
        None => Seq::empty(),
    };
    lemma_number_merged(TAG_MSG_ID, m.msg_id as u64, tail, m0, m1, message_merges());
    lemma_number_merged(TAG_MSG_ID, m.msg_id as u64, tail, first, m1, message_merges());
}

/// What a number makes of the message behind it.
proof fn lemma_numbered(before: u64, rest: Seq<u8>)
    ensures
        merged(
            varint_field(1, before) + rest,
            0,
            (MessageView { msg_id: 0, payload: None }),
            message_merges(),
        ) == merged(
            rest,
            0,
            (MessageView { msg_id: unsigned_value(before), payload: None }),
            message_merges(),
        ),
{
    let m0 = MessageView { msg_id: 0, payload: None };
    let first = MessageView { msg_id: unsigned_value(before), payload: None };
    let body = varint_bytes(before as nat) + rest;
    lemma_number_at(before, rest);
    lemma_merged_step(
        key_bytes(1, FieldKind::Varint),
        body,
        rest,
        1,
        FieldKind::Varint,
        0,
        m0,
        first,
        message_merges(),
    );
    assert(varint_field(1, before) + rest =~= key_bytes(1, FieldKind::Varint) + body);
}

/// Of two numbers for one message the last one counts.
pub proof fn last_number_counts(m: MessageView, before: u64)
    requires
        m.msg_id > 0,
        message_bytes(m).len() <= u64::MAX,
        m.payload matches Some(PayloadView::SetServo(s)) ==> s.angle_bits != 0x8000_0000,
    ensures
        read_message(varint_field(1, before) + message_bytes(m)) == Ok::<MessageView, FaultView>(m),
{
    lemma_numbered(before, message_bytes(m));
    lemma_renumbered(m, MessageView { msg_id: unsigned_value(before), payload: None });
    message_round_trip(m);
}

/// What is not said is not written: a message without a number and a payload has no bytes, and
/// neither has a payload that holds nothing but zeros and empty texts.
pub proof fn nothing_is_written_for_nothing()
    ensures
        message_bytes(MessageView { msg_id: 0, payload: None }).len() == 0,
        servo_bytes(SetServo { angle_bits: 0 }).len() == 0,
        led_bytes(LedAnimation { pattern_id: 0, repeats: 0 }).len() == 0,
        icon_bytes(ShowIconView { icon_id: Seq::empty() }).len() == 0,
        ping_bytes(Ping { unix_ms: 0 }).len() == 0,
        ack_bytes(AckView { msg_id: 0, ok: false, error: Seq::empty() }).len() == 0,
        notification_bytes(empty_notification()).len() == 0,
{
}

/// The fields of a notification have their numbers, one to ten in this order: id, application,
/// title, text, urgency, category, bundle, sender, handle, icon. Each is written under its own,
/// whatever the others hold: a notification with that field alone is just that field.
pub proof fn fields_have_their_numbers(s: Seq<char>, n: i32)
    requires
        s.len() > 0,
        n > 0,
    ensures
        ({
            let none = empty_notification();
            let bytes = encode_utf8(s);
            &&& notification_bytes(NotificationView { id: s, ..none }) == bytes_field(1, bytes)
            &&& notification_bytes(NotificationView { source_app: s, ..none }) == bytes_field(2, bytes)
            &&& notification_bytes(NotificationView { title: s, ..none }) == bytes_field(3, bytes)
            &&& notification_bytes(NotificationView { body: s, ..none }) == bytes_field(4, bytes)
            &&& notification_bytes(NotificationView { urgency: n, ..none }) == varint_field(
                5,
                n as u64,
            )
            &&& notification_bytes(NotificationView { category: n, ..none }) == varint_field(
                6,
                n as u64,
            )
            &&& notification_bytes(NotificationView { source_bundle_id: s, ..none }) == bytes_field(
                7,
                bytes,
            )
            &&& notification_bytes(NotificationView { sender_name: s, ..none }) == bytes_field(8, bytes)
            &&& notification_bytes(NotificationView { sender_handle: s, ..none }) == bytes_field(
                9,
                bytes,
            )
            &&& notification_bytes(NotificationView { app_icon_hint: s, ..none }) == bytes_field(
                10,
                bytes,
            )
        }),
{
    let none = empty_notification();
    let b = encode_utf8(s);
    assert(notification_bytes(NotificationView { id: s, ..none }) =~= bytes_field(1, b));
    assert(notification_bytes(NotificationView { source_app: s, ..none }) =~= bytes_field(2, b));
    assert(notification_bytes(NotificationView { title: s, ..none }) =~= bytes_field(3, b));
    assert(notification_bytes(NotificationView { body: s, ..none }) =~= bytes_field(4, b));
    assert(notification_bytes(NotificationView { urgency: n, ..none }) =~= varint_field(
        5,
        n as u64,
    ));
    assert(notification_bytes(NotificationView { category: n, ..none }) =~= varint_field(
        6,
        n as u64,
    ));
    assert(notification_bytes(NotificationView { source_bundle_id: s, ..none }) =~= bytes_field(
        7,
        b,
    ));
    assert(notification_bytes(NotificationView { sender_name: s, ..none }) =~= bytes_field(8, b));
    assert(notification_bytes(NotificationView { sender_handle: s, ..none }) =~= bytes_field(9, b));
    assert(notification_bytes(NotificationView { app_icon_hint: s, ..none }) =~= bytes_field(10, b));
}

/// The number of a message is its first field, and each kind of payload has a field of its own
/// behind it.
pub proof fn payloads_have_their_numbers(m: MessageView)
    ensures
        m.msg_id > 0 ==> message_bytes(m).len() > 0 && message_bytes(m)[0] == 8,
        m.payload matches Some(p) ==> message_bytes(m) == opt_varint(1, m.msg_id as u64)
            + bytes_field(
            match p {
                PayloadView::SetServo(_) => 2,
                PayloadView::LedAnimation(_) => 3,
                PayloadView::ShowIcon(_) => 4,
                PayloadView::Notification(_) => 5,
                PayloadView::Ping(_) => 6,
                PayloadView::IconChunk => 7,
                PayloadView::Ack(_) => 8,
            },
            payload_bytes(p),
        ),
{
    crate::wire::keys_hold_number_and_kind(1);
    if m.msg_id > 0 {
        assert(varint_field(1, m.msg_id as u64)[0] == key_bytes(1, FieldKind::Varint)[0]);
    }
}

} // verus!

use lander::codec::{decode_message, encode_message};
use lander::message::{Ack, LedAnimation, Payload, Ping, SetServo, ShowIcon, WireMessage};
use prost::bytes::{Buf, BufMut};
use prost::encoding::{message, skip_field, uint32, uint64, DecodeContext, WireType};
use prost::{DecodeError, Message};

fn with_payload(payload: Payload) -> WireMessage {
    WireMessage { msg_id: 0, payload: Some(payload) }
}

#[test]
fn number_fields_agree_with_the_protobuf_library() {
    // A single number in field 1 is what the library writes for a bare integer.
    for n in [0u64, 1, 127, 128, 300, 16_384, u64::MAX] {
        let body = n.encode_to_vec();
        let mut expected = vec![50, body.len() as u8];
        expected.extend_from_slice(&body);
        assert_eq!(encode_message(&with_payload(Payload::Ping(Ping { unix_ms: n }))), expected);
        assert_eq!(decode_message(&expected), Ok(with_payload(Payload::Ping(Ping { unix_ms: n }))));
    }
}

#[test]
fn text_fields_agree_with_the_protobuf_library() {
    for s in ["", "cat1", "gr\u{fc}n", "\u{1f600}"] {
        let body = s.to_string().encode_to_vec();
        let mut expected = vec![34, body.len() as u8];
        expected.extend_from_slice(&body);
        let m = with_payload(Payload::ShowIcon(ShowIcon { icon_id: s.to_string() }));
        assert_eq!(encode_message(&m), expected);
        assert_eq!(decode_message(&expected), Ok(m));
    }
}

#[test]
fn float_fields_agree_with_the_protobuf_library() {
    for x in [0.0f32, 90.0, 135.5, -1.0] {
        let body = x.encode_to_vec();
        let mut expected = vec![18, body.len() as u8];
        expected.extend_from_slice(&body);
        let m = with_payload(Payload::SetServo(SetServo { angle_bits: x.to_bits() }));
        assert_eq!(encode_message(&m), expected);
        assert_eq!(decode_message(&expected), Ok(m));
    }
}

#[test]
fn unknown_fields_are_passed_over() {
    // Field 100 in each way of writing, among them a group with a field inside.
    let mut bytes = vec![8, 5];
    bytes.extend_from_slice(&[0xa0, 0x06, 0x2a]);
    bytes.extend_from_slice(&[0xa1, 0x06, 1, 2, 3, 4, 5, 6, 7, 8]);
    bytes.extend_from_slice(&[0xa2, 0x06, 2, 9, 9]);
    bytes.extend_from_slice(&[0xa3, 0x06, 8, 1, 0xa4, 0x06]);
    bytes.extend_from_slice(&[0xa5, 0x06, 1, 2, 3, 4]);
    assert_eq!(decode_message(&bytes), Ok(WireMessage { msg_id: 5, payload: None }));
}

#[test]
fn later_fields_replace_or_merge() {
    // The number of the message twice: the last one counts.
    assert_eq!(decode_message(&[8, 5, 8, 6]), Ok(WireMessage { msg_id: 6, payload: None }));
    // Two halves of a lamp pattern.
    assert_eq!(
        decode_message(&[26, 2, 8, 3, 26, 2, 16, 4]),
        Ok(with_payload(Payload::LedAnimation(LedAnimation { pattern_id: 3, repeats: 4 })))
    );
    // Another payload replaces the first.
    assert_eq!(
        decode_message(&[26, 2, 8, 3, 66, 2, 16, 1]),
        Ok(with_payload(Payload::Ack(Ack { msg_id: 0, ok: true, error: String::new() })))
    );
}

#[test]
fn numbers_are_cut_to_their_type() {
    // 2 to the power of 32, plus 9, in a field of 32 bits.
    assert_eq!(
        decode_message(&[8, 0x89, 0x80, 0x80, 0x80, 0x10]),
        Ok(WireMessage { msg_id: 9, payload: None })
    );
}

fn fault(bytes: &[u8]) -> String {
    decode_message(bytes).unwrap_err().text()
}

#[test]
fn each_fault_has_its_input() {
    let front = "failed to decode Protobuf message: ";
    // A key that does not end, one that is too large, a kind that there is not, a field number 0.
    assert_eq!(fault(&[0x80]), format!("{front}invalid varint"));
    assert_eq!(
        fault(&[0x80, 0x80, 0x80, 0x80, 0x10]),
        format!("{front}invalid key value: 4294967296")
    );
    assert_eq!(fault(&[15]), format!("{front}invalid wire type value: 7"));
    assert_eq!(fault(&[0]), format!("{front}invalid tag value: 0"));
    // A number that does not end, and one of more than 64 bits.
    assert_eq!(fault(&[8, 0x80]), format!("{front}WireMessage.msg_id: invalid varint"));
    assert_eq!(
        fault(&[8, 255, 255, 255, 255, 255, 255, 255, 255, 255, 2]),
        format!("{front}WireMessage.msg_id: invalid varint")
    );
    // A payload and a passed-over field that are cut off.
    assert_eq!(fault(&[50, 3, 8, 1]), format!("{front}WireMessage.payload: buffer underflow"));
    assert_eq!(fault(&[0xa5, 0x06, 1]), format!("{front}buffer underflow"));
    assert_eq!(fault(&[0xa1, 0x06, 1]), format!("{front}buffer underflow"));
    assert_eq!(fault(&[0xa2, 0x06, 1]), format!("{front}buffer underflow"));
    assert_eq!(fault(&[0xa4, 0x06]), format!("{front}unexpected end group tag"));
    assert_eq!(fault(&[0xa3, 0x06, 0x0c]), format!("{front}unexpected end group tag"));
    // The number of the message as bytes, and a payload as a number.
    assert_eq!(
        fault(&[10, 1, 1]),
        format!(
            "{front}WireMessage.msg_id: invalid wire type: LengthDelimited (expected Varint)"
        )
    );
    assert_eq!(
        fault(&[48, 1]),
        format!(
            "{front}WireMessage.payload: invalid wire type: Varint (expected LengthDelimited)"
        )
    );
    // A text that is none, in a payload.
    assert_eq!(
        fault(&[34, 3, 10, 1, 0xff]),
        format!(
            "{front}ShowIcon.icon_id: WireMessage.payload: \
             invalid string value: data is not UTF-8 encoded"
        )
    );
    assert_eq!(
        fault(&[42, 2, 26, 0x80]),
        format!("{front}NotificationEvent.title: WireMessage.payload: invalid varint")
    );
    assert_eq!(
        fault(&[18, 2, 13, 0]),
        format!("{front}SetServo.angle_deg: WireMessage.payload: buffer underflow")
    );
}

#[test]
fn field_runs_past_the_end_of_its_payload() {
    // The number in the payload ends one byte behind the payload.
    assert_eq!(
        fault(&[50, 2, 8, 0x81, 1]),
        "failed to decode Protobuf message: WireMessage.payload: delimited length exceeded"
    );
}

fn nested_groups(depth: usize) -> Vec<u8> {
    let mut bytes = Vec::new();
    for _ in 0..depth {
        bytes.extend_from_slice(&[0xa3, 0x06]);
    }
    for _ in 0..depth {
        bytes.extend_from_slice(&[0xa4, 0x06]);
    }
    bytes
}

fn in_ping(data: &[u8]) -> Vec<u8> {
    let mut bytes = vec![50, (data.len() % 128) as u8 | 0x80, (data.len() / 128) as u8];
    bytes.extend_from_slice(data);
    bytes
}

#[test]
fn groups_are_nested_one_level_less_in_a_payload() {
    let empty = Ok(WireMessage { msg_id: 0, payload: None });
    assert_eq!(decode_message(&nested_groups(100)), empty);
    assert_eq!(
        fault(&nested_groups(101)),
        "failed to decode Protobuf message: recursion limit reached"
    );
    let ping = Ok(with_payload(Payload::Ping(Ping { unix_ms: 0 })));
    assert_eq!(decode_message(&in_ping(&nested_groups(99))), ping);
    assert_eq!(
        fault(&in_ping(&nested_groups(100))),
        "failed to decode Protobuf message: WireMessage.payload: recursion limit reached"
    );
    // What is wrong further in comes first.
    let mut open = nested_groups(100);
    open.truncate(200);
    assert_eq!(
        fault(&in_ping(&open[..198])),
        "failed to decode Protobuf message: WireMessage.payload: invalid varint"
    );
    assert_eq!(
        fault(&in_ping(&open)),
        "failed to decode Protobuf message: WireMessage.payload: recursion limit reached"
    );
}

#[test]
fn faults_have_the_words_of_the_protobuf_library() {
    // A message of the library that passes over all its fields.
    let inputs: Vec<Vec<u8>> = vec![
        vec![0x80],
        vec![0x80, 0x80, 0x80, 0x80, 0x10],
        vec![6],
        vec![15],
        vec![0],
        vec![0xa0, 0x06, 0x80],
        vec![0xa1, 0x06, 1, 2, 3],
        vec![0xa2, 0x06, 4, 0],
        vec![0xa2, 0x06, 0xff],
        vec![0xa3, 0x06, 8],
        vec![0xa3, 0x06, 15],
        vec![0xa3, 0x06, 0x0c],
        vec![0xa3, 0x06, 0xab, 0x06, 0xa4, 0x06],
        vec![0xa4, 0x06],
        vec![0xa5, 0x06, 1],
        nested_groups(100),
        nested_groups(101),
    ];
    for bytes in inputs {
        let expected = <() as Message>::decode(bytes.as_slice()).map_err(|e| e.to_string());
        assert_eq!(decode_message(&bytes).map(|_| ()).map_err(|e| e.text()), expected);
    }
}

/// The fields of a ping, read by the protobuf library.
#[derive(Debug, Default, PartialEq)]
struct PingFields {
    unix_ms: u64,
}

/// The number of a message and its ping, read by the protobuf library.
#[derive(Debug, Default, PartialEq)]
struct MessageFields {
    msg_id: u32,
    ping: Option<PingFields>,
}

fn within(mut e: DecodeError, message: &'static str, field: &'static str) -> DecodeError {
    e.push(message, field);
    e
}

impl Message for PingFields {
    fn encode_raw(&self, _buf: &mut impl BufMut) {}

    fn merge_field(
        &mut self,
        tag: u32,
        wire_type: WireType,
        buf: &mut impl Buf,
        ctx: DecodeContext,
    ) -> Result<(), DecodeError> {
        if tag == 1 {
            uint64::merge(wire_type, &mut self.unix_ms, buf, ctx)
                .map_err(|e| within(e, "Ping", "unix_ms"))
        } else {
            skip_field(wire_type, tag, buf, ctx)
        }
    }

    fn encoded_len(&self) -> usize {
        0
    }

    fn clear(&mut self) {}
}

impl Message for MessageFields {
    fn encode_raw(&self, _buf: &mut impl BufMut) {}

    fn merge_field(
        &mut self,
        tag: u32,
        wire_type: WireType,
        buf: &mut impl Buf,
        ctx: DecodeContext,
    ) -> Result<(), DecodeError> {
        if tag == 1 {
            uint32::merge(wire_type, &mut self.msg_id, buf, ctx)
                .map_err(|e| within(e, "WireMessage", "msg_id"))
        } else if tag == 6 {
            let mut ping = self.ping.take().unwrap_or_default();
            message::merge(wire_type, &mut ping, buf, ctx)
                .map_err(|e| within(e, "WireMessage", "payload"))?;
            self.ping = Some(ping);
            Ok(())
        } else {
            skip_field(wire_type, tag, buf, ctx)
        }
    }

    fn encoded_len(&self) -> usize {
        0
    }

    fn clear(&mut self) {}
}

fn agrees(bytes: &[u8]) {
    let expected = MessageFields::decode(bytes).map_err(|e| e.to_string());
    let actual = decode_message(bytes).map_err(|e| e.text()).map(|m| MessageFields {
        msg_id: m.msg_id,
        ping: m.payload.map(|p| match p {
            Payload::Ping(p) => PingFields { unix_ms: p.unix_ms },
            _ => panic!("another payload"),
        }),
    });
    assert_eq!(actual, expected, "{:?}", bytes);
}

#[test]
fn payloads_agree_with_the_protobuf_library() {
    for a in 0..=255u8 {
        for b in 0..=255u8 {
            agrees(&[50, 3, a, b, 1, 8, 5]);
            agrees(&[50, 2, a, b, 8, 1, 8, 5]);
            agrees(&[50, 2, 8, a, 50, b, 8, 9]);
            agrees(&[8, a % 128, 0xa3, 0x06, b, 1, 0xa4, 0x06]);
        }
    }
    for depth in 95..105 {
        agrees(&nested_groups(depth));
        agrees(&in_ping(&nested_groups(depth)));
        // One byte is missing, and one end is another group's.
        let mut bytes = in_ping(&nested_groups(depth));
        bytes.pop();
        agrees(&bytes);
        let mut bytes = in_ping(&nested_groups(depth));
        let last = bytes.len() - 2;
        bytes[last] = 0xac;
        agrees(&bytes);
    }
}

#[test]
fn largest_varint_is_read() {
    let m = with_payload(Payload::Ping(Ping { unix_ms: u64::MAX }));
    assert_eq!(
        encode_message(&m),
        vec![50, 11, 8, 255, 255, 255, 255, 255, 255, 255, 255, 255, 1]
    );
}

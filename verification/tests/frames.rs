use lander::frame::{decode_frame, encode_frame, startup_protocol_self_check, FrameError};
use lander::frame::{decode_frame_with, frame_payload, payload_in};
use lander::frame::{StreamDecoder, BLE_DEVICE_NAME};
use lander::message::{Ack, IconChunk, LedAnimation, NotificationEvent, Payload, Ping, SetServo};
use lander::message::{ShowIcon, WireMessage};
use lander::wire::DecodeFault;

fn ping(msg_id: u32, unix_ms: u64) -> WireMessage {
    WireMessage { msg_id, payload: Some(Payload::Ping(Ping { unix_ms })) }
}

fn note(body: &str) -> NotificationEvent {
    NotificationEvent {
        id: "n-1".to_string(),
        source_app: "Mail".to_string(),
        title: "T\u{e4}glich".to_string(),
        body: body.to_string(),
        urgency: -1,
        category: 2,
        source_bundle_id: "com.example.mail".to_string(),
        sender_name: "Alice".to_string(),
        sender_handle: "@alice".to_string(),
        app_icon_hint: "mail".to_string(),
    }
}

/// A frame with a payload that is given as bytes.
fn raw_frame(version: u8, len: u16, payload: &[u8]) -> Vec<u8> {
    let mut f = vec![b'R', b'F', version];
    f.extend_from_slice(&len.to_le_bytes());
    f.extend_from_slice(&crc32fast::hash(payload).to_le_bytes());
    f.extend_from_slice(payload);
    f
}

#[test]
fn frame_round_trip_works() {
    let msg = WireMessage {
        msg_id: 42,
        payload: Some(Payload::SetServo(SetServo { angle_bits: 135.0f32.to_bits() })),
    };

    let frame = encode_frame(&msg).expect("encode should succeed");
    let parsed = decode_frame(&frame).expect("frame should decode");
    assert_eq!(parsed.msg_id, 42);
}

#[test]
fn frame_crc_guard_rejects_corruption() {
    let msg = WireMessage { msg_id: 11, payload: Some(Payload::Ping(Ping { unix_ms: 123 })) };

    let mut frame = encode_frame(&msg).expect("encode should succeed");
    let last = frame.len() - 1;
    frame[last] ^= 0xFF;

    let err = decode_frame(&frame).expect_err("corrupted frame must fail");
    assert!(matches!(err, FrameError::CrcMismatch));
}

#[test]
fn every_payload_comes_back() {
    let payloads = vec![
        None,
        Some(Payload::SetServo(SetServo { angle_bits: 90.5f32.to_bits() })),
        Some(Payload::SetServo(SetServo { angle_bits: 0 })),
        Some(Payload::LedAnimation(LedAnimation { pattern_id: 3, repeats: u32::MAX })),
        Some(Payload::ShowIcon(ShowIcon { icon_id: "cat2".to_string() })),
        Some(Payload::Notification(note("Hello \u{1f600}"))),
        Some(Payload::Ping(Ping { unix_ms: u64::MAX })),
        Some(Payload::IconChunk(IconChunk {})),
        Some(Payload::Ack(Ack { msg_id: 7, ok: true, error: String::new() })),
        Some(Payload::Ack(Ack { msg_id: 8, ok: false, error: "no".to_string() })),
    ];
    for payload in payloads {
        let msg = WireMessage { msg_id: 300, payload };
        let frame = encode_frame(&msg).unwrap();
        assert_eq!(decode_frame(&frame), Ok(msg));
    }
}

#[test]
fn negative_zero_comes_back_as_zero() {
    let msg = WireMessage {
        msg_id: 1,
        payload: Some(Payload::SetServo(SetServo { angle_bits: (-0.0f32).to_bits() })),
    };
    let back = decode_frame(&encode_frame(&msg).unwrap()).unwrap();
    assert_eq!(back.payload, Some(Payload::SetServo(SetServo { angle_bits: 0 })));
}

#[test]
fn frame_bytes_are_as_documented() {
    // Field 1 holds 1, field 6 an empty message.
    let payload = [8u8, 1, 50, 0];
    assert_eq!(encode_frame(&ping(1, 0)).unwrap(), raw_frame(1, 4, &payload));
}

#[test]
fn each_frame_error_has_its_input() {
    assert_eq!(decode_frame(&[b'R', b'F', 1, 0, 0, 0, 0, 0]), Err(FrameError::TooShort));
    let good = raw_frame(1, 2, &[8, 1]);
    let mut bad = good.clone();
    bad[1] = b'X';
    assert_eq!(decode_frame(&bad), Err(FrameError::BadMagic));
    assert_eq!(decode_frame(&raw_frame(7, 2, &[8, 1])), Err(FrameError::UnsupportedVersion(7)));
    assert_eq!(decode_frame(&raw_frame(1, 4097, &[8, 1])), Err(FrameError::PayloadTooLarge));
    assert_eq!(decode_frame(&raw_frame(1, 3, &[8, 1])), Err(FrameError::LengthMismatch));
    let mut crc = good.clone();
    crc[5] ^= 1;
    assert_eq!(decode_frame(&crc), Err(FrameError::CrcMismatch));
    assert_eq!(
        decode_frame(&raw_frame(1, 1, &[8])),
        Err(FrameError::Decode(DecodeFault {
            place: "WireMessage.msg_id: ".to_string(),
            reason: "invalid varint".to_string(),
        }))
    );
    assert_eq!(
        encode_frame(&WireMessage {
            msg_id: 1,
            payload: Some(Payload::Notification(note(&"x".repeat(5000)))),
        }),
        Err(FrameError::PayloadTooLarge)
    );
}

#[test]
fn largest_payload_fits() {
    // Two bytes of number, one of key, two of length and the icon's own three bytes around it.
    let msg = WireMessage {
        msg_id: 1,
        payload: Some(Payload::ShowIcon(ShowIcon { icon_id: "x".repeat(4096 - 8) })),
    };
    let frame = encode_frame(&msg).unwrap();
    assert_eq!(frame.len(), 9 + 4096);
    assert_eq!(decode_frame(&frame), Ok(msg));
    let larger = WireMessage {
        msg_id: 1,
        payload: Some(Payload::ShowIcon(ShowIcon { icon_id: "x".repeat(4096 - 7) })),
    };
    assert_eq!(encode_frame(&larger), Err(FrameError::PayloadTooLarge));
}

#[test]
fn errors_have_words() {
    assert_eq!(FrameError::TooShort.text(), "frame too short");
    assert_eq!(FrameError::BadMagic.text(), "invalid frame magic");
    assert_eq!(FrameError::UnsupportedVersion(207).text(), "unsupported frame version: 207");
    assert_eq!(FrameError::LengthMismatch.text(), "frame length mismatch");
    assert_eq!(FrameError::CrcMismatch.text(), "frame checksum mismatch");
    assert_eq!(FrameError::PayloadTooLarge.text(), "payload exceeds maximum allowed size");
    assert_eq!(
        decode_frame(&raw_frame(1, 1, &[8])).unwrap_err().text(),
        "protobuf decode error: failed to decode Protobuf message: \
         WireMessage.msg_id: invalid varint"
    );
    assert_eq!(FrameError::SelfCheckFailed.text(), "startup protocol self-check failed");
}

#[test]
fn self_check_passes() {
    assert_eq!(startup_protocol_self_check(), Ok(()));
    assert_eq!(BLE_DEVICE_NAME, "lander001");
}

#[test]
fn stream_is_cut_anywhere() {
    let messages = vec![ping(1, 5), ping(2, 600_000), WireMessage { msg_id: 3, payload: None }];
    let mut bytes: Vec<u8> = Vec::new();
    for m in &messages {
        bytes.extend_from_slice(&encode_frame(m).unwrap());
    }
    for step in 1..bytes.len() {
        let mut decoder = StreamDecoder::new();
        let mut got = Vec::new();
        for piece in bytes.chunks(step) {
            decoder.push_bytes(piece);
            while let Some(m) = decoder.next_message() {
                got.push(m.unwrap());
            }
        }
        assert_eq!(got, messages);
    }
}

#[test]
fn decoder_skips_noise_before_a_frame() {
    let mut decoder = StreamDecoder::new();
    decoder.push_bytes(b"xxRxFy");
    decoder.push_bytes(&encode_frame(&ping(9, 1)).unwrap());
    assert_eq!(decoder.next_message(), Some(Ok(ping(9, 1))));
    assert_eq!(decoder.next_message(), None);
}

#[test]
fn decoder_drops_noise_without_a_marker() {
    let mut decoder = StreamDecoder::new();
    decoder.push_bytes(b"no marker here R");
    assert_eq!(decoder.next_message(), None);
    // The trailing R went with the rest, so the frame that goes on from it is not seen.
    let frame = encode_frame(&ping(4, 0)).unwrap();
    decoder.push_bytes(&frame[1..]);
    assert_eq!(decoder.next_message(), None);
    decoder.push_bytes(&frame);
    assert_eq!(decoder.next_message(), Some(Ok(ping(4, 0))));
}

#[test]
fn decoder_recovers_from_a_bad_length() {
    let mut decoder = StreamDecoder::new();
    decoder.push_bytes(&[b'R', b'F', 1, 0xFF, 0xFF, 0, 0, 0, 0]);
    decoder.push_bytes(&encode_frame(&ping(5, 2)).unwrap());
    assert_eq!(decoder.next_message(), Some(Err(FrameError::LengthMismatch)));
    assert_eq!(decoder.next_message(), Some(Ok(ping(5, 2))));
}

#[test]
fn decoder_reports_a_bad_checksum_and_goes_on() {
    let mut bad = encode_frame(&ping(6, 2)).unwrap();
    bad[5] ^= 0x10;
    let mut decoder = StreamDecoder::new();
    decoder.push_bytes(&bad);
    decoder.push_bytes(&encode_frame(&ping(7, 3)).unwrap());
    assert_eq!(decoder.next_message(), Some(Err(FrameError::CrcMismatch)));
    assert_eq!(decoder.next_message(), Some(Ok(ping(7, 3))));
    assert_eq!(decoder.next_message(), None);
}

#[test]
fn incomplete_frame_waits() {
    let frame = encode_frame(&ping(6, 2)).unwrap();
    let mut decoder = StreamDecoder::new();
    decoder.push_bytes(&frame[..frame.len() - 1]);
    assert_eq!(decoder.next_message(), None);
    decoder.push_bytes(&frame[frame.len() - 1..]);
    assert_eq!(decoder.next_message(), Some(Ok(ping(6, 2))));
}

#[test]
fn any_one_changed_byte_is_noticed() {
    let msg = WireMessage { msg_id: 300, payload: Some(Payload::Notification(note("Hello"))) };
    let good = encode_frame(&msg).unwrap();
    for i in 5..good.len() {
        for change in 1..=255u8 {
            let mut bad = good.clone();
            bad[i] ^= change;
            assert_eq!(decode_frame(&bad), Err(FrameError::CrcMismatch));
        }
    }
}

#[test]
fn frames_are_made_with_a_given_checksum() {
    assert_eq!(
        frame_payload(&[8, 1], 0x0403_0201),
        Ok(vec![b'R', b'F', 1, 2, 0, 1, 2, 3, 4, 8, 1])
    );
    // The message without anything: its payload is empty, and the checksum of that is 0.
    let empty = vec![b'R', b'F', 1, 0, 0, 0, 0, 0, 0];
    assert_eq!(frame_payload(&[], 0), Ok(empty.clone()));
    assert_eq!(encode_frame(&WireMessage { msg_id: 0, payload: None }), Ok(empty));
    assert_eq!(frame_payload(&[0; 4097], 0), Err(FrameError::PayloadTooLarge));
}

#[test]
fn frames_are_read_with_a_given_checksum() {
    let frame = [b'R', b'F', 1, 2, 0, 1, 2, 3, 4, 8, 1];
    assert_eq!(
        decode_frame_with(&frame, 0x0403_0201),
        Ok(WireMessage { msg_id: 1, payload: None })
    );
    assert_eq!(decode_frame_with(&frame, 0x0403_0200), Err(FrameError::CrcMismatch));
    assert_eq!(decode_frame_with(&frame[..10], 0x0403_0201), Err(FrameError::LengthMismatch));
    assert_eq!(payload_in(&frame), Ok(&frame[9..]));
    assert_eq!(payload_in(&frame[1..]), Err(FrameError::BadMagic));
}

use lander::behavior::{animation_duration_ms, animation_profile_for_category, app_icon_hint_for};
use lander::behavior::{behavior_for_event, default_notification_for_preset, if_empty_then};
use lander::behavior::{map_category, whole_number_bits, BehaviorProfile};
use lander::ble_server::{BleState, BtStatus, GapEvent, GapOutcome, GattsEvent, GattsOutcome};
use lander::ble_server::WriteResponse;
use lander::button::{generate_pairing_code, poll_pairing_button, PairingButtonState};
use lander::device::{ack_message, after_write, is_ack, is_held, next_slice_ms, reply_to, slides};
use lander::device::{next_slide, SlideStep};
use lander::device::{usb_slides, Effect, Picture, Robot, ScreenStep, UsbRobot, WriteStep};
use lander::led::{next_idle_interval_ms, LedAnimator, LedRun};
use lander::message::{Ack, LedAnimation, NotificationEvent, Payload, Ping, SetServo, ShowIcon};
use lander::message::{Category, Urgency, WireMessage};
use lander::uuids::{BLE_RX_CHAR_UUID_U128, BLE_TX_CHAR_UUID_U128};

const MS: u64 = 1_000_000;

fn event(app: &str, urgency: i32) -> NotificationEvent {
    NotificationEvent {
        id: String::new(),
        source_app: app.to_string(),
        title: "T".to_string(),
        body: "B".to_string(),
        urgency,
        category: 0,
        source_bundle_id: String::new(),
        sender_name: String::new(),
        sender_handle: String::new(),
        app_icon_hint: String::new(),
    }
}

fn profile(p: u32, r: u32, d: u32) -> BehaviorProfile {
    BehaviorProfile { led_pattern_id: p, led_repeats: r, servo_target_deg: d }
}

#[test]
fn urgency_decides_the_behavior() {
    assert_eq!(behavior_for_event(&event("x", Urgency::Low.number())), profile(1, 1, 60));
    assert_eq!(behavior_for_event(&event("x", Urgency::Normal.number())), profile(2, 2, 90));
    assert_eq!(behavior_for_event(&event("x", Urgency::High.number())), profile(3, 3, 150));
    assert_eq!(behavior_for_event(&event("x", Urgency::Critical.number())), profile(4, 4, 210));
    assert_eq!(behavior_for_event(&event("x", 99)), profile(2, 2, 90));
}

#[test]
fn source_overrules_the_behavior() {
    assert_eq!(behavior_for_event(&event("WhatsApp", 3)), profile(2, 4, 135));
    assert_eq!(behavior_for_event(&event("Gmail", 0)), profile(1, 1, 75));
    assert_eq!(behavior_for_event(&event("Calendar", 2)), profile(3, 3, 180));
    let mut e = event("App", 1);
    e.source_bundle_id = "com.Slack".to_string();
    assert_eq!(behavior_for_event(&e), profile(2, 2, 135));
    e.source_bundle_id = String::new();
    e.app_icon_hint = "OUTLOOK".to_string();
    assert_eq!(behavior_for_event(&e), profile(1, 2, 75));
}

#[test]
fn applications_have_categories() {
    assert_eq!(map_category("Thunderbird"), Category::Mail.number());
    assert_eq!(map_category("Microsoft Teams"), Category::Chat.number());
    assert_eq!(map_category("GNOME Calendar"), Category::Calendar.number());
    assert_eq!(map_category("Terminal"), Category::System.number());
    // Mail goes before chat.
    assert_eq!(map_category("mailchat"), Category::Mail.number());
}

#[test]
fn icons_are_found() {
    assert_eq!(app_icon_hint_for("net.WhatsApp", "x", 3), "whatsapp");
    assert_eq!(app_icon_hint_for("", "Outlook", 3), "mail");
    assert_eq!(app_icon_hint_for("com.apple.calendar", "", 3), "calendar");
    assert_eq!(app_icon_hint_for("", "Slack", Category::Chat.number()), "chat");
    assert_eq!(app_icon_hint_for("", "Slack", Category::System.number()), "system");
    assert_eq!(if_empty_then(String::new(), "y".to_string()), "y");
    assert_eq!(if_empty_then("x".to_string(), "y".to_string()), "x");
}

#[test]
fn animations_match_their_category() {
    assert_eq!(animation_profile_for_category(Category::Chat.number()), (2, 6, 200, 90));
    assert_eq!(animation_profile_for_category(Category::Mail.number()), (1, 3, 150, 90));
    assert_eq!(animation_profile_for_category(Category::Calendar.number()), (3, 3, 60, 90));
    assert_eq!(animation_profile_for_category(-5), (4, 3, 120, 90));
    assert_eq!(animation_duration_ms(1, 3), 1440);
    assert_eq!(animation_duration_ms(2, 6), 840);
    assert_eq!(animation_duration_ms(3, 3), 780);
    assert_eq!(animation_duration_ms(4, 3), 480);
}

#[test]
fn presets_are_spelled_out() {
    let (app, bundle, category, title, sender, hint) =
        default_notification_for_preset("whatsapp", "Holger", "Coffee?");
    assert_eq!((app.as_str(), bundle.as_str()), ("WhatsApp", "net.whatsapp.WhatsApp"));
    assert_eq!((category, title.as_str()), (Category::Chat.number(), "Holger: Coffee?"));
    assert_eq!((sender.as_str(), hint.as_str()), ("Holger", "whatsapp"));
    assert_eq!(default_notification_for_preset("mail", "A", "x").3, "Mail from A");
    assert_eq!(default_notification_for_preset("calendar", "A", "x").3, "Meeting with A");
    assert_eq!(default_notification_for_preset("other", "A", "x").0, "System");
}

#[test]
fn whole_numbers_have_the_right_bits() {
    for n in [0u32, 1, 2, 3, 60, 90, 135, 200, 270, 65_537, 16_777_215] {
        assert_eq!(f32::from_bits(whole_number_bits(n)), n as f32);
    }
}

#[test]
fn lamp_patterns_run_as_often_as_asked() {
    let expected: Vec<(u32, u64, Vec<u8>)> = vec![
        (1, 60, vec![1, 2, 4, 8, 16, 32, 64, 128]),
        (2, 70, vec![0b1010_1010, 0b0101_0101]),
        (3, 65, vec![0b1000_0001, 0b0100_0010, 0b0010_0100, 0b0001_1000]),
        (9, 80, vec![0xFF, 0x00]),
    ];
    for (pattern, wait, round) in expected {
        let mut run = LedRun::new();
        run.schedule(pattern, 2, 1000);
        let mut now = 1000;
        let mut seen = Vec::new();
        loop {
            let masks = run.tick(now);
            let last = masks.len() == 2;
            seen.push(masks[0]);
            if last {
                assert_eq!(masks[1], 0);
                break;
            }
            // Nothing is due before the time.
            assert!(run.tick(now + wait * MS - 1).is_empty());
            now += wait * MS;
        }
        assert_eq!(seen, [round.clone(), round].concat());
        assert_eq!(now, 1000 + (animation_duration_ms(pattern, 2) - wait) * MS);
        assert!(run.tick(now + 10_000 * MS).is_empty());
    }
}

#[test]
fn a_pattern_runs_at_least_once() {
    let mut run = LedRun::new();
    run.schedule(2, 0, 0);
    assert_eq!(run.tick(0), vec![0b1010_1010]);
    assert_eq!(run.tick(70 * MS), vec![0b0101_0101, 0]);
}

#[test]
fn a_pattern_shows_its_settings_in_order() {
    let rounds: [(u32, Vec<u8>); 4] = [
        (1, vec![1, 2, 4, 8, 16, 32, 64, 128]),
        (2, vec![0xAA, 0x55]),
        (3, vec![0x81, 0x42, 0x24, 0x18]),
        (9, vec![0xFF, 0x00]),
    ];
    for (pattern, round) in rounds {
        for repeats in [0u32, 1, 3] {
            let mut leds = LedAnimator::new(1_000_000 * MS);
            leds.schedule(pattern, repeats, 0);
            let mut expected = Vec::new();
            for _ in 0..repeats.max(1) {
                expected.extend_from_slice(&round);
            }
            let mut shown = Vec::new();
            while leds.run.repeats_left > 0 {
                // Ticks that come late leave nothing out.
                let now = leds.run.next_at.unwrap() + 7 * MS;
                let lamps = leds.tick(now, 0);
                shown.push(lamps[0]);
                if leds.run.repeats_left > 0 {
                    assert_eq!(lamps.len(), 1);
                } else {
                    assert_eq!(lamps[1..], [0x02]);
                }
            }
            assert_eq!(shown, expected);
            assert_eq!(leds.run.next_at, None);
            // The board that goes dark shows the same.
            let mut run = LedRun::new();
            run.schedule(pattern, repeats, 0);
            let mut dark = Vec::new();
            while let Some(next) = run.next_at {
                dark.extend(run.tick(next + 7 * MS));
            }
            expected.push(0);
            assert_eq!(dark, expected);
        }
    }
}

#[test]
fn idle_lamp_blinks() {
    let mut leds = LedAnimator::new(0);
    assert_eq!(leds.tick(0, 0), vec![0b0001_0010]);
    assert_eq!(leds.tick(99 * MS, 0), vec![0b0001_0010]);
    assert_eq!(leds.tick(100 * MS, 1900), vec![0b0000_0010]);
    assert_eq!(leds.tick(2099 * MS, 0), vec![0b0000_0010]);
    assert_eq!(leds.tick(2100 * MS, 0), vec![0b0001_0010]);
    assert_eq!(next_idle_interval_ms(1900), 2000);
    assert_eq!(next_idle_interval_ms(1901), 100);
}

#[test]
fn lamps_go_back_to_idle_after_a_pattern() {
    let mut leds = LedAnimator::new(1_000_000 * MS);
    leds.schedule(4, 1, 0);
    assert_eq!(leds.tick(0, 0), vec![0xFF]);
    assert!(leds.tick(1, 0).is_empty());
    assert_eq!(leds.tick(80 * MS, 0), vec![0x00, 0b0000_0010]);
    assert_eq!(leds.tick(81 * MS, 0), vec![0b0000_0010]);
}

#[test]
fn held_button_fires_once() {
    let mut b = PairingButtonState::new();
    assert!(!b.poll_long_press(true, 5));
    assert!(!b.poll_long_press(true, 5 + 999 * MS));
    assert!(b.poll_long_press(true, 5 + 1000 * MS));
    assert!(!b.poll_long_press(true, 5 + 5000 * MS));
    assert!(!b.poll_long_press(false, 5 + 5001 * MS));
    assert!(!b.poll_long_press(true, 5 + 5002 * MS));
    assert!(b.poll_long_press(true, 5 + 6002 * MS));
}

#[test]
fn button_gives_a_code_of_six_digits() {
    assert_eq!(generate_pairing_code(0), 100_000);
    assert_eq!(generate_pairing_code(899_999), 999_999);
    assert_eq!(generate_pairing_code(900_000), 100_000);
    let mut b = PairingButtonState::new();
    assert_eq!(poll_pairing_button(&mut b, true, 0, 7), None);
    assert_eq!(poll_pairing_button(&mut b, true, 2000 * MS, 7), Some(100_007));
}

#[test]
fn messages_have_effects() {
    let mut robot = Robot::new(0);
    let servo = WireMessage {
        msg_id: 1,
        payload: Some(Payload::SetServo(SetServo { angle_bits: 77 })),
    };
    assert_eq!(robot.apply_wire_message(servo, 0, 0), vec![Effect::Servo(77)]);
    let led = WireMessage {
        msg_id: 2,
        payload: Some(Payload::LedAnimation(LedAnimation { pattern_id: 1, repeats: 1 })),
    };
    assert_eq!(robot.apply_wire_message(led, 0, 0), vec![Effect::EnableLamps, Effect::Lamps(1)]);
    for (name, picture) in [("cat1", Picture::Cat1), ("cat2", Picture::Cat2), ("cat3", Picture::Cat3)] {
        let icon = WireMessage {
            msg_id: 3,
            payload: Some(Payload::ShowIcon(ShowIcon { icon_id: name.to_string() })),
        };
        assert_eq!(robot.apply_wire_message(icon, 0, 0), vec![Effect::Show(picture)]);
    }
    let unknown = WireMessage {
        msg_id: 4,
        payload: Some(Payload::ShowIcon(ShowIcon { icon_id: "dog".to_string() })),
    };
    assert_eq!(
        robot.apply_wire_message(unknown, 0, 0),
        vec![Effect::UnknownIcon("dog".to_string())]
    );
    let ping = WireMessage { msg_id: 5, payload: Some(Payload::Ping(Ping { unix_ms: 1 })) };
    assert!(robot.apply_wire_message(ping, 0, 0).is_empty());
    assert!(robot.apply_wire_message(WireMessage { msg_id: 6, payload: None }, 0, 0).is_empty());
    assert_eq!(robot.hold_until, None);
}

#[test]
fn notification_keeps_the_display_for_five_seconds() {
    let mut robot = Robot::new(0);
    let msg = WireMessage { msg_id: 1, payload: Some(Payload::Notification(event("App", 1))) };
    assert!(matches!(robot.apply_wire_message(msg, 10, 0)[..], [Effect::Card(_)]));
    assert_eq!(robot.hold_until, Some(10 + 5000 * MS));
    assert_eq!(robot.next_screen(false, None, 10 + 4999 * MS), ScreenStep::KeepCard);
    assert_eq!(robot.next_screen(false, None, 10 + 5000 * MS), ScreenStep::Slides);
    assert_eq!(robot.hold_until, None);
    assert!(is_held(Some(5), 4));
    assert!(!is_held(Some(5), 5));
    assert!(!is_held(None, 0));
}

#[test]
fn pairing_code_goes_before_everything() {
    let mut robot = Robot::new(0);
    robot.hold_until = Some(1000);
    assert_eq!(robot.next_screen(true, Some(123_456), 0), ScreenStep::DrawCode(123_456));
    assert_eq!(robot.next_screen(true, Some(123_456), 0), ScreenStep::KeepCode);
    assert_eq!(robot.next_screen(true, Some(654_321), 0), ScreenStep::DrawCode(654_321));
    assert_eq!(robot.next_screen(false, None, 0), ScreenStep::KeepCard);
    // Drawn anew when pairing starts again.
    assert_eq!(robot.next_screen(true, Some(654_321), 0), ScreenStep::DrawCode(654_321));
}

#[test]
fn usb_robot_starts_lamps_with_the_next_tick() {
    let mut robot = UsbRobot::new();
    let led = WireMessage {
        msg_id: 2,
        payload: Some(Payload::LedAnimation(LedAnimation { pattern_id: 4, repeats: 1 })),
    };
    assert!(robot.apply_wire_message(led, 3).is_empty());
    assert_eq!(robot.leds.tick(3), vec![0xFF]);
    let msg = WireMessage { msg_id: 1, payload: Some(Payload::Notification(event("App", 1))) };
    robot.apply_wire_message(msg, 0);
    assert!(robot.keeps_card(5000 * MS - 1));
    assert!(!robot.keeps_card(5000 * MS));
    assert_eq!(robot.hold_until, None);
}

#[test]
fn slides_last_as_long_as_they_should() {
    assert_eq!(slides(4000)[0], (Picture::Cat1, 5000));
    assert_eq!(slides(4001), vec![(Picture::Cat1, 1000), (Picture::Cat2, 100), (Picture::Cat3, 100)]);
    assert_eq!(
        usb_slides(),
        vec![(Picture::Cat1, 300), (Picture::Cat2, 300), (Picture::Cat3, 300)]
    );
}

#[test]
fn a_round_shows_every_picture() {
    let mut step = SlideStep::Look(0);
    let mut steps = Vec::new();
    while step != SlideStep::Done {
        steps.push(step);
        step = next_slide(step, 3, false);
    }
    assert_eq!(
        steps,
        vec![
            SlideStep::Look(0),
            SlideStep::Show(0),
            SlideStep::Look(1),
            SlideStep::Show(1),
            SlideStep::Look(2),
            SlideStep::Show(2),
        ]
    );
    // A card ends the round, before a picture and behind it.
    assert_eq!(next_slide(SlideStep::Look(1), 3, true), SlideStep::Done);
    assert_eq!(next_slide(SlideStep::Show(1), 3, true), SlideStep::Done);
    assert_eq!(next_slide(SlideStep::Done, 3, false), SlideStep::Done);
    assert_eq!(next_slide(SlideStep::Show(usize::MAX), 3, false), SlideStep::Done);
}

#[test]
fn waits_are_cut_into_slices() {
    let mut remaining = 50;
    let mut slices = Vec::new();
    while remaining > 0 {
        let s = next_slice_ms(remaining);
        slices.push(s);
        remaining -= s;
    }
    assert_eq!(slices, vec![20, 20, 10]);
}

#[test]
fn messages_are_answered() {
    let ack = |id: u32, of: u32, ok: bool, error: &str| WireMessage {
        msg_id: id,
        payload: Some(Payload::Ack(Ack { msg_id: of, ok, error: error.to_string() })),
    };
    assert_eq!(reply_to(7, false, true), Some(ack(10_007, 7, true, "")));
    assert_eq!(reply_to(7, false, false), Some(ack(10_007, 7, false, "command queue full")));
    assert_eq!(reply_to(7, true, true), None);
    assert_eq!(reply_to(7, true, false), None);
    assert_eq!(ack_message(u32::MAX, true, String::new()).msg_id, u32::MAX);
    assert!(is_ack(&ack(1, 2, true, "")));
    assert!(!is_ack(&WireMessage { msg_id: 1, payload: None }));
}

#[test]
fn usb_frames_are_written_to_the_end() {
    assert_eq!(after_write(0, 10, 30), WriteStep::WriteFrom(10));
    assert_eq!(after_write(10, 0, 30), WriteStep::WaitThenWriteFrom(10));
    assert_eq!(after_write(10, 20, 30), WriteStep::Done);
}

fn served() -> BleState {
    let mut s = BleState::new();
    assert_eq!(
        s.on_gatts_event(GattsEvent::ServiceRegistered { ok: true, gatt_if: 3, app_id: 0 }),
        GattsOutcome::CreateService { gatt_if: 3 }
    );
    assert_eq!(
        s.on_gatts_event(GattsEvent::ServiceCreated { ok: true, service_handle: 40 }),
        GattsOutcome::StartService { service_handle: 40 }
    );
    assert_eq!(
        s.on_gatts_event(GattsEvent::CharacteristicAdded {
            ok: true,
            attr_handle: 42,
            service_handle: 40,
            uuid: Some(BLE_RX_CHAR_UUID_U128),
        }),
        GattsOutcome::Nothing
    );
    assert_eq!(
        s.on_gatts_event(GattsEvent::CharacteristicAdded {
            ok: true,
            attr_handle: 44,
            service_handle: 40,
            uuid: Some(BLE_TX_CHAR_UUID_U128),
        }),
        GattsOutcome::AddCccd { service_handle: 40 }
    );
    assert_eq!(
        s.on_gatts_event(GattsEvent::DescriptorAdded {
            ok: true,
            attr_handle: 45,
            service_handle: 40,
            short_uuid: Some(0x2902),
        }),
        GattsOutcome::Nothing
    );
    s
}

fn write(conn_id: u16, handle: u16, value: &[u8], need_rsp: bool, is_prep: bool) -> GattsEvent {
    GattsEvent::Write { conn_id, handle, offset: 0, need_rsp, is_prep, value: value.to_vec() }
}

#[test]
fn service_is_set_up_step_by_step() {
    let s = served();
    assert_eq!((s.rx_handle, s.tx_handle, s.tx_cccd_handle), (Some(42), Some(44), Some(45)));
    // Attributes of another service are none of ours.
    let mut t = served();
    t.on_gatts_event(GattsEvent::CharacteristicAdded {
        ok: true,
        attr_handle: 99,
        service_handle: 41,
        uuid: Some(BLE_RX_CHAR_UUID_U128),
    });
    assert_eq!(t.rx_handle, Some(42));
    assert_eq!(
        t.on_gatts_event(GattsEvent::ServiceCreated { ok: false, service_handle: 1 }),
        GattsOutcome::BadStatus
    );
}

#[test]
fn only_subscribers_are_notified() {
    let mut s = served();
    for i in 0..3u16 {
        assert_eq!(
            s.on_gatts_event(GattsEvent::PeerConnected { conn_id: i, addr: 100 + i as u64 }),
            GattsOutcome::RequestEncryption { addr: 100 + i as u64 }
        );
    }
    assert_eq!(s.notify_targets(), Some((3, 44, vec![])));
    s.on_gatts_event(write(2, 45, &[1, 0], false, false));
    s.on_gatts_event(write(0, 45, &[1, 0], false, false));
    assert_eq!(s.notify_targets(), Some((3, 44, vec![0, 2])));
    s.on_gatts_event(write(0, 45, &[0, 0], false, false));
    // A write of another length changes nothing.
    s.on_gatts_event(write(2, 45, &[0], false, false));
    assert_eq!(s.notify_targets(), Some((3, 44, vec![2])));
    assert_eq!(BleState::new().notify_targets(), None);
}

#[test]
fn there_is_room_for_three_peers() {
    let mut s = served();
    for i in 0..5u16 {
        s.on_gatts_event(GattsEvent::PeerConnected { conn_id: i, addr: i as u64 });
    }
    assert_eq!(s.connections.len(), 3);
    s.on_gatts_event(GattsEvent::PeerDisconnected { addr: 0 });
    // The last one took the place of the first.
    let ids: Vec<u16> = s.connections.iter().map(|c| c.conn_id).collect();
    assert_eq!(ids, vec![2, 1]);
}

#[test]
fn writes_are_delivered_and_answered() {
    let mut s = served();
    assert_eq!(
        s.on_gatts_event(write(0, 42, &[9, 8], true, false)),
        GattsOutcome::Written { deliver: Some(vec![9, 8]), response: WriteResponse::Plain }
    );
    assert_eq!(
        s.on_gatts_event(write(0, 42, &[9], true, true)),
        GattsOutcome::Written { deliver: Some(vec![9]), response: WriteResponse::Echo }
    );
    assert_eq!(
        s.on_gatts_event(write(0, 45, &[1, 0], false, true)),
        GattsOutcome::Written { deliver: None, response: WriteResponse::NoResponse }
    );
    assert_eq!(s.on_gatts_event(write(0, 77, &[1], true, false)), GattsOutcome::Nothing);
}

#[test]
fn advertising_starts_once_both_parts_are_set() {
    let mut s = served();
    assert_eq!(
        s.on_gap_event(GapEvent::AdvertisingConfigured(BtStatus::Success)),
        GapOutcome::Nothing
    );
    assert_eq!(
        s.on_gap_event(GapEvent::ScanResponseConfigured(BtStatus::Success)),
        GapOutcome::StartAdvertising
    );
    // It is not begun twice.
    assert!(!s.maybe_start_advertising());
    s.advertising_failed();
    assert!(s.maybe_start_advertising());
    assert_eq!(
        s.on_gap_event(GapEvent::AdvertisingStarted(BtStatus::Success)),
        GapOutcome::Nothing
    );
    assert!(s.advertising_enabled && !s.advertising_starting);
    assert_eq!(
        s.on_gap_event(GapEvent::AdvertisingStopped(BtStatus::Pending)),
        GapOutcome::StartAdvertising
    );
    assert_eq!(
        s.on_gap_event(GapEvent::AdvertisingStarted(BtStatus::Failed)),
        GapOutcome::BadStatus
    );
    assert_eq!(
        s.on_gap_event(GapEvent::RawAdvertisingConfigured(BtStatus::Failed)),
        GapOutcome::BadStatus
    );
}

#[test]
fn pairing_ends_with_success_and_is_remembered() {
    let mut s = served();
    s.enter_pairing_mode(123_456);
    assert!(s.is_pairing_mode());
    s.on_gatts_event(GattsEvent::PeerConnected { conn_id: 1, addr: 5 });
    s.on_gap_event(GapEvent::AuthenticationComplete { addr: 5, status: BtStatus::Failed });
    assert_eq!(s.current_pairing_code(), Some(123_456));
    assert!(!s.connections[0].paired);
    s.on_gap_event(GapEvent::AuthenticationComplete { addr: 5, status: BtStatus::Success });
    assert_eq!(s.current_pairing_code(), None);
    assert!(!s.is_pairing_mode());
    assert!(s.connections[0].paired);
    s.on_gap_event(GapEvent::AuthenticationComplete { addr: 5, status: BtStatus::Success });
    assert_eq!(s.paired_peers, vec![5]);
    s.on_gatts_event(GattsEvent::PeerDisconnected { addr: 5 });
    s.on_gatts_event(GattsEvent::PeerConnected { conn_id: 2, addr: 5 });
    assert!(s.connections[0].paired);
}

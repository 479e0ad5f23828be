use lander::behavior::whole_number_bits;
use lander::bluez::{answers, confirmation_reply, device_path_for_address, parse_number};
use lander::bluez::passkey_from_input;
use lander::bluez::{passkey_reply, pin_from_input, pin_reply, trust_steps, BluezObject};
use lander::bluez::{DeviceAddress, PairingDialog, PairingPoll, PairingResponse, PairingState};
use lander::bluez::{PromptKind, TrustStep};
use lander::cli::{default_port, preset_name, progress_text, runs_headless, simulation_text};
use lander::cli::{first_headless_step, next_headless_step, HeadlessOutcome, HeadlessStep};
use lander::cli::HeadlessTask;
use lander::command::{forwarded_notification, next_id_after_step, ping_step, take_next_msg_id};
use lander::command::{simulated_notification, CommandRequest, ForwardedNotification, Step};
use lander::command::{first_step, next_step, RunPoint};
use lander::controller::{is_broken_pipe_error, Cause, Clock, CommandResult, ConnectFailure};
use lander::controller::{ConnectResult, ControlAction, DisconnectResult, ScanResult};
use lander::controller::SharedController;
use lander::device::{ack_message, Picture};
use lander::frame::{encode_frame, FrameError, StreamDecoder};
use lander::gui::{connection_button, controls_enabled, is_busy, is_dark_setting, picture_name};
use lander::gui::{names_dark_theme, scan_enabled, shortcuts, status_line, toggle_disconnects};
use lander::gui::{tray_menu, tray_symbol, tray_update, ConnectionButton, Keys, Shortcut, Snapshot};
use lander::gui::{StatusLine, TrayAction, Words};
use lander::link::{ack_overdue, ble_device_display_name, ble_device_id, find_characteristic};
use lander::link::{frame_chunks, on_link_event, peripheral_matches, robot_label, robot_labels};
use lander::link::{sort_labels, LinkEvent, SeenDevice, WaitOutcome};
use lander::message::{Category, LedAnimation, NotificationEvent, Payload, Ping, SetServo, ShowIcon};
use lander::message::WireMessage;
use lander::uuids::{ble_rx_uuid, ble_service_uuid, ble_tx_uuid};

const T: Clock = Clock { unix_ms: 7, nanos: 1_000 };

fn later(ms: u64) -> Clock {
    Clock { unix_ms: 8, nanos: 1_000 + ms * 1_000_000 }
}

fn send(msg_id: u32, payload: Payload) -> Step {
    Step::Send(WireMessage { msg_id, payload: Some(payload) })
}

fn servo(deg: u32) -> Payload {
    Payload::SetServo(SetServo { angle_bits: whole_number_bits(deg) })
}

#[test]
fn requests_have_labels() {
    assert_eq!(CommandRequest::Ping.label(), "Sending ping...");
    let servo = CommandRequest::Servo { angle_bits: 0, angle_text: "90.0".to_string() };
    assert_eq!(servo.label(), "Setting servo to 90.0 deg...");
    assert_eq!(servo.done_text(), "SetServo 90.0 deg ACKed");
    let led = CommandRequest::Led { pattern_id: 2, repeats: 13 };
    assert_eq!(led.label(), "Running LED pattern 2 x13...");
    assert_eq!(led.done_text(), "LedAnimation p=2 r=13 ACKed");
    let icon = CommandRequest::Icon { icon_id: "cat1".to_string() };
    assert_eq!(icon.label(), "Showing icon 'cat1'...");
    assert_eq!(icon.done_text(), "ShowIcon 'cat1' ACKed");
    let note = CommandRequest::NotificationAndAnimation {
        preset: "mail".to_string(),
        from: "A".to_string(),
        text: "x".to_string(),
    };
    assert_eq!(note.label(), "Sending 'mail' notification...");
    assert_eq!(note.done_text(), "Notification 'Outlook' ACKed");
}

#[test]
fn simple_requests_are_one_message() {
    assert_eq!(
        CommandRequest::Ping.steps(5, 99),
        vec![send(5, Payload::Ping(Ping { unix_ms: 99 }))]
    );
    assert_eq!(
        CommandRequest::Servo { angle_bits: 3, angle_text: String::new() }.steps(5, 0),
        vec![send(5, Payload::SetServo(SetServo { angle_bits: 3 }))]
    );
    assert_eq!(
        CommandRequest::Led { pattern_id: 1, repeats: 2 }.steps(5, 0),
        vec![send(5, Payload::LedAnimation(LedAnimation { pattern_id: 1, repeats: 2 }))]
    );
    assert_eq!(
        CommandRequest::Icon { icon_id: "x".to_string() }.steps(5, 0),
        vec![send(5, Payload::ShowIcon(ShowIcon { icon_id: "x".to_string() }))]
    );
    assert_eq!(ping_step(1, 4), send(1, Payload::Ping(Ping { unix_ms: 4 })));
}

#[test]
fn notification_is_followed_by_its_animation() {
    let steps = CommandRequest::NotificationAndAnimation {
        preset: "whatsapp".to_string(),
        from: "Bob".to_string(),
        text: "Hi".to_string(),
    }
    .steps(10, 0);
    let event = NotificationEvent {
        id: "gui-whatsapp-10".to_string(),
        source_app: "WhatsApp".to_string(),
        title: "Bob: Hi".to_string(),
        body: "Hi".to_string(),
        urgency: 1,
        category: Category::Chat.number(),
        source_bundle_id: "net.whatsapp.WhatsApp".to_string(),
        sender_name: "Bob".to_string(),
        sender_handle: String::new(),
        app_icon_hint: "whatsapp".to_string(),
    };
    assert_eq!(
        steps,
        vec![
            send(10, Payload::Notification(event)),
            send(11, servo(200)),
            send(12, Payload::LedAnimation(LedAnimation { pattern_id: 2, repeats: 6 })),
            Step::Sleep(940),
            send(13, servo(90)),
        ]
    );
}

#[test]
fn simulated_and_forwarded_notifications_are_named() {
    let steps = simulated_notification("system", "A", "x", 3);
    match &steps[0] {
        Step::Send(m) => match &m.payload {
            Some(Payload::Notification(e)) => {
                assert_eq!(e.id, "sim-system-3");
                assert_eq!(e.app_icon_hint, "system");
            }
            _ => panic!("no notification"),
        },
        _ => panic!("no message"),
    }
    assert_eq!(steps.len(), 5);
    let mut event = ForwardedNotification {
        source_app: "Slack".to_string(),
        source_bundle_id: String::new(),
        notification_id: String::new(),
        title: "T".to_string(),
        body: "B".to_string(),
        sender_name: "S".to_string(),
        category: Category::Chat.number(),
    };
    let id = |steps: Vec<Step>| match &steps[0] {
        Step::Send(m) => match &m.payload {
            Some(Payload::Notification(e)) => (e.id.clone(), e.app_icon_hint.clone()),
            _ => panic!("no notification"),
        },
        _ => panic!("no message"),
    };
    assert_eq!(id(forwarded_notification(&event, 8)), ("host-8".to_string(), "chat".to_string()));
    event.notification_id = "abc".to_string();
    assert_eq!(id(forwarded_notification(&event, 8)).0, "host-abc");
    let forward = CommandRequest::ForwardedNotification(event);
    assert_eq!(forward.label(), "Forwarding 'Slack' notification...");
    assert_eq!(forward.done_text(), "Forwarded desktop notification from 'Slack'");
    assert_eq!(forward.steps(8, 0).len(), 5);
}

#[test]
fn numbers_stay_at_the_largest() {
    let mut next = u32::MAX - 1;
    assert_eq!(take_next_msg_id(&mut next), u32::MAX - 1);
    assert_eq!(take_next_msg_id(&mut next), u32::MAX);
    assert_eq!(take_next_msg_id(&mut next), u32::MAX);
    assert_eq!(next_id_after_step(&ping_step(4, 0), 1), 5);
    assert_eq!(next_id_after_step(&Step::Sleep(1), 9), 9);
}

#[test]
fn frames_are_cut_for_writing() {
    let frame: Vec<u8> = (0..=255u8).cycle().take(400).collect();
    let pieces = frame_chunks(&frame);
    assert_eq!(pieces.iter().map(|p| p.len()).collect::<Vec<_>>(), vec![180, 180, 40]);
    assert_eq!(pieces.concat(), frame);
    assert!(frame_chunks(&[]).is_empty());
    assert_eq!(frame_chunks(&frame[..180]).len(), 1);
}

#[test]
fn answer_is_recognised_in_pieces() {
    let frame = encode_frame(&ack_message(3, true, String::new())).unwrap();
    for cut in 0..frame.len() {
        let mut d = StreamDecoder::new();
        let first = on_link_event(&mut d, 3, LinkEvent::Bytes(frame[..cut].to_vec()));
        assert_eq!(first, WaitOutcome::Waiting);
        assert_eq!(on_link_event(&mut d, 3, LinkEvent::Quiet), WaitOutcome::Waiting);
        let second = on_link_event(&mut d, 3, LinkEvent::Bytes(frame[cut..].to_vec()));
        assert_eq!(second, WaitOutcome::Acked);
    }
}

#[test]
fn waiting_for_an_answer_can_fail() {
    let mut d = StreamDecoder::new();
    let refusal = encode_frame(&ack_message(3, false, "command queue full".to_string())).unwrap();
    // The refusal of another message is not ours.
    assert_eq!(
        on_link_event(&mut d, 4, LinkEvent::Bytes(refusal.clone())),
        WaitOutcome::Waiting
    );
    assert_eq!(
        on_link_event(&mut d, 3, LinkEvent::Bytes(refusal.clone())),
        WaitOutcome::Failed {
            text: "firmware NACK for 3: command queue full".to_string(),
            cause: None,
        }
    );
    assert_eq!(
        on_link_event(&mut d, 3, LinkEvent::Closed),
        WaitOutcome::Failed { text: "BLE notification stream closed".to_string(), cause: None }
    );
    let mut bad = refusal;
    bad[6] ^= 1;
    assert_eq!(
        on_link_event(&mut d, 3, LinkEvent::Bytes(bad)),
        WaitOutcome::Failed {
            text: "failed to decode inbound frame".to_string(),
            cause: Some(FrameError::CrcMismatch),
        }
    );
    assert_eq!(ack_overdue(3, 899_999_999, 900), None);
    assert_eq!(
        ack_overdue(3, 900_000_000, 900),
        Some("timed out waiting for ACK for msg_id 3".to_string())
    );
}

#[test]
fn labels_have_two_parts() {
    assert_eq!(ble_device_display_name("hci0/dev|lander001|x"), "lander001|x");
    assert_eq!(ble_device_display_name("lander001"), "lander001");
    assert_eq!(ble_device_id("hci0/dev|lander001"), "hci0/dev");
    assert_eq!(ble_device_id("lander001"), "lander001");
}

#[test]
fn robots_are_listed() {
    let some = |s: &str| Some(s.to_string());
    assert_eq!(robot_label("id", false, &some("My LANDER001 #2")), some("id|My LANDER001 #2"));
    assert_eq!(robot_label("id", true, &None), some("id|(unnamed)"));
    assert_eq!(robot_label("id", false, &some("other")), None);
    assert_eq!(robot_label("id", false, &None), None);
    let labels = vec!["b|1".to_string(), "a|2".to_string(), "b".to_string(), "a|2".to_string()];
    assert_eq!(sort_labels(labels), vec!["a|2", "a|2", "b", "b|1"]);
    let device = |id: &str, has_service: bool, name: Option<String>| SeenDevice {
        id: id.to_string(),
        has_service,
        local_name: name,
    };
    assert_eq!(
        robot_labels(&[
            device("z", true, None),
            device("y", false, some("radio")),
            device("x", false, some("lander001")),
            device("x", true, some("lander001")),
        ]),
        vec!["x|lander001", "x|lander001", "z|(unnamed)"]
    );
    assert!(robot_labels(&[]).is_empty());
}

#[test]
fn chosen_robot_is_found() {
    assert!(peripheral_matches("id1", "", false, "id1"));
    assert!(peripheral_matches("id2", "My Robot", false, "robot"));
    assert!(peripheral_matches("id2", "x", true, "Lander001"));
    assert!(!peripheral_matches("id2", "x", false, "lander001"));
    assert!(!peripheral_matches("id2", "x", true, "id1"));
}

#[test]
fn characteristics_are_found_by_number() {
    assert_eq!(find_characteristic(&[5, 7, 7], 7), Some(1));
    assert_eq!(find_characteristic(&[5], 7), None);
}

#[test]
fn numbers_of_the_service_agree_on_both_sides() {
    assert_eq!(ble_service_uuid(), Ok(0x0ad91b20173440479e173bed82d75f9d));
    assert_eq!(ble_tx_uuid(), Ok(0x503de214868246c4828fd59144da41be));
    assert_eq!(ble_rx_uuid(), Ok(0xb6fccb5087be44f3ae22f85485ea42c4));
}

fn connected() -> SharedController {
    let mut c = SharedController::new(vec!["id|Robo".to_string()]);
    assert_eq!(c.connect(T), ControlAction::Connect("id|Robo".to_string()));
    let run = c.connect_finished(ConnectResult::Connected { close_error: None }, T);
    assert_eq!(run, ControlAction::Run(1));
    c.command_finished(
        CommandResult::Done { next_msg_id: 2, messages: vec!["Ping ACKed".to_string()] },
        later(750),
    );
    c
}

#[test]
fn robot_is_greeted_with_a_ping() {
    let c = connected();
    assert!(c.is_connected() && !c.is_command_pending());
    assert_eq!(c.connected_port_name(), Some("Robo".to_string()));
    assert_eq!(c.next_msg_id, 2);
    assert_eq!(
        c.logs,
        vec![
            "[7] Connecting to Robo",
            "[7] Connected to Robo",
            "[7] Sending ping...",
            "[8] Ping ACKed",
        ]
    );
}

#[test]
fn slow_operations_are_mentioned() {
    let mut c = connected();
    let action = c.start_command(&CommandRequest::Led { pattern_id: 1, repeats: 1 }, T);
    assert_eq!(action, ControlAction::Run(2));
    c.command_finished(
        CommandResult::Failed { next_msg_id: 3, error: "late".to_string(), broken_pipe: false },
        later(751),
    );
    assert_eq!(c.logs[5], "[8] Error: late");
    assert_eq!(c.logs[6], "[8] Running LED pattern 1 x1... done in 751 ms");
    assert!(c.is_connected());
}

#[test]
fn lost_connection_is_given_up() {
    let mut c = connected();
    c.start_command(&CommandRequest::Ping, T);
    c.command_finished(
        CommandResult::Failed { next_msg_id: 3, error: "gone".to_string(), broken_pipe: true },
        T,
    );
    assert!(!c.is_connected());
    assert_eq!(c.logs.last().unwrap(), "[7] Connection lost on Robo");
    assert_eq!(c.start_command(&CommandRequest::Ping, T), ControlAction::Nothing);
    assert_eq!(c.logs.last().unwrap(), "[7] Not connected");
}

#[test]
fn operations_exclude_each_other() {
    let mut c = connected();
    assert_eq!(c.connect(T), ControlAction::Nothing);
    assert_eq!(c.logs.last().unwrap(), "[7] Already connected");
    c.start_command(&CommandRequest::Ping, T);
    assert_eq!(c.start_command(&CommandRequest::Ping, T), ControlAction::Nothing);
    assert_eq!(c.logs.last().unwrap(), "[7] Another command is already in progress");
    assert_eq!(c.scan_ports(T), ControlAction::Nothing);
    assert_eq!(c.logs.last().unwrap(), "[7] Command in progress");
    assert_eq!(c.disconnect(T), ControlAction::Nothing);
    assert_eq!(
        c.logs.last().unwrap(),
        "[7] Command in progress; wait for it to finish or time out"
    );
    c.command_finished(CommandResult::WorkerGone, T);
    assert_eq!(c.logs.last().unwrap(), "[7] Command worker for Robo exited unexpectedly");
    assert_eq!(c.disconnect(T), ControlAction::Nothing);
    assert_eq!(c.logs.last().unwrap(), "[7] Already disconnected");
}

#[test]
fn scan_finds_robots() {
    let mut c = SharedController::new(vec!["a|1".to_string(), "b|2".to_string()]);
    c.select_port(1);
    assert_eq!(c.selected_port_name(), Some("b|2".to_string()));
    assert_eq!(c.scan_ports(T), ControlAction::Scan);
    assert_eq!(c.scan_status(), Some("Scanning for BLE devices..."));
    assert_eq!(c.scan_ports(T), ControlAction::Nothing);
    assert_eq!(c.logs.last().unwrap(), "[7] Scan already in progress");
    assert_eq!(c.connect(T), ControlAction::Nothing);
    assert_eq!(c.logs.last().unwrap(), "[7] Scan in progress");
    c.scan_finished(ScanResult::Found(vec!["c|3".to_string()]), later(800));
    assert!(!c.is_scanning());
    assert_eq!(c.selected_port_name(), Some("c|3".to_string()));
    let n = c.logs.len();
    assert_eq!(c.logs[n - 2], "[8] Found 1 BLE device(s)");
    assert_eq!(c.logs[n - 1], "[8] Scan done in 800 ms");
    c.scan_ports(T);
    c.scan_finished(ScanResult::Failed("no adapter".to_string()), T);
    assert_eq!(c.logs.last().unwrap(), "[7] Scan failed: no adapter");
    c.scan_ports(T);
    c.scan_finished(ScanResult::WorkerGone, T);
    assert_eq!(c.logs.last().unwrap(), "[7] Scan worker exited unexpectedly");
    let mut empty = SharedController::new(vec![]);
    assert_eq!(empty.connect(T), ControlAction::Nothing);
    assert_eq!(empty.logs, vec!["[7] No BLE device selected"]);
}

#[test]
fn connecting_can_be_called_off() {
    let mut c = SharedController::new(vec!["id|Robo".to_string()]);
    c.connect(T);
    c.connect_progress("Opening BLE link...".to_string());
    assert_eq!(c.connect_status(), Some("Opening BLE link...".to_string()));
    assert_eq!(c.connect_target_name(), Some("Robo".to_string()));
    assert_eq!(c.disconnect(T), ControlAction::Cancel);
    assert!(c.is_cancelled());
    let failure = ConnectFailure {
        brief: "BLE connection Cancelled".to_string(),
        full: "x".to_string(),
    };
    assert_eq!(c.connect_finished(ConnectResult::Failed(failure), T), ControlAction::Nothing);
    assert_eq!(
        c.logs,
        vec![
            "[7] Connecting to Robo",
            "[7] Cancelling connection to Robo",
            "[7] Cancelled connection to Robo",
        ]
    );
    c.connect(T);
    c.disconnect(T);
    let closed = ConnectResult::Connected { close_error: Some("stuck".to_string()) };
    assert_eq!(c.connect_finished(closed, T), ControlAction::Nothing);
    assert!(!c.is_connected());
    let n = c.logs.len();
    assert_eq!(c.logs[n - 2], "[7] Error: stuck");
    assert_eq!(c.logs[n - 1], "[7] Cancelled connection to Robo");
    c.connect(T);
    c.disconnect(T);
    c.connect_finished(ConnectResult::WorkerGone, T);
    assert_eq!(
        c.logs.last().unwrap(),
        "[7] Connect worker stopped: BLE connect worker exited unexpectedly"
    );
    c.connect(T);
    let failure = ConnectFailure { brief: "b".to_string(), full: "a: b".to_string() };
    c.connect_finished(ConnectResult::Failed(failure), T);
    assert_eq!(c.logs.last().unwrap(), "[7] Failed to connect: a: b");
}

#[test]
fn robot_is_disconnected() {
    let mut c = connected();
    assert_eq!(c.disconnect(T), ControlAction::Disconnect);
    assert_eq!(c.disconnect_status(), Some("Disconnecting from Robo...".to_string()));
    assert_eq!(c.disconnect(T), ControlAction::Nothing);
    c.disconnect_finished(DisconnectResult::Closed, later(1000));
    let n = c.logs.len();
    assert_eq!(c.logs[n - 2], "[8] Disconnected from Robo");
    assert_eq!(c.logs[n - 1], "[8] Disconnect done in 1000 ms");
    let mut d = connected();
    d.disconnect(T);
    d.disconnect_finished(DisconnectResult::Failed("busy".to_string()), T);
    assert_eq!(d.logs.last().unwrap(), "[7] Disconnect failed: busy");
    let mut e = connected();
    e.disconnect(T);
    e.disconnect_finished(DisconnectResult::WorkerGone, T);
    assert_eq!(e.logs.last().unwrap(), "[7] Disconnect worker for Robo exited unexpectedly");
}

#[test]
fn log_keeps_the_newest_lines() {
    let mut c = SharedController::new(vec![]);
    for i in 0..205 {
        c.log(i, "x");
    }
    assert_eq!(c.logs.len(), 200);
    assert_eq!(c.logs[0], "[5] x");
    assert_eq!(c.logs[199], "[204] x");
}

#[test]
fn notifications_are_forwarded_only_when_idle() {
    let mut c = SharedController::new(vec![]);
    let request = CommandRequest::Ping;
    assert_eq!(c.forward_desktop_notification(&request, T), ControlAction::Nothing);
    assert!(c.logs.is_empty());
    let mut d = connected();
    assert_eq!(d.forward_desktop_notification(&request, T), ControlAction::Run(2));
    assert_eq!(d.forward_desktop_notification(&request, T), ControlAction::Nothing);
}

#[test]
fn broken_pipes_are_recognised() {
    let cause = |text: &str, io: Option<bool>| Cause { text: text.to_string(), io_broken_pipe: io };
    assert!(is_broken_pipe_error(&vec![cause("x", None), cause("os Broken Pipe (32)", None)]));
    assert!(is_broken_pipe_error(&vec![cause("x", Some(true))]));
    assert!(!is_broken_pipe_error(&vec![cause("broken pipe", Some(false))]));
    assert!(!is_broken_pipe_error(&vec![]));
}

fn snapshot() -> Snapshot {
    Snapshot {
        connected: false,
        connecting: false,
        scanning: false,
        disconnecting: false,
        command_pending: false,
    }
}

fn all_keys() -> Keys {
    Keys {
        s: true,
        c: true,
        d: true,
        p: true,
        right: true,
        left: true,
        num1: true,
        num2: true,
        num3: true,
        num4: true,
        n: true,
    }
}

#[test]
fn keys_do_what_the_state_allows() {
    assert_eq!(
        shortcuts(all_keys(), snapshot(), false),
        vec![Shortcut::Scan, Shortcut::Connect]
    );
    let on = Snapshot { connected: true, ..snapshot() };
    assert_eq!(
        shortcuts(all_keys(), on, false),
        vec![
            Shortcut::Scan,
            Shortcut::Disconnect,
            Shortcut::Ping,
            Shortcut::ServoUp,
            Shortcut::ServoDown,
            Shortcut::Led(1),
            Shortcut::Led(2),
            Shortcut::Led(3),
            Shortcut::Led(4),
            Shortcut::Notify,
        ]
    );
    assert!(shortcuts(all_keys(), on, true).is_empty());
    let busy = Snapshot { command_pending: true, ..on };
    assert!(shortcuts(all_keys(), busy, false).is_empty());
    let connecting = Snapshot { connecting: true, ..snapshot() };
    assert_eq!(shortcuts(all_keys(), connecting, false), vec![Shortcut::Disconnect]);
}

#[test]
fn buttons_follow_the_state() {
    assert_eq!(connection_button(snapshot()), ConnectionButton::Connect);
    let scanning = Snapshot { scanning: true, ..snapshot() };
    assert_eq!(connection_button(scanning), ConnectionButton::ConnectDisabled);
    assert!(is_busy(scanning) && !scan_enabled(scanning));
    let connecting = Snapshot { connecting: true, ..snapshot() };
    assert_eq!(connection_button(connecting), ConnectionButton::Cancel);
    assert!(toggle_disconnects(connecting) && !toggle_disconnects(snapshot()));
    let on = Snapshot { connected: true, ..snapshot() };
    assert_eq!(connection_button(on), ConnectionButton::Disconnect { enabled: true });
    assert!(controls_enabled(on) && scan_enabled(on) && !is_busy(on));
    let busy = Snapshot { command_pending: true, ..on };
    assert_eq!(connection_button(busy), ConnectionButton::Disconnect { enabled: false });
    assert!(!controls_enabled(busy));
    let off = Snapshot { disconnecting: true, ..on };
    assert_eq!(connection_button(off), ConnectionButton::Disconnecting);
}

fn words() -> Words {
    Words {
        port_name: Some("Robo".to_string()),
        scan_status: None,
        connect_target: Some("Robo".to_string()),
        connect_status: None,
        disconnect_status: None,
        command_status: Some("Sending ping...".to_string()),
    }
}

#[test]
fn tray_changes_with_the_state() {
    let on = Snapshot { connected: true, ..snapshot() };
    let u = tray_update(on, &words(), &None).unwrap();
    assert_eq!(u.state, "connected:Robo");
    assert_eq!(u.status, "\u{25cf} Connected: Robo");
    assert_eq!((u.connect_label, u.connect_symbol), ("Disconnect", "wifi.slash"));
    assert!(tray_update(on, &words(), &Some(u.state)).is_none());
    let scanning = Snapshot { scanning: true, ..snapshot() };
    let v = tray_update(scanning, &words(), &Some("x".to_string())).unwrap();
    assert_eq!((v.state.as_str(), v.status.as_str()), ("scanning", "\u{25cc} Scanning..."));
    assert_eq!((v.connect_label, v.connect_symbol), ("Scan", "magnifyingglass"));
    let busy = Snapshot { command_pending: true, ..on };
    let w = tray_update(busy, &words(), &None).unwrap();
    assert_eq!((w.state.as_str(), w.status.as_str()), ("busy:Sending ping...", "Sending ping..."));
    let off = tray_update(snapshot(), &words(), &None).unwrap();
    assert_eq!((off.state.as_str(), off.connect_label), ("disconnected", "Connect"));
    let connecting = Snapshot { connecting: true, ..snapshot() };
    let c = tray_update(connecting, &words(), &None).unwrap();
    assert_eq!((c.state.as_str(), c.connect_label), ("connecting:Robo", "Cancel connect"));
}

#[test]
fn status_line_follows_the_state() {
    let w = words();
    assert_eq!(
        status_line(snapshot(), &w, "0.0"),
        StatusLine::Connected("connected: Robo".to_string())
    );
    let none = Words { port_name: None, ..words() };
    assert_eq!(status_line(snapshot(), &none, "0.0"), StatusLine::Disconnected);
    let scanning = Snapshot { scanning: true, ..snapshot() };
    assert_eq!(
        status_line(scanning, &w, "1.2"),
        StatusLine::Busy("Scanning for BLE devices... (1.2s)".to_string())
    );
    let connecting = Snapshot { connecting: true, ..snapshot() };
    assert_eq!(
        status_line(connecting, &w, "1.2"),
        StatusLine::Busy("Connecting via BLE... (1.2s)".to_string())
    );
}

#[test]
fn tray_menu_lists_everything() {
    let menu = tray_menu();
    let texts: Vec<&str> = menu.iter().map(|e| e.text.as_str()).collect();
    assert_eq!(menu.len(), 22);
    assert_eq!(texts[0], "lander001 running");
    assert_eq!(texts[8..12], ["Set servo 0 deg", "Set servo 90 deg", "Set servo 180 deg", "Set servo 270 deg"]);
    assert_eq!(texts[16], "Run LED pattern 4 x3");
    assert_eq!(texts[20], "Show cat3");
    assert_eq!(menu[20].action, TrayAction::Show(Picture::Cat3));
    assert_eq!(menu[21].action, TrayAction::Quit);
    assert_eq!(tray_symbol(TrayAction::Led(2)), Some("lightbulb"));
    assert_eq!(tray_symbol(TrayAction::Label), None);
    assert_eq!(picture_name(Picture::Cat2), "cat2");
}

#[test]
fn dark_themes_are_recognised() {
    assert!(names_dark_theme(" 'Prefer-Dark'\n"));
    assert!(!names_dark_theme("'Adwaita'"));
    assert!(is_dark_setting(" Dark\n"));
    assert!(!is_dark_setting("darker"));
}

#[test]
fn command_line_is_decided() {
    assert!(runs_headless(true, false, false));
    assert!(runs_headless(false, true, false));
    assert!(!runs_headless(true, true, true));
    assert!(!runs_headless(false, false, false));
    assert_eq!(preset_name("WhatsApp"), Ok("whatsapp".to_string()));
    assert_eq!(
        preset_name("Fax"),
        Err("invalid --simulate preset 'fax'; use whatsapp|mail|calendar|system".to_string())
    );
    assert_eq!(default_port(&vec!["a".to_string(), "b".to_string()]), Ok("a".to_string()));
    assert_eq!(default_port(&vec![]), Err("no BLE devices found"));
    assert_eq!(
        simulation_text(2, "mail", "Bob"),
        "Sending 2 simulated 'mail' notification(s) from 'Bob'..."
    );
    assert_eq!(progress_text(0, 2), "Simulated notification 1/2 ACKed");
}

#[test]
fn answer_reaches_who_asked() {
    let mut s = PairingState::new();
    assert_eq!(
        s.submit_response(PairingResponse::Cancelled),
        Err("no pending BlueZ pairing prompt")
    );
    assert!(s.ask("/dev".to_string(), PromptKind::Passkey));
    assert!(!s.ask("/other".to_string(), PromptKind::PinCode));
    let p = s.current_prompt().unwrap();
    assert_eq!((p.id, p.device.as_str(), p.kind), (1, "/dev", PromptKind::Passkey));
    assert_eq!(s.poll(10, 100), PairingPoll::Wait(90));
    assert_eq!(s.submit_response(PairingResponse::Passkey(7)), Ok(()));
    assert_eq!(s.poll(10, 100), PairingPoll::Answered(PairingResponse::Passkey(7)));
    assert!(s.current_prompt().is_none());
    assert!(s.ask("/dev".to_string(), PromptKind::PinCode));
    assert_eq!(s.current_prompt().unwrap().id, 2);
    assert_eq!(s.poll(100, 100), PairingPoll::TimedOut);
    assert!(s.current_prompt().is_none());
}

#[test]
fn agent_replies() {
    let pin = |s: &str| Ok(PairingResponse::PinCode(s.to_string()));
    let no = |s: &str| Err(s.to_string());
    assert_eq!(pin_reply(pin("12")), Ok("12".to_string()));
    assert_eq!(pin_reply(pin("")), Err("pairing PIN rejected".to_string()));
    assert_eq!(
        pin_reply(Ok(PairingResponse::Cancelled)),
        Err("pairing PIN rejected".to_string())
    );
    assert_eq!(pin_reply(no("late")), Err("late".to_string()));
    assert_eq!(passkey_reply(Ok(PairingResponse::Passkey(4))), Ok(4));
    assert_eq!(passkey_reply(pin("4")), Err("pairing passkey rejected".to_string()));
    assert_eq!(confirmation_reply(Ok(PairingResponse::Confirmation(true))), Ok(()));
    assert_eq!(
        confirmation_reply(Ok(PairingResponse::Confirmation(false))),
        Err("pairing confirmation rejected".to_string())
    );
    assert_eq!(confirmation_reply(no("late")), Err("late".to_string()));
}

#[test]
fn device_is_found_by_address() {
    let object = |path: &str, address: DeviceAddress| BluezObject { path: path.to_string(), address };
    let objects = vec![
        object("/org/bluez", DeviceAddress::Missing),
        object("/dev/a", DeviceAddress::Is("AA:BB".to_string())),
        object("/dev/b", DeviceAddress::Is("cc:DD".to_string())),
        object("/dev/x", DeviceAddress::Unreadable),
    ];
    assert_eq!(device_path_for_address(&objects, "CC:dd"), Ok("/dev/b".to_string()));
    assert_eq!(
        device_path_for_address(&objects, "EE"),
        Err("failed to decode BlueZ device address".to_string())
    );
    assert_eq!(
        device_path_for_address(&vec![], "EE"),
        Err("BlueZ device EE not found".to_string())
    );
    assert_eq!(trust_steps(true), vec![TrustStep::Trust]);
    assert_eq!(
        trust_steps(false),
        vec![TrustStep::StartAgent, TrustStep::Pair, TrustStep::Trust]
    );
}

#[test]
fn numbers_are_read_as_the_standard_library_does() {
    for s in ["0", "007", "+5", "4294967295", "4294967296", "", "+", "-1", "1a", " 1", "++1", "99999999999999999999999"] {
        let chars: Vec<char> = s.chars().collect();
        assert_eq!(parse_number(&chars), s.parse::<u32>().ok(), "{}", s);
    }
}

#[test]
fn buttons_answer_the_question() {
    let pin = |s: &str| answers(PromptKind::PinCode, s, "7");
    assert_eq!(
        pin(" 12 "),
        (Some(PairingResponse::PinCode("12".to_string())), PairingResponse::Cancelled)
    );
    assert_eq!(pin("  "), (None, PairingResponse::Cancelled));
    let key = |s: &str| answers(PromptKind::Passkey, "12", s);
    assert_eq!(key(" 000123 "), (Some(PairingResponse::Passkey(123)), PairingResponse::Cancelled));
    assert_eq!(key("12x"), (None, PairingResponse::Cancelled));
    assert_eq!(
        answers(PromptKind::Confirmation { passkey: 5 }, "", ""),
        (Some(PairingResponse::Confirmation(true)), PairingResponse::Confirmation(false))
    );
}

#[test]
fn dialog_checks_its_input() {
    assert_eq!(pin_from_input(" 12 "), Some("12".to_string()));
    assert_eq!(pin_from_input("  "), None);
    assert_eq!(passkey_from_input(" 000123 "), (Some(123), false));
    assert_eq!(passkey_from_input("12x"), (None, true));
    assert_eq!(passkey_from_input(" "), (None, false));
    let mut d = PairingDialog::new();
    assert!(d.on_prompt(Some(1)));
    d.pin_input = "12".to_string();
    assert!(!d.on_prompt(Some(1)));
    assert_eq!(d.pin_input, "12");
    assert!(d.on_prompt(Some(2)));
    assert_eq!(d.pin_input, "");
    assert!(!d.on_prompt(None));
    assert!(d.on_prompt(Some(2)));
}

fn run_headless(port: Option<&str>, task: HeadlessTask) -> (Vec<HeadlessStep>, HeadlessStep) {
    let mut step = first_headless_step(port.map(str::to_string));
    let mut steps = Vec::new();
    loop {
        let outcome = match &step {
            HeadlessStep::Done | HeadlessStep::Failed(_) => return (steps, step),
            HeadlessStep::Search => {
                HeadlessOutcome::Found(vec!["a|one".to_string(), "b|two".to_string()])
            }
            _ => HeadlessOutcome::Done,
        };
        steps.push(step.clone());
        step = next_headless_step(task, step, outcome);
    }
}

#[test]
fn headless_run_sends_every_notification() {
    let open = |s: &str| HeadlessStep::Open(s.to_string());
    assert_eq!(
        run_headless(Some("x"), HeadlessTask::Simulate(3)),
        (
            vec![
                open("x"),
                HeadlessStep::Ping,
                HeadlessStep::Simulate(0),
                HeadlessStep::Wait(1),
                HeadlessStep::Simulate(1),
                HeadlessStep::Wait(2),
                HeadlessStep::Simulate(2),
            ],
            HeadlessStep::Done
        )
    );
    assert_eq!(
        run_headless(None, HeadlessTask::Simulate(0)),
        (vec![HeadlessStep::Search, open("a|one"), HeadlessStep::Ping], HeadlessStep::Done)
    );
    assert_eq!(
        run_headless(Some("x"), HeadlessTask::Forward).0,
        vec![open("x"), HeadlessStep::Ping, HeadlessStep::Forward]
    );
    assert_eq!(
        run_headless(Some("x"), HeadlessTask::Unsupported).1,
        HeadlessStep::Failed(Some(
            "notification forwarding is only supported on Linux and macOS".to_string()
        ))
    );
}

#[test]
fn headless_run_ends_with_the_first_failure() {
    let task = HeadlessTask::Simulate(3);
    let fails = |step: HeadlessStep| next_headless_step(task, step, HeadlessOutcome::Failed);
    assert_eq!(fails(HeadlessStep::Ping), HeadlessStep::Failed(None));
    assert_eq!(fails(HeadlessStep::Simulate(1)), HeadlessStep::Failed(None));
    assert_eq!(
        fails(HeadlessStep::Search),
        HeadlessStep::Failed(Some("failed to enumerate BLE devices".to_string()))
    );
    assert_eq!(
        next_headless_step(task, HeadlessStep::Search, HeadlessOutcome::Found(vec![])),
        HeadlessStep::Failed(Some("no BLE devices found".to_string()))
    );
    assert_eq!(
        next_headless_step(task, HeadlessStep::Simulate(u32::MAX), HeadlessOutcome::Done),
        HeadlessStep::Done
    );
}

#[test]
fn steps_end_with_the_first_failure() {
    let request = CommandRequest::NotificationAndAnimation {
        preset: "mail".to_string(),
        from: "Bob".to_string(),
        text: "x".to_string(),
    };
    let steps = request.steps(7, 0);
    assert_eq!(steps.len(), 5);
    // The first four steps succeed: notification, servo, lamps and the wait for them.
    let (mut at, mut next) = first_step(&steps, 7);
    let mut taken = vec![(at, next)];
    for succeeded in [true, true, true, true, false, true] {
        (at, next) = next_step(&steps, at, next, succeeded);
        taken.push((at, next));
    }
    assert_eq!(
        taken,
        vec![
            (RunPoint::Take(0), 8),
            (RunPoint::Take(1), 9),
            (RunPoint::Take(2), 10),
            (RunPoint::Take(3), 10),
            (RunPoint::Take(4), 11),
            (RunPoint::Failed, 11),
            (RunPoint::Failed, 11),
        ]
    );
    assert_eq!(next_step(&steps, RunPoint::Take(4), 11, true), (RunPoint::Done, 11));
    assert_eq!(first_step(&[], 3), (RunPoint::Done, 3));
}

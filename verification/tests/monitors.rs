use lander::mac_monitor::{bundle_id_to_app_name, event_from_members, on_log_line};
use lander::mac_monitor::{extract_bundle_id_from_message, extract_macos_notification_event};
use lander::mac_monitor::{extract_notification_id_from_message, guess_sender_from_text};
use lander::mac_monitor::should_forward_macos_event;
use lander::message::Category;
use lander::monitor::{extract_quoted, Monitor, Recent};

const S: u64 = 1_000_000_000;

fn chars(s: &str) -> Vec<char> {
    s.chars().collect()
}

fn record(app: &str, title: &str, body: &str) -> Vec<String> {
    vec![
        "method call time=1 interface=org.freedesktop.Notifications; member=Notify".to_string(),
        format!("   string \"{}\"", app),
        "   uint32 0".to_string(),
        "   string \"icon\"".to_string(),
        format!("   string \"{}\"", title),
        format!("   string \"{}\"", body),
    ]
}

fn feed(m: &mut Monitor, lines: &[String], now: u64) -> usize {
    let mut n = 0;
    for line in lines {
        if m.on_line(line, now).is_some() {
            n += 1;
        }
    }
    n
}

#[test]
fn quotes_are_found() {
    assert_eq!(extract_quoted(&chars("string \"a b\" \"c\"")), Some("a b".to_string()));
    assert_eq!(extract_quoted(&chars("string \"\"")), Some(String::new()));
    assert_eq!(extract_quoted(&chars("string \"a")), None);
    assert_eq!(extract_quoted(&chars("string")), None);
}

#[test]
fn notification_is_read_off_the_lines() {
    let mut m = Monitor::new();
    let mut got = None;
    for line in record("Thunderbird", " Bob : hi: x", "text") {
        assert!(got.is_none());
        got = m.on_line(&line, 0);
    }
    let e = got.unwrap();
    assert_eq!(e.source_app, "Thunderbird");
    assert_eq!(e.title, " Bob : hi: x");
    assert_eq!(e.body, "text");
    assert_eq!(e.sender_name, "Bob");
    assert_eq!(e.category, Category::Mail.number());
    assert_eq!(e.source_bundle_id, "");
    assert_eq!(e.notification_id, "");
}

#[test]
fn lines_outside_a_record_are_ignored() {
    let mut m = Monitor::new();
    for _ in 0..6 {
        assert!(m.on_line("   string \"x\"", 0).is_none());
    }
    // A new record starts over.
    let lines = record("A", "T", "B");
    feed(&mut m, &lines[..4], 0);
    assert_eq!(feed(&mut m, &lines, 0), 1);
}

#[test]
fn repeats_are_held_back_for_four_seconds() {
    let mut m = Monitor::new();
    let lines = record("A", "T", "B");
    assert_eq!(feed(&mut m, &lines, 0), 1);
    assert_eq!(feed(&mut m, &lines, 2 * S), 0);
    assert_eq!(feed(&mut m, &lines, 4 * S - 1), 0);
    assert_eq!(feed(&mut m, &record("A", "T", "other"), 4 * S - 1), 1);
    assert_eq!(feed(&mut m, &lines, 4 * S), 1);
}

#[test]
fn others_in_between_make_no_difference() {
    let mut m = Monitor::new();
    let lines = record("A", "T", "B");
    assert_eq!(feed(&mut m, &lines, S), 1);
    for i in 0..20u64 {
        let now = S + i * S / 5;
        let other = record("A", "T", &i.to_string());
        assert_eq!(feed(&mut m, &other, now), 1);
        assert_eq!(feed(&mut m, &lines, now), 0);
        assert_eq!(feed(&mut m, &other, now), 0);
    }
    assert_eq!(feed(&mut m, &lines, 5 * S), 1);
    assert_eq!(feed(&mut m, &lines, 9 * S - 1), 0);
    assert_eq!(feed(&mut m, &lines, 9 * S), 1);
}

#[test]
fn memory_holds_each_signature_once() {
    let mut r = Recent::new();
    assert!(r.take_note("a".to_string(), 10, false));
    assert!(r.take_note("b".to_string(), 11, false));
    assert!(!r.take_note("a".to_string(), 12, false));
    assert_eq!(r.entries.len(), 2);
    assert!(r.take_note("a".to_string(), 10 + 4 * S, false));
    assert_eq!(r.entries.len(), 2);
    // Where the clock went back, the entry is kept or not as asked.
    assert!(!r.take_note("a".to_string(), 0, true));
    assert!(r.take_note("a".to_string(), 0, false));
}

#[test]
fn bundles_are_found_in_four_ways() {
    let f = extract_bundle_id_from_message;
    assert_eq!(f("x [bundle= com.a , id=1]"), Some("com.a".to_string()));
    assert_eq!(f("<R bundleIdentifier: com.b; x>"), Some("com.b".to_string()));
    assert_eq!(
        f("Adding notification to storage: com.c:42 more"),
        Some("com.c".to_string())
    );
    assert_eq!(f("show app:\" com.d \" now"), Some("com.d".to_string()));
    assert_eq!(f("nothing here"), None);
    assert_eq!(f("bundle=, app:\"com.e\""), Some("com.e".to_string()));
}

#[test]
fn notification_ids_are_found() {
    let f = extract_notification_id_from_message;
    assert_eq!(f("[bundle=com.a, id=ABC-1]"), Some("ABC-1".to_string()));
    assert_eq!(f("Adding notification to storage: com.c:42] x"), Some("42".to_string()));
    assert_eq!(f("ident:\"Z\""), Some("Z".to_string()));
    assert_eq!(f("none"), None);
}

#[test]
fn names_and_senders_are_guessed() {
    assert_eq!(bundle_id_to_app_name("net.whatsapp.WhatsApp"), "WhatsApp");
    assert_eq!(bundle_id_to_app_name("plain"), "plain");
    assert_eq!(bundle_id_to_app_name("ends.with."), "");
    assert_eq!(guess_sender_from_text(" Bob : hi"), "Bob");
    assert_eq!(guess_sender_from_text("Bob - hi"), "Bob");
    assert_eq!(guess_sender_from_text("Bob | hi"), "Bob");
    assert_eq!(guess_sender_from_text(": hi"), "");
    let long = "x".repeat(40);
    assert_eq!(guess_sender_from_text(&format!("{}: hi", long)), "");
    assert_eq!(guess_sender_from_text(&format!("{}: hi", &long[1..])), &long[1..]);
    // The length is counted in bytes.
    let wide = "\u{e4}".repeat(20);
    assert_eq!(guess_sender_from_text(&format!("{}: hi", wide)), "");
}

#[test]
fn only_shown_notifications_are_forwarded() {
    assert!(should_forward_macos_event("com.apple.unc", "Presenting <NotificationRecord x"));
    assert!(should_forward_macos_event("com.apple.unc", "Delivering <NotificationRecord x"));
    assert!(!should_forward_macos_event("com.apple.unc", "Removing <NotificationRecord x"));
    assert!(!should_forward_macos_event("other", "Presenting <NotificationRecord x"));
}

#[test]
fn event_is_made_of_the_members() {
    let msg = "Presenting <NotificationRecord app:\"com.apple.mail\" ident:\"7\">";
    let e = event_from_members(
        Some("com.apple.unc".to_string()),
        Some(msg.to_string()),
        None,
        Some("unused".to_string()),
    )
    .unwrap();
    assert_eq!(e.source_app, "mail");
    assert_eq!(e.source_bundle_id, "com.apple.mail");
    assert_eq!(e.notification_id, "7");
    assert_eq!(e.title, "Notification from mail");
    assert_eq!(e.body, msg);
    assert_eq!(e.sender_name, "");
    assert_eq!(e.category, Category::Mail.number());
    assert!(event_from_members(None, Some(msg.to_string()), None, None).is_none());
    let bare = "Delivering <NotificationRecord >".to_string();
    let unc = Some("com.apple.unc".to_string());
    assert!(event_from_members(unc.clone(), Some(bare.clone()), None, None).is_none());
    let t = event_from_members(
        unc.clone(),
        Some(bare.clone()),
        Some("com.slack".to_string()),
        Some("com.other".to_string()),
    )
    .unwrap();
    assert_eq!((t.source_bundle_id.as_str(), t.title.as_str()), ("com.slack", "Message on slack"));
    let b = event_from_members(unc, Some(bare), None, Some("com.other".to_string())).unwrap();
    assert_eq!(b.source_bundle_id, "com.other");
}

#[test]
fn senders_of_chats_are_named() {
    let msg = "Presenting <NotificationRecord Ann: hello, bundle=net.whatsapp.WhatsApp]";
    let e = event_from_members(
        Some("com.apple.unc".to_string()),
        Some(msg.to_string()),
        None,
        None,
    )
    .unwrap();
    assert_eq!(e.sender_name, "Presenting <NotificationRecord Ann");
    assert_eq!(e.title, "Presenting <NotificationRecord Ann message");
}

#[test]
fn log_lines_are_read_as_json() {
    let mut recent = Recent::new();
    let line = "{\"subsystem\":\"com.apple.unc\",\"eventMessage\":\"Presenting <NotificationRecord id=9, x\",\"topic\":\"com.apple.iCal\",\"n\":1}";
    let e = on_log_line(&mut recent, line, 0).unwrap();
    assert_eq!(e.source_bundle_id, "com.apple.iCal");
    assert_eq!(e.notification_id, "9");
    assert!(on_log_line(&mut recent, line, 3 * S).is_none());
    assert!(on_log_line(&mut recent, line, 4 * S).is_some());
    assert!(on_log_line(&mut recent, "not json", 5 * S).is_none());
    assert!(on_log_line(&mut recent, "[1, 2]", 5 * S).is_none());
}

#[test]
fn members_that_are_no_texts_do_not_count() {
    let entry: serde_json::Value = serde_json::from_str(
        "{\"subsystem\":\"com.apple.unc\",\"eventMessage\":\"Presenting <NotificationRecord x\",\"topic\":5,\"bundle-id\":\"com.b\"}",
    )
    .unwrap();
    let e = extract_macos_notification_event(&entry).unwrap();
    assert_eq!(e.source_bundle_id, "com.b");
}

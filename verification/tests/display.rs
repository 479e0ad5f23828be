use lander::card::{render_notification_card, render_pairing_code, DrawOp, Font};
use lander::card::{draw_calendar_icon, draw_chat_icon, draw_mail_icon, draw_system_icon};
use lander::message::NotificationEvent;
use lander::pixels::{argb_bytes, pack565, rgb565_le, rgba_bytes, texture_bitmap, tray_bitmap};
use lander::wrap::{truncate_text, wrap_text_with_ellipsis};

fn event() -> NotificationEvent {
    NotificationEvent {
        id: String::new(),
        source_app: "Calendar".to_string(),
        title: "Stand-up\nmeeting".to_string(),
        body: "In five minutes in the small room on the second floor".to_string(),
        urgency: 1,
        category: 2,
        source_bundle_id: "com.apple.calendar".to_string(),
        sender_name: "Bob".to_string(),
        sender_handle: String::new(),
        app_icon_hint: "calendar".to_string(),
    }
}

fn texts(ops: &[DrawOp]) -> Vec<(String, i32, i32)> {
    let mut out = Vec::new();
    for op in ops {
        if let DrawOp::Text { text, x, y, .. } = op {
            out.push((text.clone(), *x, *y));
        }
    }
    out
}

#[test]
fn short_text_is_not_cut() {
    assert_eq!(truncate_text("hello", 5), "hello");
    assert_eq!(truncate_text("hello!", 5), "he...");
    assert_eq!(truncate_text("hello", 3), "hel");
    assert_eq!(truncate_text("hello", 0), "-");
    assert_eq!(truncate_text("", 5), "-");
    assert_eq!(truncate_text("\u{e4}\u{f6}\u{fc}\u{df}x", 4), "\u{e4}...");
}

#[test]
fn text_is_wrapped_at_words() {
    assert_eq!(wrap_text_with_ellipsis("the quick brown fox", 10, 3), vec!["the quick", "brown fox"]);
    assert_eq!(wrap_text_with_ellipsis("  a\t b \n c ", 10, 3), vec!["a b c"]);
}

#[test]
fn long_words_are_split() {
    assert_eq!(wrap_text_with_ellipsis("abcdefgh ij", 3, 5), vec!["abc", "def", "gh", "ij"]);
    assert_eq!(wrap_text_with_ellipsis("abcdefgh ij", 5, 5), vec!["abcde", "fgh", "ij"]);
}

#[test]
fn missing_lines_are_marked() {
    assert_eq!(wrap_text_with_ellipsis("the quick brown fox", 10, 1), vec!["the qui..."]);
    assert_eq!(wrap_text_with_ellipsis("ab cd ef", 5, 1), vec!["ab..."]);
    assert_eq!(wrap_text_with_ellipsis("ab cd ef gh", 6, 1), vec!["ab..."]);
    assert_eq!(wrap_text_with_ellipsis("ab cd ef", 2, 2), vec!["ab", ".."]);
    assert_eq!(wrap_text_with_ellipsis("abc def", 3, 1), vec!["..."]);
}

#[test]
fn text_without_words_is_a_dash() {
    assert_eq!(wrap_text_with_ellipsis(" \n ", 5, 2), vec!["-"]);
    assert!(wrap_text_with_ellipsis("abc", 0, 2).is_empty());
    assert!(wrap_text_with_ellipsis("abc", 2, 0).is_empty());
}

#[test]
fn wrapped_lines_fit_and_keep_the_text() {
    let text = "one twothree fourfivesix seven";
    for width in 1..12 {
        for lines in 1..6 {
            let got = wrap_text_with_ellipsis(text, width, lines);
            assert!(!got.is_empty() && got.len() <= lines);
            for line in &got {
                let n = line.chars().count();
                assert!(n >= 1 && n <= width);
            }
        }
        let all = wrap_text_with_ellipsis(text, width, 100).concat().replace(' ', "");
        assert_eq!(all, text.replace(' ', ""));
    }
}

#[test]
fn card_shows_head_title_and_text() {
    let ops = render_notification_card(&event());
    assert_eq!(
        texts(&ops),
        vec![
            ("Calendar".to_string(), 18, 36),
            ("Stand-up".to_string(), 92, 96),
            ("meeting".to_string(), 92, 116),
            ("In five minutes in".to_string(), 92, 142),
            ("the small room on the".to_string(), 92, 153),
            ("second floor".to_string(), 92, 164),
        ]
    );
}

#[test]
fn card_with_a_handle_leaves_room_for_it() {
    let mut e = event();
    e.sender_handle = "@bob".to_string();
    e.body = "word ".repeat(60);
    let ops = render_notification_card(&e);
    let t = texts(&ops);
    assert_eq!(t[3], ("@bob".to_string(), 92, 138));
    assert_eq!(t[4].2, 154);
    // Six lines of text, the last of which says that something is missing.
    assert_eq!(t.len(), 4 + 6);
    assert!(t[9].0.ends_with("..."));
    assert_eq!(t[9].2, 209);
}

#[test]
fn card_falls_back_where_texts_are_missing() {
    let mut e = event();
    e.source_app = String::new();
    e.title = String::new();
    e.body = String::new();
    let t = texts(&render_notification_card(&e));
    assert_eq!(t[0].0, "Notification");
    assert_eq!(t[1].0, "Bob");
    assert_eq!(t[2].0, "-");
    e.sender_name = String::new();
    assert_eq!(texts(&render_notification_card(&e))[1].0, "Someone");
}

#[test]
fn card_picks_its_icon_by_source() {
    let mut e = event();
    let ops = render_notification_card(&e);
    assert_eq!(ops[4..6], draw_calendar_icon(24, 66)[..]);
    e.source_bundle_id = "com.microsoft.Outlook".to_string();
    assert_eq!(render_notification_card(&e)[4..7], draw_mail_icon(24, 70)[..]);
    e.source_app = "WhatsApp".to_string();
    assert_eq!(render_notification_card(&e)[4..9], draw_chat_icon(24, 68)[..]);
    e.source_app = "Terminal".to_string();
    e.source_bundle_id = "org.terminal".to_string();
    e.app_icon_hint = "x".to_string();
    assert_eq!(render_notification_card(&e)[4..9], draw_system_icon(24, 68)[..]);
}

#[test]
fn card_words_stay_inside_the_frame() {
    let mut e = event();
    e.source_app = "A".repeat(100);
    e.title = "B".repeat(100);
    e.body = "C".repeat(500);
    e.sender_handle = "D".repeat(100);
    for op in render_notification_card(&e) {
        if let DrawOp::Text { text, x, y, font, .. } = op {
            let w = match font {
                Font::F6x10 => 6,
                Font::F8x13Bold => 8,
                Font::F10x20 => 10,
            };
            assert!(x >= 10 && x + w * (text.chars().count() as i32) <= 230);
            assert!((14..=226).contains(&y));
        }
    }
}

#[test]
fn pairing_code_has_six_digits() {
    let t = texts(&render_pairing_code(4711));
    assert_eq!(t[2], ("004711".to_string(), 60, 154));
    assert_eq!(t[0].0, "PAIRING MODE");
    assert_eq!(texts(&render_pairing_code(123_456))[2].0, "123456");
}

#[test]
fn pixels_are_packed() {
    assert_eq!(pack565(255, 255, 255), 0xFFFF);
    assert_eq!(pack565(255, 0, 0), 0xF800);
    assert_eq!(pack565(0, 255, 0), 0x07E0);
    assert_eq!(pack565(0, 0, 255), 0x001F);
    assert_eq!(pack565(7, 3, 7), 0);
    assert_eq!(rgb565_le(&[(255, 0, 0), (0, 0, 255)]), vec![0x00, 0xF8, 0x1F, 0x00]);
}

#[test]
fn opacity_moves_to_the_front() {
    let pixels = [(1, 2, 3, 4), (5, 6, 7, 8)];
    assert_eq!(rgba_bytes(&pixels), vec![1, 2, 3, 4, 5, 6, 7, 8]);
    assert_eq!(argb_bytes(&pixels), vec![4, 1, 2, 3, 8, 5, 6, 7]);
    assert!(argb_bytes(&[]).is_empty());
}

#[test]
fn images_are_decoded() {
    let mut img = image::RgbaImage::new(2, 1);
    img.put_pixel(0, 0, image::Rgba([10, 20, 30, 40]));
    img.put_pixel(1, 0, image::Rgba([50, 60, 70, 80]));
    let mut png = std::io::Cursor::new(Vec::new());
    img.write_to(&mut png, image::ImageFormat::Png).unwrap();
    let png = png.into_inner();
    let texture = texture_bitmap(&png).unwrap();
    assert_eq!((texture.width, texture.height), (2, 1));
    assert_eq!(texture.data, vec![10, 20, 30, 40, 50, 60, 70, 80]);
    let tray = tray_bitmap(&png).unwrap();
    assert_eq!(tray.data, vec![40, 10, 20, 30, 80, 50, 60, 70]);
    assert_eq!(tray.data.len() as u32, 4 * (tray.width * tray.height));
    assert_eq!(texture_bitmap(b"no image"), None);
    assert_eq!(tray_bitmap(b"no image"), Err("failed to decode tray satellite icon"));
}

/// The characters that part words are those with the Unicode property `White_Space`.
#[test]
fn exactly_white_space_separates_words() {
    for n in 0..0x11_0000u32 {
        let Some(c) = char::from_u32(n) else {
            continue;
        };
        let white = (0x09..=0x0d).contains(&n)
            || n == 0x20
            || n == 0x85
            || n == 0xa0
            || n == 0x1680
            || (0x2000..=0x200a).contains(&n)
            || (0x2028..=0x2029).contains(&n)
            || n == 0x202f
            || n == 0x205f
            || n == 0x3000;
        assert_eq!(c.is_whitespace(), white);
    }
    assert_eq!(wrap_text_with_ellipsis("a\u{3000}b\u{200b}c", 1, 9), vec!["a", "b", "\u{200b}", "c"]);
}

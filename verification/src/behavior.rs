//! What a notification makes the robot do: which lamps blink and where the servo turns.

use vstd::prelude::*;
use crate::message::{Category, NotificationEvent, NotificationView, Urgency};
use crate::message::{category_number, urgency_with_number};
use crate::text::{contains, has_text, lower, lower_chars, same_text};

verus! {

/// Lamps and servo for one notification; the target is in whole degrees.
#[derive(Clone, Copy, Debug, PartialEq, Eq, Structural)]
pub struct BehaviorProfile {
    pub led_pattern_id: u32,
    pub led_repeats: u32,
    pub servo_target_deg: u32,
}

/// The urgency with a number; a number without one is a normal urgency.
pub open spec fn urgency_of(number: i32) -> Urgency {
    match urgency_with_number(number) {
        Some(u) => u,
        None => Urgency::Normal,
    }
}

/// What an urgency alone asks for.
pub open spec fn profile_for_urgency(urgency: Urgency) -> BehaviorProfile {
    match urgency {
        Urgency::Low => BehaviorProfile { led_pattern_id: 1, led_repeats: 1, servo_target_deg: 60 },
        Urgency::Normal => BehaviorProfile {
            led_pattern_id: 2,
            led_repeats: 2,
            servo_target_deg: 90,
        },
        Urgency::High => BehaviorProfile {
            led_pattern_id: 3,
            led_repeats: 3,
            servo_target_deg: 150,
        },
        Urgency::Critical => BehaviorProfile {
            led_pattern_id: 4,
            led_repeats: 4,
            servo_target_deg: 210,
        },
    }
}

/// All that is known of where a notification comes from, in small letters.
pub open spec fn source_text(event: NotificationView) -> Seq<char> {
    lower(
        event.source_app + seq![' '] + event.source_bundle_id + seq![' '] + event.app_icon_hint,
    )
}

/// What a notification asks for: its urgency decides, and the source may overrule pattern and
/// target, never the number of repeats.
pub open spec fn profile_for(event: NotificationView) -> BehaviorProfile {
    let base = profile_for_urgency(urgency_of(event.urgency));
    let source = source_text(event);
    if contains(source, "whatsapp"@) || contains(source, "discord"@) || contains(
        source,
        "slack"@,
    ) {
        BehaviorProfile { led_pattern_id: 2, servo_target_deg: 135, ..base }
    } else if contains(source, "mail"@) || contains(source, "outlook"@) {
        BehaviorProfile { led_pattern_id: 1, servo_target_deg: 75, ..base }
    } else if contains(source, "calendar"@) {
        BehaviorProfile { led_pattern_id: 3, servo_target_deg: 180, ..base }
    } else {
        base
    }
}

/// What `event` makes the robot do.
pub fn behavior_for_event(event: &NotificationEvent) -> (r: BehaviorProfile)
    ensures
        r == profile_for(event@),
{
    let urgency = match Urgency::from_number(event.urgency) {
        Some(u) => u,
        None => Urgency::Normal,
    };
    let mut joined = event.source_app.clone();
    joined.push(' ');
    joined.append(event.source_bundle_id.as_str());
    joined.push(' ');
    joined.append(event.app_icon_hint.as_str());
    assert(joined@ =~= event@.source_app + seq![' '] + event@.source_bundle_id + seq![' ']
        + event@.app_icon_hint);
    let lowered = lower_chars(joined.as_str());
    let source = lowered.as_slice();
    let mut profile = match urgency {
        Urgency::Low => BehaviorProfile { led_pattern_id: 1, led_repeats: 1, servo_target_deg: 60 },
        Urgency::Normal => BehaviorProfile {
            led_pattern_id: 2,
            led_repeats: 2,
            servo_target_deg: 90,
        },
        Urgency::High => BehaviorProfile {
            led_pattern_id: 3,
            led_repeats: 3,
            servo_target_deg: 150,
        },
        Urgency::Critical => BehaviorProfile {
            led_pattern_id: 4,
            led_repeats: 4,
            servo_target_deg: 210,
        },
    };
    if has_text(source, "whatsapp") || has_text(source, "discord") || has_text(source, "slack") {
        profile.led_pattern_id = 2;
        profile.servo_target_deg = 135;
    } else if has_text(source, "mail") || has_text(source, "outlook") {
        profile.led_pattern_id = 1;
        profile.servo_target_deg = 75;
    } else if has_text(source, "calendar") {
        profile.led_pattern_id = 3;
        profile.servo_target_deg = 180;
    }
    profile
}

/// The category of an application, by what its name in small letters contains.
pub open spec fn category_for(app: Seq<char>) -> Category {
    let name = lower(app);
    if contains(name, "mail"@) || contains(name, "thunderbird"@) || contains(name, "outlook"@) {
        Category::Mail
    } else if contains(name, "whatsapp"@) || contains(name, "slack"@) || contains(name, "teams"@)
        || contains(name, "discord"@) || contains(name, "chat"@) || contains(name, "messages"@) {
        Category::Chat
    } else if contains(name, "calendar"@) {
        Category::Calendar
    } else {
        Category::System
    }
}

/// The number of the category of an application.
pub fn map_category(app: &str) -> (r: i32)
    ensures
        r == category_number(category_for(app@)),
{
    let lowered = lower_chars(app);
    let name = lowered.as_slice();
    let category = if has_text(name, "mail") || has_text(name, "thunderbird") || has_text(
        name,
        "outlook",
    ) {
        Category::Mail
    } else if has_text(name, "whatsapp") || has_text(name, "slack") || has_text(name, "teams")
        || has_text(name, "discord") || has_text(name, "chat") || has_text(name, "messages") {
        Category::Chat
    } else if has_text(name, "calendar") {
        Category::Calendar
    } else {
        Category::System
    };
    category.number()
}

/// The icon for a notification of an application.
pub open spec fn icon_hint(bundle: Seq<char>, source_app: Seq<char>, category: i32) -> Seq<char> {
    let name = lower(bundle + seq![' '] + source_app);
    if contains(name, "whatsapp"@) {
        "whatsapp"@
    } else if contains(name, "mail"@) || contains(name, "outlook"@) {
        "mail"@
    } else if contains(name, "calendar"@) {
        "calendar"@
    } else if category == category_number(Category::Chat) {
        "chat"@
    } else {
        "system"@
    }
}

/// Which icon the robot is to show for a notification.
pub fn app_icon_hint_for(bundle: &str, source_app: &str, category: i32) -> (r: String)
    ensures
        r@ == icon_hint(bundle@, source_app@, category),
{
    let mut joined = bundle.to_string();
    joined.push(' ');
    joined.append(source_app);
    assert(joined@ =~= bundle@ + seq![' '] + source_app@);
    let lowered = lower_chars(joined.as_str());
    let name = lowered.as_slice();
    if has_text(name, "whatsapp") {
        "whatsapp".to_string()
    } else if has_text(name, "mail") || has_text(name, "outlook") {
        "mail".to_string()
    } else if has_text(name, "calendar") {
        "calendar".to_string()
    } else if category == Category::Chat.number() {
        "chat".to_string()
    } else {
        "system".to_string()
    }
}

/// There is an icon for every notification.
pub proof fn every_notification_has_an_icon(bundle: Seq<char>, source_app: Seq<char>, category: i32)
    ensures
        icon_hint(bundle, source_app, category).len() > 0,
{
    reveal_strlit("whatsapp");
    reveal_strlit("mail");
    reveal_strlit("calendar");
    reveal_strlit("chat");
    reveal_strlit("system");
}

/// `s`, or `fallback` where `s` is empty.
pub fn if_empty_then(s: String, fallback: String) -> (r: String)
    ensures
        r@ == if s@.len() == 0 {
            fallback@
        } else {
            s@
        },
{
    if s.as_str().is_empty() {
        fallback
    } else {
        s
    }
}

/// What a category asks for: lamp pattern, repeats, the angle while it runs, and the angle the
/// servo comes back to, both in whole degrees.
pub open spec fn animation_for(category: i32) -> (u32, u32, u32, u32) {
    if category == category_number(Category::Chat) {
        (2, 6, 200, 90)
    } else if category == category_number(Category::Mail) {
        (1, 3, 150, 90)
    } else if category == category_number(Category::Calendar) {
        (3, 3, 60, 90)
    } else {
        (4, 3, 120, 90)
    }
}

/// Lamps and servo for a notification of a category.
pub fn animation_profile_for_category(category: i32) -> (r: (u32, u32, u32, u32))
    ensures
        r == animation_for(category),
{
    if category == Category::Chat.number() {
        (2, 6, 200, 90)
    } else if category == Category::Mail.number() {
        (1, 3, 150, 90)
    } else if category == Category::Calendar.number() {
        (3, 3, 60, 90)
    } else {
        (4, 3, 120, 90)
    }
}

/// How long a lamp pattern of [`animation_for`] runs, in milliseconds: eight steps of 60 in a
/// round of the first, two of 70 in the second, four of 65 in the third, two of 80 in any other.
pub open spec fn animation_ms(pattern: u32, repeats: u32) -> int {
    if pattern == 1 {
        480 * repeats
    } else if pattern == 2 {
        140 * repeats
    } else if pattern == 3 {
        260 * repeats
    } else {
        160 * repeats
    }
}

/// How long a lamp pattern runs, in milliseconds.
pub fn animation_duration_ms(pattern: u32, repeats: u32) -> (r: u64)
    ensures
        r == animation_ms(pattern, repeats),
{
    match pattern {
        1 => 480 * (repeats as u64),
        2 => 140 * (repeats as u64),
        3 => 260 * (repeats as u64),
        _ => 160 * (repeats as u64),
    }
}

/// Application, bundle, category, title, sender and icon of a preset notification.
pub open spec fn preset_notification(preset: Seq<char>, from: Seq<char>, text: Seq<char>) -> (
    Seq<char>,
    Seq<char>,
    Category,
    Seq<char>,
    Seq<char>,
    Seq<char>,
) {
    if preset == "whatsapp"@ {
        (
            "WhatsApp"@,
            "net.whatsapp.WhatsApp"@,
            Category::Chat,
            from + ": "@ + text,
            from,
            "whatsapp"@,
        )
    } else if preset == "mail"@ {
        (
            "Outlook"@,
            "com.microsoft.Outlook"@,
            Category::Mail,
            "Mail from "@ + from,
            from,
            "mail"@,
        )
    } else if preset == "calendar"@ {
        (
            "Calendar"@,
            "com.apple.calendar"@,
            Category::Calendar,
            "Meeting with "@ + from,
            from,
            "calendar"@,
        )
    } else {
        (
            "System"@,
            "com.example.system"@,
            Category::System,
            "System event from "@ + from,
            from,
            "system"@,
        )
    }
}

/// Application, bundle, category, title, sender and icon of a preset notification.
pub fn default_notification_for_preset(preset: &str, from: &str, text: &str) -> (r: (
    String,
    String,
    i32,
    String,
    String,
    String,
))
    ensures
        ({
            let p = preset_notification(preset@, from@, text@);
            &&& r.0@ == p.0
            &&& r.1@ == p.1
            &&& r.2 == category_number(p.2)
            &&& r.3@ == p.3
            &&& r.4@ == p.4
            &&& r.5@ == p.5
        }),
{
    if same_text(preset, "whatsapp") {
        let mut title = from.to_string();
        title.append(": ");
        title.append(text);
        (
            "WhatsApp".to_string(),
            "net.whatsapp.WhatsApp".to_string(),
            Category::Chat.number(),
            title,
            from.to_string(),
            "whatsapp".to_string(),
        )
    } else if same_text(preset, "mail") {
        let mut title = "Mail from ".to_string();
        title.append(from);
        (
            "Outlook".to_string(),
            "com.microsoft.Outlook".to_string(),
            Category::Mail.number(),
            title,
            from.to_string(),
            "mail".to_string(),
        )
    } else if same_text(preset, "calendar") {
        let mut title = "Meeting with ".to_string();
        title.append(from);
        (
            "Calendar".to_string(),
            "com.apple.calendar".to_string(),
            Category::Calendar.number(),
            title,
            from.to_string(),
            "calendar".to_string(),
        )
    } else {
        let mut title = "System event from ".to_string();
        title.append(from);
        (
            "System".to_string(),
            "com.example.system".to_string(),
            Category::System.number(),
            title,
            from.to_string(),
            "system".to_string(),
        )
    }
}

/// 2 to the power of `n`.
pub open spec fn two_to(n: nat) -> nat
    decreases n,
{
    if n == 0 {
        1
    } else {
        2 * two_to((n - 1) as nat)
    }
}

/// Whether `bits` are the single-precision number `n`: no sign, an exponent field of at most
/// 150 and a fraction whose leading one is not written.
pub open spec fn is_whole_number(bits: u32, n: u32) -> bool {
    if n == 0 {
        bits == 0
    } else {
        let exponent = bits / 0x80_0000;
        let significand = 0x80_0000 + bits % 0x80_0000;
        127 <= exponent <= 150 && significand == n * two_to((150 - exponent) as nat)
    }
}

/// The bits of the number `significand` times two to the power of `exponent - 150`, with the
/// significand doubled until its leading one stands where it is not written.
pub open spec fn normalized(significand: nat, exponent: nat) -> nat
    decreases exponent,
{
    if significand >= 0x80_0000 || exponent == 0 {
        (exponent * 0x80_0000 + significand - 0x80_0000) as nat
    } else {
        normalized(2 * significand, (exponent - 1) as nat)
    }
}

/// A whole number as the bits of a single-precision number.
pub open spec fn float_bits(n: u32) -> u32 {
    if n == 0 {
        0
    } else {
        normalized(n as nat, 150) as u32
    }
}

/// A whole number as the bits of a single-precision number.
pub fn whole_number_bits(n: u32) -> (bits: u32)
    requires
        n < 0x100_0000,
    ensures
        bits == float_bits(n),
        is_whole_number(bits, n),
{
    if n == 0 {
        return 0;
    }
    let mut significand: u32 = n;
    let mut exponent: u32 = 150;
    assert(two_to(0) == 1);
    assert(n * two_to(0) == n) by (nonlinear_arith)
        requires
            two_to(0) == 1,
    ;
    proof {
        lemma_enough_doublings(n as nat);
    }
    while significand < 0x80_0000
        invariant
            0 < n < 0x100_0000,
            127 <= exponent <= 150,
            0 < significand < 0x100_0000,
            significand == n * two_to((150 - exponent) as nat),
            normalized(significand as nat, exponent as nat) == normalized(n as nat, 150),
            n * two_to(23) >= 0x80_0000,
        decreases 0x100_0000 - significand,
    {
        if exponent == 127 {
            assert(false);
        }
        let ghost before = two_to((150 - exponent) as nat);
        significand = 2 * significand;
        exponent = exponent - 1;
        assert(n * (2 * before) == 2 * (n * before)) by (nonlinear_arith);
    }
    exponent * 0x80_0000 + (significand - 0x80_0000)
}

proof fn lemma_enough_doublings(n: nat)
    requires
        n > 0,
    ensures
        n * two_to(23) >= 0x80_0000,
{
    reveal_with_fuel(two_to, 24);
    assert(n * two_to(23) >= two_to(23)) by (nonlinear_arith)
        requires
            n >= 1,
    ;
}

proof fn lemma_stands_inside(front: Seq<char>, s: Seq<char>, back: Seq<char>, word: Seq<char>)
    requires
        contains(lower(s), word),
    ensures
        contains(lower(front + s + back), word),
{
    let all = front + s + back;
    let i = choose|i: int| crate::text::occurs_at(lower(s), word, i);
    let n = front.len() as int;
    assert(lower(all).subrange(n + i, n + i + word.len()) =~= lower(s).subrange(
        i,
        i + word.len(),
    ));
    assert(crate::text::occurs_at(lower(all), word, n + i));
}

/// How often the lamps blink is a matter of the urgency alone: once for a low one up to four times
/// for a critical one, and twice for a number that is no urgency.
pub proof fn urgency_decides_the_repeats(event: NotificationView)
    ensures
        profile_for(event).led_repeats == if 0 <= event.urgency <= 3 {
            event.urgency + 1
        } else {
            2
        },
{
}

/// Where no known word stands in what a notification comes from, the urgency decides the lamps and
/// the servo as well: the more urgent, the higher the pattern and the wider the turn.
pub proof fn urgency_decides_without_a_known_source(event: NotificationView)
    requires
        ({
            let source = lower(
                event.source_app + seq![' '] + event.source_bundle_id + seq![' ']
                    + event.app_icon_hint,
            );
            &&& !contains(source, "whatsapp"@)
            &&& !contains(source, "discord"@)
            &&& !contains(source, "slack"@)
            &&& !contains(source, "mail"@)
            &&& !contains(source, "outlook"@)
            &&& !contains(source, "calendar"@)
        }),
    ensures
        profile_for(event).led_pattern_id == profile_for(event).led_repeats,
        profile_for(event).servo_target_deg == if event.urgency == 0 {
            60int
        } else if event.urgency == 2 {
            150
        } else if event.urgency == 3 {
            210
        } else {
            90
        },
{
}

/// The name of a chat decides wherever it stands, in the application, in the bundle or in the icon,
/// in letters of any size and whatever else stands there; that of a mail program and that of a
/// calendar do where no chat, and for the calendar no mail program, is named.
pub proof fn source_is_recognised_anywhere(event: NotificationView, word: Seq<char>)
    requires
        contains(lower(event.source_app), word) || contains(lower(event.source_bundle_id), word)
            || contains(lower(event.app_icon_hint), word),
    ensures
        ({
            let p = profile_for(event);
            let source = lower(
                event.source_app + seq![' '] + event.source_bundle_id + seq![' ']
                    + event.app_icon_hint,
            );
            let chat = contains(source, "whatsapp"@) || contains(source, "discord"@) || contains(
                source,
                "slack"@,
            );
            let mail = contains(source, "mail"@) || contains(source, "outlook"@);
            &&& word == "whatsapp"@ || word == "discord"@ || word == "slack"@ ==> p.led_pattern_id
                == 2 && p.servo_target_deg == 135
            &&& !chat && (word == "mail"@ || word == "outlook"@) ==> p.led_pattern_id == 1
                && p.servo_target_deg == 75
            &&& !chat && !mail && word == "calendar"@ ==> p.led_pattern_id == 3
                && p.servo_target_deg == 180
        }),
{
    let app = event.source_app;
    let bundle = event.source_bundle_id;
    let hint = event.app_icon_hint;
    let none = Seq::<char>::empty();
    let all = app + seq![' '] + bundle + seq![' '] + hint;
    if contains(lower(app), word) {
        lemma_stands_inside(none, app, seq![' '] + bundle + seq![' '] + hint, word);
        assert(none + app + (seq![' '] + bundle + seq![' '] + hint) =~= all);
    } else if contains(lower(bundle), word) {
        lemma_stands_inside(app + seq![' '], bundle, seq![' '] + hint, word);
        assert(app + seq![' '] + bundle + (seq![' '] + hint) =~= all);
    } else {
        lemma_stands_inside(app + seq![' '] + bundle + seq![' '], hint, none, word);
        assert(app + seq![' '] + bundle + seq![' '] + hint + none =~= all);
    }
}

/// The category of an application does not depend on the size of letters, nor does a word that
/// names one lose its meaning by what stands around it: a mail program is one whatever else its
/// name says, a chat is one unless its name says mail, and a calendar unless it says either.
pub proof fn category_goes_by_the_name(front: Seq<char>, word: Seq<char>, back: Seq<char>)
    ensures
        ({
            let app = front + word + back;
            let w = lower(word);
            let name = lower(app);
            let c = category_for(app);
            let mail = contains(name, "mail"@) || contains(name, "thunderbird"@) || contains(
                name,
                "outlook"@,
            );
            let chat = contains(name, "whatsapp"@) || contains(name, "slack"@) || contains(
                name,
                "teams"@,
            ) || contains(name, "discord"@) || contains(name, "chat"@) || contains(
                name,
                "messages"@,
            );
            &&& category_for(lower(app)) == c
            &&& w == "mail"@ || w == "thunderbird"@ || w == "outlook"@ ==> c == Category::Mail
            &&& !mail && (w == "whatsapp"@ || w == "slack"@ || w == "teams"@ || w == "discord"@ || w
                == "chat"@ || w == "messages"@) ==> c == Category::Chat
            &&& !mail && !chat && w == "calendar"@ ==> c == Category::Calendar
            &&& !mail && !chat && !contains(name, "calendar"@) ==> c == Category::System
        }),
{
    let app = front + word + back;
    crate::text::small_letters_keep_the_rest(app);
    let w = lower(word);
    assert(w.subrange(0, w.len() as int) =~= w);
    assert(crate::text::occurs_at(w, w, 0));
    lemma_stands_inside(front, word, back, w);
}

/// The icon follows the bundle and the application alike, in letters of any size, and only where
/// neither says anything does the category count.
pub proof fn icon_goes_by_bundle_and_name(bundle: Seq<char>, source_app: Seq<char>, category: i32)
    ensures
        ({
            let icon = icon_hint(bundle, source_app, category);
            let name = lower(bundle + seq![' '] + source_app);
            let mail = contains(name, "mail"@) || contains(name, "outlook"@);
            &&& contains(lower(bundle), "whatsapp"@) || contains(lower(source_app), "whatsapp"@)
                ==> icon == "whatsapp"@
            &&& !contains(name, "whatsapp"@) && (contains(lower(bundle), "mail"@) || contains(
                lower(source_app),
                "mail"@,
            ) || contains(lower(bundle), "outlook"@) || contains(lower(source_app), "outlook"@))
                ==> icon == "mail"@
            &&& !contains(name, "whatsapp"@) && !mail && (contains(lower(bundle), "calendar"@)
                || contains(lower(source_app), "calendar"@)) ==> icon == "calendar"@
            &&& !contains(name, "whatsapp"@) && !mail && !contains(name, "calendar"@) ==> icon
                == if category == 0 {
                "chat"@
            } else {
                "system"@
            }
        }),
{
    let none = Seq::<char>::empty();
    let all = bundle + seq![' '] + source_app;
    assert(none + bundle + (seq![' '] + source_app) =~= all);
    assert(bundle + seq![' '] + source_app + none =~= all);
    assert forall|word: Seq<char>|
        contains(lower(bundle), word) || contains(lower(source_app), word) implies #[trigger] contains(
        lower(all),
        word,
    ) by {
        if contains(lower(bundle), word) {
            lemma_stands_inside(none, bundle, seq![' '] + source_app, word);
        } else {
            lemma_stands_inside(bundle + seq![' '], source_app, none, word);
        }
    }
}

/// The lamps and angles of the four kinds of notification: a chat, a mail, a date, and anything
/// else. In the end the servo always stands at a right angle, and never while the lamps run.
pub proof fn each_category_has_its_animation(category: i32)
    ensures
        ({
            let (pattern, repeats, excited, rest) = animation_for(category);
            &&& rest == 90
            &&& excited != rest
            &&& category == 0 ==> pattern == 2 && repeats == 6 && excited == 200
            &&& category == 1 ==> pattern == 1 && repeats == 3 && excited == 150
            &&& category == 2 ==> pattern == 3 && repeats == 3 && excited == 60
            &&& !(0 <= category <= 2) ==> pattern == 4 && repeats == 3 && excited == 120
        }),
{
}

/// The time that a pattern is given is the time it takes on the lamps: so many settings, so often,
/// each for its time.
pub proof fn animation_time_is_that_of_the_lamps(pattern: u32, repeats: u32)
    ensures
        animation_ms(pattern, repeats) == crate::led::steps_per_round(pattern) * repeats
            * crate::led::step_ms(pattern),
{
    let n = crate::led::steps_per_round(pattern) as int;
    let ms = crate::led::step_ms(pattern) as int;
    let r = repeats as int;
    assert(n * r * ms == (n * ms) * r) by (nonlinear_arith);
}

/// A preset says who sent it, in the sender as in the title, and a chat shows the text there too.
pub proof fn preset_names_the_sender(preset: Seq<char>, from: Seq<char>, text: Seq<char>)
    ensures
        ({
            let (app, bundle, category, title, sender, icon) = preset_notification(
                preset,
                from,
                text,
            );
            &&& sender == from
            &&& category_number(category) == 0 <==> preset == "whatsapp"@
            &&& category_number(category) == 1 <==> preset == "mail"@
            &&& category_number(category) == 2 <==> preset == "calendar"@
            &&& category_number(category) == 0 ==> title == from + ": "@ + text
            &&& category_number(category) != 0 ==> from.len() <= title.len() && title.skip(
                title.len() - from.len(),
            ) == from
            &&& category_number(category) == 3 ==> icon == "system"@
            &&& category_number(category) != 3 ==> icon == preset
        }),
{
    reveal_strlit("whatsapp");
    reveal_strlit("mail");
    reveal_strlit("calendar");
    assert("whatsapp"@.len() == 8 && "mail"@.len() == 4 && "calendar"@.len() == 8);
    assert("whatsapp"@[0] == 'w' && "calendar"@[0] == 'c');
    let title = preset_notification(preset, from, text).3;
    if preset != "whatsapp"@ {
        assert(title.skip(title.len() - from.len()) =~= from);
    }
}

proof fn lemma_normalized(n: nat, significand: nat, exponent: nat)
    requires
        0 < n < 0x100_0000,
        127 <= exponent <= 150,
        0 < significand < 0x100_0000,
        significand == n * two_to((150 - exponent) as nat),
    ensures
        normalized(significand, exponent) <= u32::MAX,
        is_whole_number(normalized(significand, exponent) as u32, n as u32),
    decreases exponent,
{
    lemma_enough_doublings(n);
    if significand < 0x80_0000 {
        if exponent == 127 {
            assert(false);
        }
        let before = two_to((150 - exponent) as nat);
        assert(n * (2 * before) == 2 * (n * before)) by (nonlinear_arith);
        lemma_normalized(n, 2 * significand, (exponent - 1) as nat);
    } else {
        let bits = normalized(significand, exponent);
        assert(bits == exponent * 0x80_0000 + (significand - 0x80_0000));
    }
}

/// The bits of an angle are those of the single-precision number that it is, for every angle that
/// such a number can hold exactly.
pub proof fn angles_are_exact(n: u32)
    requires
        n < 0x100_0000,
    ensures
        is_whole_number(float_bits(n), n),
{
    if n > 0 {
        assert(n * two_to(0) == n) by (nonlinear_arith)
            requires
                two_to(0) == 1,
        ;
        lemma_normalized(n as nat, n as nat, 150);
    }
}

} // verus!

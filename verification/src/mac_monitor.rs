//! Notifications of a Mac, read off the entries of its unified log.
//! Times are nanoseconds of a clock that does not go back.

use vstd::prelude::*;
use vstd::utf8::encode_utf8;
use serde_json::Value;
use crate::behavior::{category_for, map_category};
use crate::command::{ForwardedNotification, ForwardedView};
use crate::message::{category_number, Category};
use crate::monitor::{admitted, has_front, no_repeats, starts_with, Recent};
use crate::text::{chars_of, contains, find_chars, first_at, has_text, part, same_text, text_of};
use crate::text::{split_at_first, take_up_to_any, trim, trim_chars, up_to_any};

verus! {

/// A value of the outside JSON library.
#[verifier::external_type_specification]
#[verifier::external_body]
pub struct ExValue(serde_json::Value);

/// The error of a failed read of the outside JSON library.
#[verifier::external_type_specification]
#[verifier::external_body]
pub struct ExJsonError(serde_json::Error);

/// The members of a JSON object whose values are strings, by their keys; nothing for a value that
/// is no object.
pub uninterp spec fn text_members(value: Value) -> Map<Seq<char>, Seq<char>>;

/// [`text_members`] of the value that a JSON text stands for; nothing for a text that is not JSON.
pub uninterp spec fn members_in_json(text: Seq<char>) -> Option<Map<Seq<char>, Seq<char>>>;

/// `serde_json::from_str` reads a JSON text, and fails where it is none. Which texts are JSON is
/// not said here.
#[verifier::external_body]
fn parse_json(line: &str) -> (r: Result<Value, serde_json::Error>)
    ensures
        match r {
            Ok(value) => members_in_json(line@) == Some(text_members(value)),
            Err(_) => members_in_json(line@) is None,
        },
{
    serde_json::from_str::<Value>(line)
}

/// `Value::get` with `Value::as_str` gives the member with a key if it is a string, and nothing
/// if it is another value, if there is none, or if the value is no object.
#[verifier::external_body]
fn text_member(entry: &Value, key: &str) -> (r: Option<String>)
    ensures
        match r {
            Some(s) => text_members(*entry).contains_key(key@) && text_members(*entry)[key@] == s@,
            None => !text_members(*entry).contains_key(key@),
        },
{
    entry.get(key).and_then(Value::as_str).map(str::to_string)
}

/// What stands behind the first `marker`.
pub open spec fn after_marker(text: Seq<char>, marker: Seq<char>) -> Option<Seq<char>> {
    match first_at(text, marker) {
        Some(i) => Some(text.skip(i + marker.len())),
        None => None,
    }
}

/// What stands behind the first `marker`.
pub fn extract_after(text: &[char], marker: &str) -> (r: Option<Vec<char>>)
    ensures
        match r {
            Some(rest) => after_marker(text@, marker@) == Some(rest@),
            None => after_marker(text@, marker@) is None,
        },
{
    let m = chars_of(marker);
    let end: usize = text.len();
    match find_chars(text, m.as_slice()) {
        Some(i) => {
            assert(i + m@.len() <= end);
            let rest = part(text, i + m.len(), end);
            assert(rest@ =~= text@.skip(i + marker@.len()));
            Some(rest)
        },
        None => None,
    }
}

/// What stands between the first `start` and the next `end`, without white space around it, if
/// anything does.
pub open spec fn between(text: Seq<char>, start: Seq<char>, end: Seq<char>) -> Option<Seq<char>> {
    match after_marker(text, start) {
        Some(rest) => match first_at(rest, end) {
            Some(e) => {
                let value = trim(rest.take(e));
                if value.len() == 0 {
                    None
                } else {
                    Some(value)
                }
            },
            None => None,
        },
        None => None,
    }
}

/// What stands between two markers, without white space around it, if anything does.
pub fn extract_between(text: &[char], start_marker: &str, end_marker: &str) -> (r: Option<String>)
    ensures
        match r {
            Some(s) => between(text@, start_marker@, end_marker@) == Some(s@),
            None => between(text@, start_marker@, end_marker@) is None,
        },
{
    let rest = match extract_after(text, start_marker) {
        Some(rest) => rest,
        None => {
            return None;
        },
    };
    let end = chars_of(end_marker);
    match find_chars(rest.as_slice(), end.as_slice()) {
        Some(e) => {
            let raw = part(rest.as_slice(), 0, e);
            assert(raw@ =~= rest@.take(e as int));
            let value = trim_chars(raw.as_slice());
            if value.len() == 0 {
                None
            } else {
                Some(text_of(value.as_slice()))
            }
        },
        None => None,
    }
}

/// `text` up to the first of `delims`, without white space around it.
pub open spec fn until_any(text: Seq<char>, delims: Seq<char>) -> Seq<char> {
    trim(up_to_any(text, delims))
}

/// `text` up to the first of `delims`, without white space around it.
pub fn read_until_any(text: &[char], delims: &[char]) -> (r: Vec<char>)
    ensures
        r@ == until_any(text@, delims@),
{
    let front = take_up_to_any(text, delims);
    trim_chars(front.as_slice())
}

/// What stands behind a marker and before one of two delimiters, if anything does.
pub open spec fn field_after(text: Seq<char>, marker: Seq<char>, d1: char, d2: char) -> Option<
    Seq<char>,
> {
    match after_marker(text, marker) {
        Some(rest) => {
            let value = until_any(rest, seq![d1, d2]);
            if value.len() == 0 {
                None
            } else {
                Some(value)
            }
        },
        None => None,
    }
}

fn read_field_after(text: &[char], marker: &str, d1: char, d2: char) -> (r: Option<String>)
    ensures
        match r {
            Some(s) => field_after(text@, marker@, d1, d2) == Some(s@),
            None => field_after(text@, marker@, d1, d2) is None,
        },
{
    match extract_after(text, marker) {
        Some(rest) => {
            let mut delims: Vec<char> = Vec::new();
            delims.push(d1);
            delims.push(d2);
            assert(delims@ =~= seq![d1, d2]);
            let value = read_until_any(rest.as_slice(), delims.as_slice());
            if value.len() == 0 {
                None
            } else {
                Some(text_of(value.as_slice()))
            }
        },
        None => None,
    }
}

/// What stands before and behind the first colon of the name under which a notification was
/// stored.
pub open spec fn stored_name(message: Seq<char>) -> Option<(Seq<char>, Seq<char>)> {
    match after_marker(message, "Adding notification to storage: "@) {
        Some(rest) => split_at_first(until_any(rest, seq![' ', ']']), seq![':']),
        None => None,
    }
}

fn read_stored_name(message: &[char]) -> (r: Option<(String, String)>)
    ensures
        match r {
            Some((a, b)) => stored_name(message@) == Some((a@, b@)),
            None => stored_name(message@) is None,
        },
{
    match extract_after(message, "Adding notification to storage: ") {
        Some(rest) => {
            let mut delims: Vec<char> = Vec::new();
            delims.push(' ');
            delims.push(']');
            assert(delims@ =~= seq![' ', ']']);
            let token = read_until_any(rest.as_slice(), delims.as_slice());
            let mut colon: Vec<char> = Vec::new();
            colon.push(':');
            assert(colon@ =~= seq![':']);
            let end: usize = token.len();
            match find_chars(token.as_slice(), colon.as_slice()) {
                Some(i) => {
                    assert(i + 1 <= end);
                    let front = part(token.as_slice(), 0, i);
                    let back = part(token.as_slice(), i + 1, end);
                    assert(front@ =~= token@.take(i as int));
                    assert(back@ =~= token@.skip(i + 1));
                    Some((text_of(front.as_slice()), text_of(back.as_slice())))
                },
                None => None,
            }
        },
        None => None,
    }
}

/// The bundle that a log message speaks of: the first of four ways in which it may be written.
pub open spec fn bundle_in(message: Seq<char>) -> Option<Seq<char>> {
    match field_after(message, "bundle="@, ',', ']') {
        Some(b) => Some(b),
        None => match field_after(message, "bundleIdentifier: "@, ';', '>') {
            Some(b) => Some(b),
            None => match stored_name(message) {
                Some((bundle, _)) => if bundle.len() > 0 {
                    Some(bundle)
                } else {
                    between(message, "app:\""@, "\""@)
                },
                None => between(message, "app:\""@, "\""@),
            },
        },
    }
}

/// The bundle that a log message speaks of.
pub fn extract_bundle_id_from_message(message: &str) -> (r: Option<String>)
    ensures
        match r {
            Some(s) => bundle_in(message@) == Some(s@),
            None => bundle_in(message@) is None,
        },
{
    let chars = chars_of(message);
    let text = chars.as_slice();
    if let Some(b) = read_field_after(text, "bundle=", ',', ']') {
        return Some(b);
    }
    if let Some(b) = read_field_after(text, "bundleIdentifier: ", ';', '>') {
        return Some(b);
    }
    if let Some((bundle, _)) = read_stored_name(text) {
        if !bundle.as_str().is_empty() {
            return Some(bundle);
        }
    }
    extract_between(text, "app:\"", "\"")
}

/// The notification that a log message speaks of.
pub open spec fn notification_id_in(message: Seq<char>) -> Option<Seq<char>> {
    match field_after(message, "id="@, ',', ']') {
        Some(id) => Some(id),
        None => match stored_name(message) {
            Some((_, id)) => if id.len() > 0 {
                Some(id)
            } else {
                between(message, "ident:\""@, "\""@)
            },
            None => between(message, "ident:\""@, "\""@),
        },
    }
}

/// The notification that a log message speaks of.
pub fn extract_notification_id_from_message(message: &str) -> (r: Option<String>)
    ensures
        match r {
            Some(s) => notification_id_in(message@) == Some(s@),
            None => notification_id_in(message@) is None,
        },
{
    let chars = chars_of(message);
    let text = chars.as_slice();
    if let Some(id) = read_field_after(text, "id=", ',', ']') {
        return Some(id);
    }
    if let Some((_, id)) = read_stored_name(text) {
        if !id.as_str().is_empty() {
            return Some(id);
        }
    }
    extract_between(text, "ident:\"", "\"")
}

/// What stands behind the last dot, or everything where there is none.
pub open spec fn after_last_dot(s: Seq<char>) -> Seq<char>
    decreases s.len(),
{
    if s.len() == 0 || s.last() == '.' {
        Seq::empty()
    } else {
        after_last_dot(s.drop_last()).push(s.last())
    }
}

/// The name of the application with a bundle.
pub fn bundle_id_to_app_name(bundle_id: &str) -> (r: String)
    ensures
        r@ == after_last_dot(bundle_id@),
{
    let chars = chars_of(bundle_id);
    let mut from: usize = chars.len();
    let ghost s = bundle_id@;
    assert(s.take(from as int) =~= s);
    assert(after_last_dot(s) =~= after_last_dot(s.take(from as int)) + s.skip(from as int));
    while from > 0 && chars[from - 1] != '.'
        invariant
            from <= chars@.len(),
            chars@ == s,
            after_last_dot(s) == after_last_dot(s.take(from as int)) + s.skip(from as int),
        decreases from,
    {
        let ghost t = s.take(from as int);
        assert(t.drop_last() =~= s.take(from - 1));
        assert(after_last_dot(t.drop_last()).push(t.last()) + s.skip(from as int)
            =~= after_last_dot(s.take(from - 1)) + s.skip(from - 1));
        from = from - 1;
    }
    assert(after_last_dot(s.take(from as int)) =~= Seq::<char>::empty());
    let name = part(chars.as_slice(), from, chars.len());
    assert(name@ =~= s.skip(from as int));
    assert(Seq::<char>::empty() + name@ =~= name@);
    text_of(name.as_slice())
}

/// The sender before a delimiter, if one stands there: not empty, and less than 40 bytes long.
pub open spec fn sender_before(text: Seq<char>, delimiter: Seq<char>) -> Option<Seq<char>> {
    match split_at_first(text, delimiter) {
        Some((front, _)) => {
            let sender = trim(front);
            if sender.len() > 0 && encode_utf8(sender).len() < 40 {
                Some(sender)
            } else {
                None
            }
        },
        None => None,
    }
}

fn read_sender_before(text: &[char], delimiter: &str) -> (r: Option<String>)
    ensures
        match r {
            Some(s) => sender_before(text@, delimiter@) == Some(s@),
            None => sender_before(text@, delimiter@) is None,
        },
{
    let d = chars_of(delimiter);
    match find_chars(text, d.as_slice()) {
        Some(i) => {
            let front = part(text, 0, i);
            assert(front@ =~= text@.take(i as int));
            let trimmed = trim_chars(front.as_slice());
            let sender = text_of(trimmed.as_slice());
            if trimmed.len() > 0 && sender.as_str().as_bytes().len() < 40 {
                Some(sender)
            } else {
                None
            }
        },
        None => None,
    }
}

/// Who sent what a text says, by the first of three delimiters behind which nothing speaks
/// against it; nobody if there is none.
pub open spec fn sender_in(text: Seq<char>) -> Seq<char> {
    match sender_before(text, ":"@) {
        Some(s) => s,
        None => match sender_before(text, " - "@) {
            Some(s) => s,
            None => match sender_before(text, " | "@) {
                Some(s) => s,
                None => Seq::empty(),
            },
        },
    }
}

/// Who sent what a text says; nobody if it does not say so.
pub fn guess_sender_from_text(text: &str) -> (r: String)
    ensures
        r@ == sender_in(text@),
{
    let chars = chars_of(text);
    if let Some(s) = read_sender_before(chars.as_slice(), ":") {
        return s;
    }
    if let Some(s) = read_sender_before(chars.as_slice(), " - ") {
        return s;
    }
    if let Some(s) = read_sender_before(chars.as_slice(), " | ") {
        return s;
    }
    String::new()
}

/// Whether a log entry reports a notification that is shown.
pub open spec fn reports_notification(subsystem: Seq<char>, message: Seq<char>) -> bool {
    &&& subsystem == "com.apple.unc"@
    &&& starts_with(message, "Presenting <NotificationRecord "@) || starts_with(
        message,
        "Delivering <NotificationRecord "@,
    )
}

/// Whether a log entry reports a notification that is shown.
pub fn should_forward_macos_event(subsystem: &str, event_message: &str) -> (r: bool)
    ensures
        r == reports_notification(subsystem@, event_message@),
{
    if !same_text(subsystem, "com.apple.unc") {
        return false;
    }
    let chars = chars_of(event_message);
    has_front(chars.as_slice(), "Presenting <NotificationRecord ") || has_front(
        chars.as_slice(),
        "Delivering <NotificationRecord ",
    )
}

/// `s`, or nothing where there is none.
pub open spec fn or_empty(s: Option<Seq<char>>) -> Seq<char> {
    match s {
        Some(t) => t,
        None => Seq::empty(),
    }
}

/// The bundle of a log entry: what its message says, else its topic, else its own member for it.
pub open spec fn entry_bundle(
    message: Seq<char>,
    topic: Option<Seq<char>>,
    bundle: Option<Seq<char>>,
) -> Option<Seq<char>> {
    match bundle_in(message) {
        Some(b) => Some(b),
        None => match topic {
            Some(t) => Some(t),
            None => bundle,
        },
    }
}

/// The notification that a log message reports for a bundle.
pub open spec fn event_for(message: Seq<char>, bundle: Seq<char>) -> ForwardedView {
    let category = category_for(bundle);
    let source_app = after_last_dot(bundle);
    let sender = if contains(bundle, "WhatsApp"@) {
        sender_in(message)
    } else {
        Seq::empty()
    };
    ForwardedView {
        source_app,
        source_bundle_id: bundle,
        notification_id: or_empty(notification_id_in(message)),
        title: if sender.len() > 0 {
            sender + " message"@
        } else if category == Category::Chat {
            "Message on "@ + source_app
        } else {
            "Notification from "@ + source_app
        },
        body: message,
        sender_name: sender,
        category: category_number(category) as i32,
    }
}

/// The notification that a log entry with these members reports, if it reports one.
pub open spec fn event_in(
    subsystem: Option<Seq<char>>,
    message: Option<Seq<char>>,
    topic: Option<Seq<char>>,
    bundle: Option<Seq<char>>,
) -> Option<ForwardedView> {
    if !reports_notification(or_empty(subsystem), or_empty(message)) {
        None
    } else {
        match entry_bundle(or_empty(message), topic, bundle) {
            Some(b) => Some(event_for(or_empty(message), b)),
            None => None,
        }
    }
}

/// A text that may be missing, as seen by the contracts.
pub open spec fn opt_view(s: Option<String>) -> Option<Seq<char>> {
    match s {
        Some(t) => Some(t@),
        None => None,
    }
}

/// A notification that may be missing, as seen by the contracts.
pub open spec fn opt_event(e: Option<ForwardedNotification>) -> Option<ForwardedView> {
    match e {
        Some(n) => Some(n@),
        None => None,
    }
}

fn text_or_empty(s: Option<String>) -> (r: String)
    ensures
        r@ == or_empty(opt_view(s)),
{
    match s {
        Some(t) => t,
        None => {
            let r = String::new();
            assert(r@ =~= Seq::<char>::empty());
            r
        },
    }
}

/// The notification that a log entry with these members reports, if it reports one.
pub fn event_from_members(
    subsystem: Option<String>,
    message: Option<String>,
    topic: Option<String>,
    bundle: Option<String>,
) -> (r: Option<ForwardedNotification>)
    ensures
        opt_event(r) == event_in(
            opt_view(subsystem),
            opt_view(message),
            opt_view(topic),
            opt_view(bundle),
        ),
{
    let subsystem = text_or_empty(subsystem);
    let event_message = text_or_empty(message);
    if !should_forward_macos_event(subsystem.as_str(), event_message.as_str()) {
        return None;
    }
    let bundle_id = match extract_bundle_id_from_message(event_message.as_str()) {
        Some(b) => b,
        None => match topic {
            Some(t) => t,
            None => match bundle {
                Some(b) => b,
                None => {
                    return None;
                },
            },
        },
    };
    let category: i32 = map_category(bundle_id.as_str());
    let source_app = bundle_id_to_app_name(bundle_id.as_str());
    let bundle_chars = chars_of(bundle_id.as_str());
    let sender_name = if has_text(bundle_chars.as_slice(), "WhatsApp") {
        guess_sender_from_text(event_message.as_str())
    } else {
        String::new()
    };
    let title = if !sender_name.as_str().is_empty() {
        let mut t = sender_name.clone();
        t.append(" message");
        t
    } else if category == Category::Chat.number() {
        let mut t = "Message on ".to_string();
        t.append(source_app.as_str());
        t
    } else {
        let mut t = "Notification from ".to_string();
        t.append(source_app.as_str());
        t
    };
    let notification_id = text_or_empty(
        extract_notification_id_from_message(event_message.as_str()),
    );
    let ghost expected = event_for(event_message@, bundle_id@);
    let event = ForwardedNotification {
        source_app,
        source_bundle_id: bundle_id,
        notification_id,
        title,
        body: event_message,
        sender_name,
        category,
    };
    assert(event@ =~= expected);
    Some(event)
}

/// A member of a log entry, if it is there and a string.
pub open spec fn member(members: Map<Seq<char>, Seq<char>>, key: Seq<char>) -> Option<Seq<char>> {
    if members.contains_key(key) {
        Some(members[key])
    } else {
        None
    }
}

/// The notification that a log entry reports, if it reports one.
pub open spec fn event_in_entry(members: Map<Seq<char>, Seq<char>>) -> Option<ForwardedView> {
    event_in(
        member(members, "subsystem"@),
        member(members, "eventMessage"@),
        member(members, "topic"@),
        member(members, "bundle-id"@),
    )
}

/// The notification that a log entry reports, if it reports one.
pub fn extract_macos_notification_event(entry: &Value) -> (r: Option<ForwardedNotification>)
    ensures
        opt_event(r) == event_in_entry(text_members(*entry)),
{
    event_from_members(
        text_member(entry, "subsystem"),
        text_member(entry, "eventMessage"),
        text_member(entry, "topic"),
        text_member(entry, "bundle-id"),
    )
}

/// By what a notification is recognised when it comes again.
pub open spec fn mac_signature(event: ForwardedView) -> Seq<char> {
    if event.notification_id.len() == 0 {
        event.source_bundle_id + ":"@ + event.title + ":"@ + event.sender_name
    } else {
        event.source_bundle_id + ":"@ + event.notification_id
    }
}

/// What was forwarded lately once a log entry has been looked at, and the notification to
/// forward, if the entry reports a new one.
pub open spec fn after_entry(
    recent: Seq<(Seq<char>, u64)>,
    event: Option<ForwardedView>,
    now: u64,
) -> (Seq<(Seq<char>, u64)>, Option<ForwardedView>) {
    match event {
        Some(e) => {
            let (next, new) = admitted(recent, mac_signature(e), now, true);
            (
                next,
                if new {
                    Some(e)
                } else {
                    None
                },
            )
        },
        None => (recent, None),
    }
}

/// Holds back a notification that was forwarded just now.
pub fn forward_once(recent: &mut Recent, event: Option<ForwardedNotification>, now: u64) -> (r:
    Option<ForwardedNotification>)
    requires
        no_repeats(old(recent)@),
    ensures
        no_repeats(final(recent)@),
        (final(recent)@, opt_event(r)) == after_entry(old(recent)@, opt_event(event), now),
{
    let event = match event {
        Some(e) => e,
        None => {
            return None;
        },
    };
    let mut signature = event.source_bundle_id.clone();
    signature.append(":");
    if event.notification_id.as_str().is_empty() {
        signature.append(event.title.as_str());
        signature.append(":");
        signature.append(event.sender_name.as_str());
    } else {
        signature.append(event.notification_id.as_str());
    }
    assert(signature@ == mac_signature(event@));
    if recent.take_note(signature, now, true) {
        Some(event)
    } else {
        None
    }
}

/// The notification that a line of the log reports, if it is an entry that reports one.
pub open spec fn event_on_line(line: Seq<char>) -> Option<ForwardedView> {
    match members_in_json(line) {
        Some(members) => event_in_entry(members),
        None => None,
    }
}

/// Takes a line of the log, and gives the notification to forward, if it reports a new one.
pub fn on_log_line(recent: &mut Recent, line: &str, now: u64) -> (r: Option<ForwardedNotification>)
    requires
        no_repeats(old(recent)@),
    ensures
        no_repeats(final(recent)@),
        (final(recent)@, opt_event(r)) == after_entry(old(recent)@, event_on_line(line@), now),
{
    match parse_json(line) {
        Ok(entry) => {
            let event = extract_macos_notification_event(&entry);
            forward_once(recent, event, now)
        },
        Err(_) => None,
    }
}

/// Two notifications of one application with ids of their own that differ, and two of different
/// applications with one id, are never held back for each other: whatever the time between them,
/// the second is forwarded wherever it would be without the first.
pub proof fn different_ids_are_both_forwarded(
    recent: Seq<(Seq<char>, u64)>,
    a: ForwardedView,
    b: ForwardedView,
    first: u64,
    now: u64,
)
    requires
        a.notification_id.len() > 0,
        b.notification_id.len() > 0,
        ({
            ||| a.source_bundle_id == b.source_bundle_id && a.notification_id != b.notification_id
            ||| a.source_bundle_id != b.source_bundle_id && a.notification_id == b.notification_id
        }),
        after_entry(recent, Some(b), now).1 is Some,
    ensures
        after_entry(after_entry(recent, Some(a), first).0, Some(b), now).1 == Some(b),
{
    let none = Seq::<char>::empty();
    let colon = ":"@;
    assert(mac_signature(a) != mac_signature(b)) by {
        if a.source_bundle_id == b.source_bundle_id {
            let front = a.source_bundle_id + colon;
            crate::text::lemma_apart(front, a.notification_id, b.notification_id, none);
            assert(front + a.notification_id + none =~= mac_signature(a));
            assert(front + b.notification_id + none =~= mac_signature(b));
        } else {
            let back = colon + a.notification_id;
            crate::text::lemma_apart(none, a.source_bundle_id, b.source_bundle_id, back);
            assert(none + a.source_bundle_id + back =~= mac_signature(a));
            assert(none + b.source_bundle_id + back =~= mac_signature(b));
        }
    }
    crate::monitor::others_are_not_held_back(
        recent,
        mac_signature(a),
        first,
        mac_signature(b),
        now,
        true,
    );
}

/// A notification with an application and an id that were forwarded is a repeat in the four seconds
/// behind that, whatever its title, its sender and its text are, and no longer.
pub proof fn same_id_is_a_repeat(
    recent: Seq<(Seq<char>, u64)>,
    a: ForwardedView,
    b: ForwardedView,
    first: u64,
    now: u64,
)
    requires
        a.source_bundle_id == b.source_bundle_id,
        a.notification_id == b.notification_id,
        a.notification_id.len() > 0,
        after_entry(recent, Some(a), first).1 is Some,
        first <= now,
    ensures
        after_entry(after_entry(recent, Some(a), first).0, Some(b), now).1 == if now - first
            < 4_000_000_000 {
            None
        } else {
            Some(b)
        },
{
    crate::monitor::repeat_waits_four_seconds(recent, mac_signature(a), first, now, true);
}

/// Notifications without an id are told apart by the application, the title and the sender: those
/// that differ in one of them are both forwarded.
pub proof fn without_ids_the_words_count(
    recent: Seq<(Seq<char>, u64)>,
    a: ForwardedView,
    b: ForwardedView,
    first: u64,
    now: u64,
)
    requires
        a.notification_id.len() == 0,
        b.notification_id.len() == 0,
        ({
            ||| a.source_bundle_id != b.source_bundle_id && a.title == b.title && a.sender_name
                == b.sender_name
            ||| a.source_bundle_id == b.source_bundle_id && a.title != b.title && a.sender_name
                == b.sender_name
            ||| a.source_bundle_id == b.source_bundle_id && a.title == b.title && a.sender_name
                != b.sender_name
        }),
        after_entry(recent, Some(b), now).1 is Some,
    ensures
        after_entry(after_entry(recent, Some(a), first).0, Some(b), now).1 == Some(b),
{
    let none = Seq::<char>::empty();
    let colon = ":"@;
    assert(mac_signature(a) != mac_signature(b)) by {
        if a.source_bundle_id != b.source_bundle_id {
            let back = colon + a.title + colon + a.sender_name;
            crate::text::lemma_apart(none, a.source_bundle_id, b.source_bundle_id, back);
            assert(none + a.source_bundle_id + back =~= mac_signature(a));
            assert(none + b.source_bundle_id + back =~= mac_signature(b));
        } else if a.title != b.title {
            let front = a.source_bundle_id + colon;
            let back = colon + a.sender_name;
            crate::text::lemma_apart(front, a.title, b.title, back);
            assert(front + a.title + back =~= mac_signature(a));
            assert(front + b.title + back =~= mac_signature(b));
        } else {
            let front = a.source_bundle_id + colon + a.title + colon;
            crate::text::lemma_apart(front, a.sender_name, b.sender_name, none);
            assert(front + a.sender_name + none =~= mac_signature(a));
            assert(front + b.sender_name + none =~= mac_signature(b));
        }
    }
    crate::monitor::others_are_not_held_back(
        recent,
        mac_signature(a),
        first,
        mac_signature(b),
        now,
        true,
    );
}

/// Without ids, one that has the application, the title and the sender of one that was forwarded is
/// a repeat in the four seconds behind that, whatever its text is, and no longer.
pub proof fn without_ids_the_same_words_are_a_repeat(
    recent: Seq<(Seq<char>, u64)>,
    a: ForwardedView,
    b: ForwardedView,
    first: u64,
    now: u64,
)
    requires
        a.notification_id.len() == 0,
        b.notification_id.len() == 0,
        a.source_bundle_id == b.source_bundle_id,
        a.title == b.title,
        a.sender_name == b.sender_name,
        after_entry(recent, Some(a), first).1 is Some,
        first <= now,
    ensures
        after_entry(after_entry(recent, Some(a), first).0, Some(b), now).1 == if now - first
            < 4_000_000_000 {
            None
        } else {
            Some(b)
        },
{
    crate::monitor::repeat_waits_four_seconds(recent, mac_signature(a), first, now, true);
}

/// What is forwarded is the notification itself; the first one of all is, and an entry without one
/// does nothing.
pub proof fn notifications_pass_unchanged(
    recent: Seq<(Seq<char>, u64)>,
    event: ForwardedView,
    now: u64,
)
    ensures
        after_entry(recent, Some(event), now).1 matches Some(e) ==> e == event,
        recent.len() == 0 ==> after_entry(recent, Some(event), now).1 == Some(event),
        after_entry(recent, None, now) == (recent, None::<ForwardedView>),
{
    if recent.len() == 0 {
        assert(crate::monitor::retained(recent, now, true).len() == 0);
    }
}

/// An entry reports a notification exactly where the notification centre says that it presents or
/// delivers one and the application is known; its message is then the text, word for word, and the
/// application the one of the bundle.
pub proof fn entry_fields_arrive(
    subsystem: Option<Seq<char>>,
    message: Seq<char>,
    topic: Option<Seq<char>>,
    bundle: Option<Seq<char>>,
)
    ensures
        ({
            let r = event_in(subsystem, Some(message), topic, bundle);
            let named = bundle_in(message);
            &&& r is Some <==> {
                &&& subsystem == Some("com.apple.unc"@)
                &&& starts_with(message, "Presenting <NotificationRecord "@) || starts_with(
                    message,
                    "Delivering <NotificationRecord "@,
                )
                &&& named is Some || topic is Some || bundle is Some
            }
            &&& r matches Some(e) ==> {
                &&& e.body == message
                &&& named is Some ==> e.source_bundle_id == named->0
                &&& named is None && topic is Some ==> e.source_bundle_id == topic->0
                &&& named is None && topic is None ==> e.source_bundle_id == bundle->0
                &&& notification_id_in(message) is Some ==> e.notification_id == notification_id_in(
                    message,
                )->0
                &&& notification_id_in(message) is None ==> e.notification_id.len() == 0
                &&& e.category == category_number(category_for(e.source_bundle_id))
                &&& contains(e.source_bundle_id, "WhatsApp"@) ==> e.sender_name == sender_in(message)
                &&& !contains(e.source_bundle_id, "WhatsApp"@) ==> e.sender_name.len() == 0
                &&& e.sender_name.len() > 0 ==> e.title == e.sender_name + " message"@
                &&& e.sender_name.len() == 0 && e.category == 0 ==> e.title == "Message on "@
                    + e.source_app
                &&& e.sender_name.len() == 0 && e.category != 0 ==> e.title == "Notification from "@
                    + e.source_app
            }
        }),
        event_in(subsystem, None, topic, bundle) is None,
{
    reveal_strlit("com.apple.unc");
    reveal_strlit("Presenting <NotificationRecord ");
    reveal_strlit("Delivering <NotificationRecord ");
    assert("com.apple.unc"@.len() > 0);
    assert("Presenting <NotificationRecord "@.len() > 0);
    assert("Delivering <NotificationRecord "@.len() > 0);
}

/// The name of an application is what stands behind the last dot of its bundle; a bundle without a
/// dot is the name.
pub proof fn application_stands_behind_the_last_dot(front: Seq<char>, name: Seq<char>)
    requires
        forall|i: int| 0 <= i < name.len() ==> (#[trigger] name[i]) != '.',
    ensures
        after_last_dot(front + seq!['.'] + name) == name,
        after_last_dot(name) == name,
        forall|message: Seq<char>|
            (#[trigger] event_for(message, front + seq!['.'] + name)).source_app == name,
    decreases name.len(),
{
    let s = front + seq!['.'] + name;
    if name.len() > 0 {
        let less = name.drop_last();
        assert forall|i: int| 0 <= i < less.len() implies (#[trigger] less[i]) != '.' by {
            assert(less[i] == name[i]);
        }
        application_stands_behind_the_last_dot(front, less);
        assert(s.drop_last() =~= front + seq!['.'] + less);
        assert(s.last() == name[name.len() - 1]);
        assert(less.push(name.last()) =~= name);
    } else {
        assert(s.last() == '.');
        assert(name =~= Seq::<char>::empty());
    }
}

proof fn lemma_field(
    front: Seq<char>,
    marker: Seq<char>,
    value: Seq<char>,
    rest: Seq<char>,
    d1: char,
    d2: char,
)
    requires
        forall|i: int|
            0 <= i < front.len() ==> !#[trigger] crate::text::occurs_at(
                front + marker + value + rest,
                marker,
                i,
            ),
        value.len() > 0,
        !crate::text::white_space(value[0]),
        !crate::text::white_space(value.last()),
        forall|i: int|
            0 <= i < value.len() ==> (#[trigger] value[i]) != d1 && value[i] != d2,
        rest.len() > 0 ==> rest[0] == d1 || rest[0] == d2,
    ensures
        after_marker(front + marker + value + rest, marker) == Some(value + rest),
        field_after(front + marker + value + rest, marker, d1, d2) == Some(value),
{
    let text = front + marker + value + rest;
    let n = front.len() as int;
    assert(text.subrange(n, n + marker.len()) =~= marker);
    assert(crate::text::is_first_at(text, marker, n));
    crate::text::lemma_first_at_unique(text, marker, n);
    assert(text.skip(n + marker.len()) =~= value + rest);
    let stops = seq![d1, d2];
    assert(stops[0] == d1 && stops[1] == d2);
    if rest.len() > 0 {
        assert(stops.contains(rest[0]));
    }
    crate::text::value_is_read_whole(value, stops, rest);
    let none = Seq::<char>::empty();
    crate::text::trimming_finds_what_is_inside(none, value, none);
    assert(none + value + none =~= value);
}

/// The bundle that a message names is read whole, up to the delimiter behind it: in front of all
/// behind `bundle=`, and where that says nothing behind `bundleIdentifier: `.
pub proof fn named_bundle_is_read(
    front: Seq<char>,
    value: Seq<char>,
    rest: Seq<char>,
    message: Seq<char>,
)
    requires
        value.len() > 0,
        !crate::text::white_space(value[0]),
        !crate::text::white_space(value.last()),
    ensures
        message == front + "bundle="@ + value + rest && (forall|i: int|
            0 <= i < front.len() ==> !#[trigger] crate::text::occurs_at(message, "bundle="@, i)) && (
        forall|i: int| 0 <= i < value.len() ==> (#[trigger] value[i]) != ',' && value[i] != ']') && (
        rest.len() > 0 ==> rest[0] == ',' || rest[0] == ']') ==> bundle_in(message) == Some(value),
        message == front + "bundleIdentifier: "@ + value + rest && (forall|i: int|
            0 <= i < front.len() ==> !#[trigger] crate::text::occurs_at(
                message,
                "bundleIdentifier: "@,
                i,
            )) && (forall|i: int|
            0 <= i < value.len() ==> (#[trigger] value[i]) != ';' && value[i] != '>') && (rest.len()
            > 0 ==> rest[0] == ';' || rest[0] == '>') && !contains(message, "bundle="@)
            ==> bundle_in(message) == Some(value),
{
    if message == front + "bundle="@ + value + rest && (forall|i: int|
        0 <= i < front.len() ==> !#[trigger] crate::text::occurs_at(message, "bundle="@, i)) && (
    forall|i: int| 0 <= i < value.len() ==> (#[trigger] value[i]) != ',' && value[i] != ']') && (
    rest.len() > 0 ==> rest[0] == ',' || rest[0] == ']') {
        lemma_field(front, "bundle="@, value, rest, ',', ']');
    }
    if message == front + "bundleIdentifier: "@ + value + rest && (forall|i: int|
        0 <= i < front.len() ==> !#[trigger] crate::text::occurs_at(
            message,
            "bundleIdentifier: "@,
            i,
        )) && (forall|i: int|
        0 <= i < value.len() ==> (#[trigger] value[i]) != ';' && value[i] != '>') && (rest.len() > 0
        ==> rest[0] == ';' || rest[0] == '>') && !contains(message, "bundle="@) {
        lemma_field(front, "bundleIdentifier: "@, value, rest, ';', '>');
    }
}

/// The id that a message gives behind `id=` is read whole, up to the delimiter behind it.
pub proof fn given_id_is_read(front: Seq<char>, value: Seq<char>, rest: Seq<char>)
    requires
        forall|i: int|
            0 <= i < front.len() ==> !#[trigger] crate::text::occurs_at(
                front + "id="@ + value + rest,
                "id="@,
                i,
            ),
        value.len() > 0,
        !crate::text::white_space(value[0]),
        !crate::text::white_space(value.last()),
        forall|i: int| 0 <= i < value.len() ==> (#[trigger] value[i]) != ',' && value[i] != ']',
        rest.len() > 0 ==> rest[0] == ',' || rest[0] == ']',
    ensures
        notification_id_in(front + "id="@ + value + rest) == Some(value),
{
    lemma_field(front, "id="@, value, rest, ',', ']');
}

/// A message that says what is put into storage names the bundle before the first colon of it and
/// the id behind that, where it names neither in another way.
pub proof fn stored_name_is_read(front: Seq<char>, bundle: Seq<char>, id: Seq<char>, rest: Seq<char>)
    requires
        bundle.len() > 0,
        id.len() > 0,
        !crate::text::white_space(bundle[0]),
        !crate::text::white_space(id.last()),
        forall|i: int|
            0 <= i < bundle.len() ==> (#[trigger] bundle[i]) != ' ' && bundle[i] != ']' && bundle[i]
                != ':',
        forall|i: int| 0 <= i < id.len() ==> (#[trigger] id[i]) != ' ' && id[i] != ']',
        rest.len() > 0 ==> rest[0] == ' ' || rest[0] == ']',
        ({
            let message = front + "Adding notification to storage: "@ + (bundle + seq![':'] + id)
                + rest;
            &&& forall|i: int|
                0 <= i < front.len() ==> !#[trigger] crate::text::occurs_at(
                    message,
                    "Adding notification to storage: "@,
                    i,
                )
            &&& !contains(message, "bundle="@)
            &&& !contains(message, "bundleIdentifier: "@)
            &&& !contains(message, "id="@)
        }),
    ensures
        ({
            let message = front + "Adding notification to storage: "@ + (bundle + seq![':'] + id)
                + rest;
            &&& bundle_in(message) == Some(bundle)
            &&& notification_id_in(message) == Some(id)
        }),
{
    let colon = seq![':'];
    let value = bundle + colon + id;
    let n = bundle.len() as int;
    assert(value[0] == bundle[0]);
    assert(value.last() == id.last());
    assert forall|i: int| 0 <= i < value.len() implies (#[trigger] value[i]) != ' ' && value[i]
        != ']' by {
        if i < n {
            assert(value[i] == bundle[i]);
        } else if i > n {
            assert(value[i] == id[i - n - 1]);
        }
    }
    let message = front + "Adding notification to storage: "@ + value + rest;
    lemma_field(front, "Adding notification to storage: "@, value, rest, ' ', ']');
    assert(value.subrange(n, n + 1) =~= colon);
    assert(crate::text::occurs_at(value, colon, n));
    assert forall|j: int| 0 <= j < n implies !crate::text::occurs_at(value, colon, j) by {
        assert(value.subrange(j, j + 1)[0] == bundle[j]);
    }
    crate::text::lemma_first_at_unique(value, colon, n);
    assert(value.take(n) =~= bundle);
    assert(value.skip(n + 1) =~= id);
    assert(until_any(value + rest, seq![' ', ']']) == value);
    assert(stored_name(message) == Some((bundle, id)));
}

/// In a message that names them in quotes, and in no other way, the bundle and the id are read from
/// between the quotes, whole.
pub proof fn quoted_names_are_read(
    front: Seq<char>,
    value: Seq<char>,
    back: Seq<char>,
    message: Seq<char>,
)
    requires
        value.len() > 0,
        !crate::text::white_space(value[0]),
        !crate::text::white_space(value.last()),
        forall|i: int| 0 <= i < value.len() ==> (#[trigger] value[i]) != '"',
        !contains(message, "Adding notification to storage: "@),
    ensures
        message == front + "app:\""@ + value + "\""@ + back && (forall|i: int|
            0 <= i < front.len() ==> !#[trigger] crate::text::occurs_at(message, "app:\""@, i))
            && !contains(message, "bundle="@) && !contains(message, "bundleIdentifier: "@)
            ==> bundle_in(message) == Some(value),
        message == front + "ident:\""@ + value + "\""@ + back && (forall|i: int|
            0 <= i < front.len() ==> !#[trigger] crate::text::occurs_at(message, "ident:\""@, i))
            && !contains(message, "id="@) ==> notification_id_in(message) == Some(value),
{
    if message == front + "app:\""@ + value + "\""@ + back && (forall|i: int|
        0 <= i < front.len() ==> !#[trigger] crate::text::occurs_at(message, "app:\""@, i)) {
        lemma_quoted(front, "app:\""@, value, back);
    }
    if message == front + "ident:\""@ + value + "\""@ + back && (forall|i: int|
        0 <= i < front.len() ==> !#[trigger] crate::text::occurs_at(message, "ident:\""@, i)) {
        lemma_quoted(front, "ident:\""@, value, back);
    }
}

proof fn lemma_quoted(front: Seq<char>, marker: Seq<char>, value: Seq<char>, back: Seq<char>)
    requires
        value.len() > 0,
        !crate::text::white_space(value[0]),
        !crate::text::white_space(value.last()),
        forall|i: int| 0 <= i < value.len() ==> (#[trigger] value[i]) != '"',
        forall|i: int|
            0 <= i < front.len() ==> !#[trigger] crate::text::occurs_at(
                front + marker + value + "\""@ + back,
                marker,
                i,
            ),
    ensures
        between(front + marker + value + "\""@ + back, marker, "\""@) == Some(value),
{
    reveal_strlit("\"");
    let quote = "\""@;
    let text = front + marker + value + quote + back;
    let n = front.len() as int;
    assert(text.subrange(n, n + marker.len()) =~= marker);
    assert(crate::text::is_first_at(text, marker, n));
    crate::text::lemma_first_at_unique(text, marker, n);
    let rest = text.skip(n + marker.len());
    assert(rest =~= value + quote + back);
    let m = value.len() as int;
    assert(rest.subrange(m, m + 1) =~= quote);
    assert(crate::text::occurs_at(rest, quote, m));
    assert forall|j: int| 0 <= j < m implies !crate::text::occurs_at(rest, quote, j) by {
        assert(rest.subrange(j, j + 1)[0] == value[j]);
        assert(quote[0] == '"');
    }
    crate::text::lemma_first_at_unique(rest, quote, m);
    assert(rest.take(m) =~= value);
    let none = Seq::<char>::empty();
    crate::text::trimming_finds_what_is_inside(none, value, none);
    assert(none + value + none =~= value);
}

/// A text says who sent it before its first colon, where that is a name of fewer than forty bytes;
/// else before a dash or a bar between blanks. Nothing else is ever taken for a sender.
pub proof fn sender_stands_in_front(name: Seq<char>, rest: Seq<char>, text: Seq<char>)
    requires
        name.len() > 0,
        !crate::text::white_space(name[0]),
        !crate::text::white_space(name.last()),
        encode_utf8(name).len() < 40,
        forall|i: int| 0 <= i < name.len() ==> (#[trigger] name[i]) != ':' && name[i] != '-'
            && name[i] != '|',
    ensures
        sender_in(name + ":"@ + rest) == name,
        text == name + " - "@ + rest && !contains(text, ":"@) ==> sender_in(text) == name,
        text == name + " | "@ + rest && !contains(text, ":"@) && !contains(text, " - "@)
            ==> sender_in(text) == name,
{
    reveal_strlit(":");
    reveal_strlit(" - ");
    reveal_strlit(" | ");
    lemma_sender(name, ":"@, rest, 0);
    if text == name + " - "@ + rest && !contains(text, ":"@) {
        lemma_sender(name, " - "@, rest, 1);
    }
    if text == name + " | "@ + rest && !contains(text, ":"@) && !contains(text, " - "@) {
        lemma_sender(name, " | "@, rest, 1);
    }
}

proof fn lemma_sender(name: Seq<char>, delimiter: Seq<char>, rest: Seq<char>, at: int)
    requires
        name.len() > 0,
        !crate::text::white_space(name[0]),
        !crate::text::white_space(name.last()),
        encode_utf8(name).len() < 40,
        0 <= at < delimiter.len(),
        forall|i: int| 0 <= i < name.len() ==> (#[trigger] name[i]) != delimiter[at],
        forall|i: int| 0 <= i < at ==> (#[trigger] delimiter[i]) != delimiter[at],
    ensures
        sender_before(name + delimiter + rest, delimiter) == Some(name),
{
    let text = name + delimiter + rest;
    let n = name.len() as int;
    assert(text.subrange(n, n + delimiter.len()) =~= delimiter);
    assert(crate::text::occurs_at(text, delimiter, n));
    assert forall|j: int| 0 <= j < n implies !crate::text::occurs_at(text, delimiter, j) by {
        if crate::text::occurs_at(text, delimiter, j) {
            let part = text.subrange(j, j + delimiter.len());
            assert(part[at] == text[j + at]);
            if j + at < n {
                assert(text[j + at] == name[j + at]);
            } else {
                assert(text[j + at] == delimiter[j + at - n]);
            }
        }
    }
    crate::text::lemma_first_at_unique(text, delimiter, n);
    assert(text.take(n) =~= name);
    let none = Seq::<char>::empty();
    crate::text::trimming_finds_what_is_inside(none, name, none);
    assert(none + name + none =~= name);
}

/// A sender that is read is always what stands in front, without white space around it, and
/// shorter than forty bytes.
pub proof fn sender_is_a_short_front(text: Seq<char>)
    ensures
        sender_in(text).len() > 0 ==> {
            &&& encode_utf8(sender_in(text)).len() < 40
            &&& exists|n: int|
                0 <= n <= text.len() && sender_in(text) == trim(#[trigger] text.take(n))
        },
        !contains(text, ":"@) && !contains(text, " - "@) && !contains(text, " | "@) ==> sender_in(
            text,
        ).len() == 0,
{
    crate::text::cut_parts_make_up_the_text(text, ":"@);
    crate::text::cut_parts_make_up_the_text(text, " - "@);
    crate::text::cut_parts_make_up_the_text(text, " | "@);
    assert forall|delimiter: Seq<char>| #[trigger]
        sender_before(text, delimiter) is Some implies exists|n: int|
        0 <= n <= text.len() && sender_before(text, delimiter)->0 == trim(#[trigger] text.take(n)) by {
        crate::text::cut_parts_make_up_the_text(text, delimiter);
        let n = first_at(text, delimiter)->0;
        let (front, back) = split_at_first(text, delimiter)->0;
        assert(front.len() <= text.len());
        assert(text.take(front.len() as int) =~= front);
    }
}

/// Of the members of an entry, those with the four known names count, each for its own part, and
/// no others do.
pub proof fn members_count_by_name(
    members: Map<Seq<char>, Seq<char>>,
    others: Map<Seq<char>, Seq<char>>,
)
    ensures
        ({
            let names = set!["subsystem"@, "eventMessage"@, "topic"@, "bundle-id"@];
            (forall|k: Seq<char>|
                #[trigger] names.contains(k) ==> (members.contains_key(k) <==> others.contains_key(k))
                    && (members.contains_key(k) ==> members[k] == others[k])) ==> event_in_entry(
                members,
            ) == event_in_entry(others)
        }),
        members.contains_key("subsystem"@) && members["subsystem"@] == "com.apple.unc"@
            && members.contains_key("eventMessage"@) && starts_with(
            members["eventMessage"@],
            "Presenting <NotificationRecord "@,
        ) && bundle_in(members["eventMessage"@]) is None ==> {
            let r = event_in_entry(members);
            &&& members.contains_key("topic"@) ==> (r matches Some(e) && e.source_bundle_id
                == members["topic"@] && e.body == members["eventMessage"@])
            &&& !members.contains_key("topic"@) && members.contains_key("bundle-id"@) ==> (
            r matches Some(e) && e.source_bundle_id == members["bundle-id"@] && e.body
                == members["eventMessage"@])
            &&& !members.contains_key("topic"@) && !members.contains_key("bundle-id"@) ==> r is None
        },
{
    let names = set!["subsystem"@, "eventMessage"@, "topic"@, "bundle-id"@];
    assert(names.contains("subsystem"@));
    assert(names.contains("eventMessage"@));
    assert(names.contains("topic"@));
    assert(names.contains("bundle-id"@));
}

} // verus!

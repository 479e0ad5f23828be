//! Decisions of the window and the tray: which keys and buttons do what, and which words stand
//! where.

use vstd::prelude::*;
use crate::controller::BLE_SCAN_STATUS;
use crate::device::Picture;
use crate::text::{chars_of, contains, decimal, decimal_text, has_text, lower, same_text, trim};
use crate::text::{lower_chars, text_of, trim_chars};

verus! {

/// What the controller is doing.
#[derive(Clone, Copy, Debug, PartialEq, Eq, Structural)]
pub struct Snapshot {
    pub connected: bool,
    pub connecting: bool,
    pub scanning: bool,
    pub disconnecting: bool,
    pub command_pending: bool,
}

/// Which keys were pressed.
#[derive(Clone, Copy, Debug, PartialEq, Eq, Structural)]
pub struct Keys {
    pub s: bool,
    pub c: bool,
    pub d: bool,
    pub p: bool,
    pub right: bool,
    pub left: bool,
    pub num1: bool,
    pub num2: bool,
    pub num3: bool,
    pub num4: bool,
    pub n: bool,
}

/// What a key asks for.
#[derive(Clone, Copy, Debug, PartialEq, Eq, Structural)]
pub enum Shortcut {
    Scan,
    Connect,
    Disconnect,
    Ping,
    /// Turn the servo on by five degrees, to 270 at most.
    ServoUp,
    /// Turn the servo back by five degrees, to 0 at least.
    ServoDown,
    Led(u32),
    Notify,
}

/// Whether something is under way, so that the window has to be drawn again soon.
pub fn is_busy(s: Snapshot) -> (r: bool)
    ensures
        r == (s.scanning || s.connecting || s.disconnecting || s.command_pending),
{
    s.scanning || s.connecting || s.disconnecting || s.command_pending
}

/// Whether the robot takes commands.
pub open spec fn takes_commands(s: Snapshot) -> bool {
    s.connected && !s.command_pending
}

/// `x`, if `yes`.
pub open spec fn when(yes: bool, x: Shortcut) -> Seq<Shortcut> {
    if yes {
        seq![x]
    } else {
        Seq::empty()
    }
}

/// What guarded shortcuts come to, in order.
pub open spec fn collected(guarded: Seq<(bool, Shortcut)>) -> Seq<Shortcut>
    decreases guarded.len(),
{
    if guarded.len() == 0 {
        Seq::empty()
    } else {
        let (yes, x) = guarded.last();
        collected(guarded.drop_last()) + when(yes, x)
    }
}

/// The keys with what they ask for, and when they do.
pub open spec fn guarded_shortcuts(k: Keys, s: Snapshot) -> Seq<(bool, Shortcut)> {
    let ready = takes_commands(s);
    seq![
        (
            k.s && !s.scanning && !s.connecting && !s.disconnecting && !s.command_pending,
            Shortcut::Scan,
        ),
        (
            k.c && !s.connected && !s.connecting && !s.scanning && !s.disconnecting,
            Shortcut::Connect,
        ),
        (k.d && s.connecting, Shortcut::Disconnect),
        (k.d && ready && !s.disconnecting, Shortcut::Disconnect),
        (k.p && ready, Shortcut::Ping),
        (k.right && ready, Shortcut::ServoUp),
        (k.left && ready, Shortcut::ServoDown),
        (k.num1 && ready, Shortcut::Led(1)),
        (k.num2 && ready, Shortcut::Led(2)),
        (k.num3 && ready, Shortcut::Led(3)),
        (k.num4 && ready, Shortcut::Led(4)),
        (k.n && ready, Shortcut::Notify),
    ]
}

/// What the pressed keys ask for, in order; nothing while a widget holds the keyboard.
pub open spec fn shortcuts_for(k: Keys, s: Snapshot, focused: bool) -> Seq<Shortcut> {
    if focused {
        Seq::empty()
    } else {
        collected(guarded_shortcuts(k, s))
    }
}

/// What the pressed keys ask for, in order.
pub fn shortcuts(k: Keys, s: Snapshot, focused: bool) -> (r: Vec<Shortcut>)
    ensures
        r@ == shortcuts_for(k, s, focused),
{
    let mut out: Vec<Shortcut> = Vec::new();
    if focused {
        return out;
    }
    let ready = s.connected && !s.command_pending;
    let guarded: Vec<(bool, Shortcut)> = vec![
        (
            k.s && !s.scanning && !s.connecting && !s.disconnecting && !s.command_pending,
            Shortcut::Scan,
        ),
        (
            k.c && !s.connected && !s.connecting && !s.scanning && !s.disconnecting,
            Shortcut::Connect,
        ),
        (k.d && s.connecting, Shortcut::Disconnect),
        (k.d && ready && !s.disconnecting, Shortcut::Disconnect),
        (k.p && ready, Shortcut::Ping),
        (k.right && ready, Shortcut::ServoUp),
        (k.left && ready, Shortcut::ServoDown),
        (k.num1 && ready, Shortcut::Led(1)),
        (k.num2 && ready, Shortcut::Led(2)),
        (k.num3 && ready, Shortcut::Led(3)),
        (k.num4 && ready, Shortcut::Led(4)),
        (k.n && ready, Shortcut::Notify),
    ];
    assert(guarded@ =~= guarded_shortcuts(k, s));
    let mut i: usize = 0;
    while i < guarded.len()
        invariant
            i <= guarded@.len(),
            out@ == collected(guarded@.take(i as int)),
        decreases guarded@.len() - i,
    {
        let (yes, x) = guarded[i];
        let ghost before = out@;
        if yes {
            out.push(x);
        }
        i = i + 1;
        assert(guarded@.take(i as int).drop_last() =~= guarded@.take(i - 1));
        assert(out@ =~= before + when(yes, x));
    }
    assert(guarded@.take(i as int) =~= guarded@);
    out
}

proof fn lemma_collected(guarded: Seq<(bool, Shortcut)>, wanted: Shortcut)
    requires
        collected(guarded).contains(wanted),
    ensures
        guarded.contains((true, wanted)),
    decreases guarded.len(),
{
    let front = guarded.drop_last();
    let (yes, x) = guarded.last();
    let i = choose|i: int| 0 <= i < collected(guarded).len() && collected(guarded)[i] == wanted;
    if i < collected(front).len() {
        assert(collected(front)[i] == wanted);
        lemma_collected(front, wanted);
        let j = choose|j: int| 0 <= j < front.len() && front[j] == (true, wanted);
        assert(guarded[j] == (true, wanted));
    }
}

/// A key asks for a connection only while the robot is not connected and nothing is under way
/// that would be.
pub proof fn keys_connect_only_when_disconnected(k: Keys, s: Snapshot, focused: bool)
    requires
        shortcuts_for(k, s, focused).contains(Shortcut::Connect),
    ensures
        !s.connected,
        !s.connecting,
        !s.scanning,
        !s.disconnecting,
{
    lemma_collected(guarded_shortcuts(k, s), Shortcut::Connect);
}

/// Whether another device can be chosen, or looked for.
pub fn scan_enabled(s: Snapshot) -> (r: bool)
    ensures
        r == !(s.scanning || s.connecting || s.disconnecting || s.command_pending),
{
    !(s.scanning || s.connecting || s.disconnecting || s.command_pending)
}

/// Whether the controls of the robot can be used.
pub fn controls_enabled(s: Snapshot) -> (r: bool)
    ensures
        r == takes_commands(s),
{
    s.connected && !s.command_pending
}

/// The button for the connection.
#[derive(Clone, Copy, Debug, PartialEq, Eq, Structural)]
pub enum ConnectionButton {
    /// It says "Connect" and cannot be pressed.
    ConnectDisabled,
    Cancel,
    Connect,
    /// It says "Disconnecting..." and cannot be pressed.
    Disconnecting,
    Disconnect { enabled: bool },
}

/// The button for the connection.
pub fn connection_button(s: Snapshot) -> (r: ConnectionButton)
    ensures
        r == if s.scanning {
            ConnectionButton::ConnectDisabled
        } else if s.connecting {
            ConnectionButton::Cancel
        } else if !s.connected {
            ConnectionButton::Connect
        } else if s.disconnecting {
            ConnectionButton::Disconnecting
        } else {
            (ConnectionButton::Disconnect { enabled: !s.command_pending })
        },
{
    if s.scanning {
        ConnectionButton::ConnectDisabled
    } else if s.connecting {
        ConnectionButton::Cancel
    } else if !s.connected {
        ConnectionButton::Connect
    } else if s.disconnecting {
        ConnectionButton::Disconnecting
    } else {
        ConnectionButton::Disconnect { enabled: !s.command_pending }
    }
}

/// Whether the tray's entry for the connection ends one, or begins one.
pub fn toggle_disconnects(s: Snapshot) -> (r: bool)
    ensures
        r == (s.connected || s.connecting),
{
    s.connected || s.connecting
}

/// The words of the controller for what it is doing.
pub struct Words {
    pub port_name: Option<String>,
    pub scan_status: Option<String>,
    pub connect_target: Option<String>,
    pub connect_status: Option<String>,
    pub disconnect_status: Option<String>,
    pub command_status: Option<String>,
}

/// `s`, or `fallback` where there is none.
pub open spec fn or_else(s: Option<String>, fallback: Seq<char>) -> Seq<char> {
    match s {
        Some(t) => t@,
        None => fallback,
    }
}

fn text_or(s: &Option<String>, fallback: &str) -> (r: String)
    ensures
        r@ == or_else(*s, fallback@),
{
    match s {
        Some(t) => t.clone(),
        None => fallback.to_string(),
    }
}

/// The text by which the tray tells whether anything changed.
pub open spec fn tray_state_of(s: Snapshot, w: Words) -> Seq<char> {
    if s.scanning {
        "scanning"@
    } else if s.connecting {
        "connecting:"@ + or_else(w.connect_target, ""@)
    } else if s.disconnecting {
        "disconnecting:"@ + or_else(w.port_name, ""@)
    } else if s.command_pending {
        "busy:"@ + or_else(w.command_status, ""@)
    } else if s.connected {
        "connected:"@ + or_else(w.port_name, ""@)
    } else {
        "disconnected"@
    }
}

/// The tray's words for what the controller is doing.
pub open spec fn tray_status_of(s: Snapshot, w: Words) -> Seq<char> {
    if s.scanning {
        or_else(w.scan_status, "◌ Scanning..."@)
    } else if s.connecting {
        "◌ Connecting: "@ + or_else(w.connect_target, ""@)
    } else if s.disconnecting {
        or_else(w.disconnect_status, "◌ Disconnecting..."@)
    } else if s.command_pending {
        or_else(w.command_status, "◌ Working..."@)
    } else if s.connected {
        "● Connected: "@ + or_else(w.port_name, ""@)
    } else {
        "● Disconnected"@
    }
}

/// The words of the tray's entry for the connection.
pub open spec fn tray_connect_label(s: Snapshot) -> Seq<char> {
    if s.scanning {
        "Scan"@
    } else if s.connecting {
        "Cancel connect"@
    } else if s.disconnecting {
        "Disconnecting..."@
    } else if s.connected {
        "Disconnect"@
    } else {
        "Connect"@
    }
}

/// The symbol of the tray's entry for the connection.
pub open spec fn tray_connect_symbol(s: Snapshot) -> Seq<char> {
    if s.scanning {
        "magnifyingglass"@
    } else if s.connecting || s.disconnecting {
        "hourglass"@
    } else if s.connected {
        "wifi.slash"@
    } else {
        "wifi"@
    }
}

/// What the tray shows after a change.
pub struct TrayUpdate {
    pub state: String,
    pub status: String,
    pub connect_label: &'static str,
    pub connect_symbol: &'static str,
}

/// What the tray is to show, if that has changed since it showed the state `last`.
pub fn tray_update(s: Snapshot, w: &Words, last: &Option<String>) -> (r: Option<TrayUpdate>)
    ensures
        ({
            let state = tray_state_of(s, *w);
            let same = match *last {
                Some(l) => l@ == state,
                None => false,
            };
            match r {
                Some(u) => {
                    &&& !same
                    &&& u.state@ == state
                    &&& u.status@ == tray_status_of(s, *w)
                    &&& u.connect_label@ == tray_connect_label(s)
                    &&& u.connect_symbol@ == tray_connect_symbol(s)
                },
                None => same,
            }
        }),
{
    let state = if s.scanning {
        "scanning".to_string()
    } else if s.connecting {
        let mut t = "connecting:".to_string();
        t.append(text_or(&w.connect_target, "").as_str());
        t
    } else if s.disconnecting {
        let mut t = "disconnecting:".to_string();
        t.append(text_or(&w.port_name, "").as_str());
        t
    } else if s.command_pending {
        let mut t = "busy:".to_string();
        t.append(text_or(&w.command_status, "").as_str());
        t
    } else if s.connected {
        let mut t = "connected:".to_string();
        t.append(text_or(&w.port_name, "").as_str());
        t
    } else {
        "disconnected".to_string()
    };
    if let Some(l) = last {
        if same_text(l.as_str(), state.as_str()) {
            return None;
        }
    }
    let status = if s.scanning {
        text_or(&w.scan_status, "◌ Scanning...")
    } else if s.connecting {
        let mut t = "◌ Connecting: ".to_string();
        t.append(text_or(&w.connect_target, "").as_str());
        t
    } else if s.disconnecting {
        text_or(&w.disconnect_status, "◌ Disconnecting...")
    } else if s.command_pending {
        text_or(&w.command_status, "◌ Working...")
    } else if s.connected {
        let mut t = "● Connected: ".to_string();
        t.append(text_or(&w.port_name, "").as_str());
        t
    } else {
        "● Disconnected".to_string()
    };
    let connect_label = if s.scanning {
        "Scan"
    } else if s.connecting {
        "Cancel connect"
    } else if s.disconnecting {
        "Disconnecting..."
    } else if s.connected {
        "Disconnect"
    } else {
        "Connect"
    };
    let connect_symbol = if s.scanning {
        "magnifyingglass"
    } else if s.connecting || s.disconnecting {
        "hourglass"
    } else if s.connected {
        "wifi.slash"
    } else {
        "wifi"
    };
    Some(TrayUpdate { state, status, connect_label, connect_symbol })
}

/// What the line at the top of the window says.
#[derive(Clone, Debug, PartialEq, Eq)]
pub enum StatusLine {
    /// Something is under way, with the words for it.
    Busy(String),
    Connected(String),
    Disconnected,
}

/// What the line at the top of the window says, as seen by the contracts.
#[verifier::ext_equal]
pub enum StatusView {
    Busy(Seq<char>),
    Connected(Seq<char>),
    Disconnected,
}

impl View for StatusLine {
    type V = StatusView;

    open spec fn view(&self) -> StatusView {
        match *self {
            StatusLine::Busy(t) => StatusView::Busy(t@),
            StatusLine::Connected(t) => StatusView::Connected(t@),
            StatusLine::Disconnected => StatusView::Disconnected,
        }
    }
}

/// Words with the seconds they have been true for.
pub open spec fn with_seconds(text: Seq<char>, seconds: Seq<char>) -> Seq<char> {
    text + " ("@ + seconds + "s)"@
}

fn add_seconds(text: String, seconds: &str) -> (r: String)
    ensures
        r@ == with_seconds(text@, seconds@),
{
    let mut t = text;
    t.append(" (");
    t.append(seconds);
    t.append("s)");
    t
}

/// What the line at the top of the window says; `seconds` is for how long it has been so.
pub open spec fn status_line_of(s: Snapshot, w: Words, seconds: Seq<char>) -> StatusView {
    if s.scanning {
        StatusView::Busy(with_seconds(or_else(w.scan_status, BLE_SCAN_STATUS@), seconds))
    } else if s.connecting {
        StatusView::Busy(
            with_seconds(or_else(w.connect_status, "Connecting via BLE..."@), seconds),
        )
    } else if s.disconnecting {
        StatusView::Busy(
            with_seconds(or_else(w.disconnect_status, "Disconnecting via BLE..."@), seconds),
        )
    } else if s.command_pending {
        StatusView::Busy(
            with_seconds(or_else(w.command_status, "Waiting for BLE response..."@), seconds),
        )
    } else {
        match w.port_name {
            Some(name) => StatusView::Connected("connected: "@ + name@),
            None => StatusView::Disconnected,
        }
    }
}

/// What the line at the top of the window says.
pub fn status_line(s: Snapshot, w: &Words, seconds: &str) -> (r: StatusLine)
    ensures
        r@ == status_line_of(s, *w, seconds@),
{
    if s.scanning {
        StatusLine::Busy(add_seconds(text_or(&w.scan_status, BLE_SCAN_STATUS), seconds))
    } else if s.connecting {
        StatusLine::Busy(add_seconds(text_or(&w.connect_status, "Connecting via BLE..."), seconds))
    } else if s.disconnecting {
        StatusLine::Busy(
            add_seconds(text_or(&w.disconnect_status, "Disconnecting via BLE..."), seconds),
        )
    } else if s.command_pending {
        StatusLine::Busy(
            add_seconds(text_or(&w.command_status, "Waiting for BLE response..."), seconds),
        )
    } else {
        match &w.port_name {
            Some(name) => {
                let mut t = "connected: ".to_string();
                t.append(name.as_str());
                StatusLine::Connected(t)
            },
            None => StatusLine::Disconnected,
        }
    }
}

/// What an entry of the tray's menu does.
#[derive(Clone, Copy, Debug, PartialEq, Eq, Structural)]
pub enum TrayAction {
    /// Nothing: it is a heading.
    Label,
    /// Nothing: it shows what the controller is doing.
    Status,
    ShowWindow,
    Scan,
    ToggleConnection,
    Ping,
    /// Turns the servo, in whole degrees.
    Servo(u32),
    /// Runs a lamp pattern three times.
    Led(u32),
    Show(Picture),
    Quit,
}

/// An entry of the tray's menu.
pub struct TrayEntry {
    pub text: String,
    pub action: TrayAction,
}

/// The entries of a menu, as seen by the contracts.
pub open spec fn entries_of(v: Seq<TrayEntry>) -> Seq<(Seq<char>, TrayAction)> {
    v.map_values(|e: TrayEntry| (e.text@, e.action))
}

/// The tray's menu.
pub open spec fn menu() -> Seq<(Seq<char>, TrayAction)> {
    seq![
        ("lander001 running"@, TrayAction::Label),
        ("● Disconnected"@, TrayAction::Status),
        ("Robot"@, TrayAction::Label),
        ("Show window"@, TrayAction::ShowWindow),
        ("Scan"@, TrayAction::Scan),
        ("Connect"@, TrayAction::ToggleConnection),
        ("Ping"@, TrayAction::Ping),
        ("Servo"@, TrayAction::Label),
        (servo_text(0), TrayAction::Servo(0)),
        (servo_text(90), TrayAction::Servo(90)),
        (servo_text(180), TrayAction::Servo(180)),
        (servo_text(270), TrayAction::Servo(270)),
        ("LED"@, TrayAction::Label),
        (led_text(1), TrayAction::Led(1)),
        (led_text(2), TrayAction::Led(2)),
        (led_text(3), TrayAction::Led(3)),
        (led_text(4), TrayAction::Led(4)),
        ("Display"@, TrayAction::Label),
        ("Show cat1"@, TrayAction::Show(Picture::Cat1)),
        ("Show cat2"@, TrayAction::Show(Picture::Cat2)),
        ("Show cat3"@, TrayAction::Show(Picture::Cat3)),
        ("Quit"@, TrayAction::Quit),
    ]
}

pub open spec fn servo_text(degrees: u32) -> Seq<char> {
    "Set servo "@ + decimal(degrees as nat) + " deg"@
}

pub open spec fn led_text(pattern: u32) -> Seq<char> {
    "Run LED pattern "@ + decimal(pattern as nat) + " x3"@
}

fn push_entry(out: &mut Vec<TrayEntry>, text: String, action: TrayAction)
    ensures
        entries_of(final(out)@) == entries_of(old(out)@).push((text@, action)),
{
    let ghost t = text@;
    out.push(TrayEntry { text, action });
    assert(entries_of(out@) =~= entries_of(old(out)@).push((t, action)));
}

fn servo_entry(out: &mut Vec<TrayEntry>, degrees: u32)
    ensures
        entries_of(final(out)@) == entries_of(old(out)@).push(
            (servo_text(degrees), TrayAction::Servo(degrees)),
        ),
{
    let mut t = "Set servo ".to_string();
    t.append(decimal_text(degrees as u64).as_str());
    t.append(" deg");
    push_entry(out, t, TrayAction::Servo(degrees));
}

fn led_entry(out: &mut Vec<TrayEntry>, pattern: u32)
    ensures
        entries_of(final(out)@) == entries_of(old(out)@).push(
            (led_text(pattern), TrayAction::Led(pattern)),
        ),
{
    let mut t = "Run LED pattern ".to_string();
    t.append(decimal_text(pattern as u64).as_str());
    t.append(" x3");
    push_entry(out, t, TrayAction::Led(pattern));
}

/// The tray's menu.
pub fn tray_menu() -> (r: Vec<TrayEntry>)
    ensures
        entries_of(r@) == menu(),
{
    let mut r: Vec<TrayEntry> = Vec::new();
    push_entry(&mut r, "lander001 running".to_string(), TrayAction::Label);
    push_entry(&mut r, "● Disconnected".to_string(), TrayAction::Status);
    push_entry(&mut r, "Robot".to_string(), TrayAction::Label);
    push_entry(&mut r, "Show window".to_string(), TrayAction::ShowWindow);
    push_entry(&mut r, "Scan".to_string(), TrayAction::Scan);
    push_entry(&mut r, "Connect".to_string(), TrayAction::ToggleConnection);
    push_entry(&mut r, "Ping".to_string(), TrayAction::Ping);
    push_entry(&mut r, "Servo".to_string(), TrayAction::Label);
    servo_entry(&mut r, 0);
    servo_entry(&mut r, 90);
    servo_entry(&mut r, 180);
    servo_entry(&mut r, 270);
    push_entry(&mut r, "LED".to_string(), TrayAction::Label);
    led_entry(&mut r, 1);
    led_entry(&mut r, 2);
    led_entry(&mut r, 3);
    led_entry(&mut r, 4);
    push_entry(&mut r, "Display".to_string(), TrayAction::Label);
    push_entry(&mut r, "Show cat1".to_string(), TrayAction::Show(Picture::Cat1));
    push_entry(&mut r, "Show cat2".to_string(), TrayAction::Show(Picture::Cat2));
    push_entry(&mut r, "Show cat3".to_string(), TrayAction::Show(Picture::Cat3));
    push_entry(&mut r, "Quit".to_string(), TrayAction::Quit);
    assert(entries_of(r@) =~= menu());
    r
}

/// The symbol of an entry on systems that show one.
pub open spec fn symbol_of(action: TrayAction) -> Option<Seq<char>> {
    match action {
        TrayAction::Label => None,
        TrayAction::Status => None,
        TrayAction::ShowWindow => Some("macwindow"@),
        TrayAction::Scan => Some("arrow.clockwise"@),
        TrayAction::ToggleConnection => Some("wifi"@),
        TrayAction::Ping => Some("antenna.radiowaves.left.and.right"@),
        TrayAction::Servo(_) => Some("slider.horizontal.3"@),
        TrayAction::Led(_) => Some("lightbulb"@),
        TrayAction::Show(_) => Some("photo"@),
        TrayAction::Quit => Some("xmark.circle"@),
    }
}

/// The symbol of an entry on systems that show one.
pub fn tray_symbol(action: TrayAction) -> (r: Option<&'static str>)
    ensures
        match r {
            Some(s) => symbol_of(action) == Some(s@),
            None => symbol_of(action) is None,
        },
{
    match action {
        TrayAction::Label => None,
        TrayAction::Status => None,
        TrayAction::ShowWindow => Some("macwindow"),
        TrayAction::Scan => Some("arrow.clockwise"),
        TrayAction::ToggleConnection => Some("wifi"),
        TrayAction::Ping => Some("antenna.radiowaves.left.and.right"),
        TrayAction::Servo(_) => Some("slider.horizontal.3"),
        TrayAction::Led(_) => Some("lightbulb"),
        TrayAction::Show(_) => Some("photo"),
        TrayAction::Quit => Some("xmark.circle"),
    }
}

/// The name under which the robot shows a picture.
pub fn picture_name(p: Picture) -> (r: &'static str)
    ensures
        r@ == match p {
            Picture::Cat1 => "cat1"@,
            Picture::Cat2 => "cat2"@,
            Picture::Cat3 => "cat3"@,
        },
{
    match p {
        Picture::Cat1 => "cat1",
        Picture::Cat2 => "cat2",
        Picture::Cat3 => "cat3",
    }
}

/// Whether the name of a theme speaks of a dark one.
pub fn names_dark_theme(text: &str) -> (r: bool)
    ensures
        r == contains(lower(trim(text@)), "dark"@),
{
    let chars = chars_of(text);
    let trimmed = text_of(trim_chars(chars.as_slice()).as_slice());
    let lowered = lower_chars(trimmed.as_str());
    has_text(lowered.as_slice(), "dark")
}

/// Whether a setting of the system is the one for dark windows.
pub fn is_dark_setting(text: &str) -> (r: bool)
    ensures
        r == (lower(trim(text@)) == lower("dark"@)),
{
    let chars = chars_of(text);
    let trimmed = text_of(trim_chars(chars.as_slice()).as_slice());
    let own = lower_chars(trimmed.as_str());
    let dark = lower_chars("dark");
    crate::text::same_chars(own.as_slice(), dark.as_slice())
}

proof fn lemma_asked(guarded: Seq<(bool, Shortcut)>, i: int)
    requires
        0 <= i < guarded.len(),
        guarded[i].0,
    ensures
        collected(guarded).contains(guarded[i].1),
    decreases guarded.len(),
{
    let front = guarded.drop_last();
    let all = collected(guarded);
    if i < front.len() {
        lemma_asked(front, i);
        let before = collected(front);
        let j = choose|j: int| 0 <= j < before.len() && before[j] == guarded[i].1;
        assert(front[i] == guarded[i]);
        assert(all[j] == guarded[i].1);
    } else {
        assert(all.last() == guarded[i].1);
    }
}

/// Each key asks for its own thing, exactly while that can be done, and no key does while a widget
/// holds the keyboard: a scan while nothing is under way, a connection while there is none, its end
/// while there is one or it is being made, and all else while the robot takes commands.
pub proof fn keys_ask_for_what_can_be_done(k: Keys, s: Snapshot, focused: bool)
    ensures
        ({
            let asked = shortcuts_for(k, s, focused);
            let ready = s.connected && !s.command_pending;
            let free = !s.scanning && !s.connecting && !s.disconnecting;
            &&& asked.contains(Shortcut::Scan) <==> !focused && k.s && free && !s.command_pending
            &&& asked.contains(Shortcut::Connect) <==> !focused && k.c && free && !s.connected
            &&& asked.contains(Shortcut::Disconnect) <==> !focused && k.d && (s.connecting || (ready
                && !s.disconnecting))
            &&& asked.contains(Shortcut::Ping) <==> !focused && k.p && ready
            &&& asked.contains(Shortcut::ServoUp) <==> !focused && k.right && ready
            &&& asked.contains(Shortcut::ServoDown) <==> !focused && k.left && ready
            &&& asked.contains(Shortcut::Led(1)) <==> !focused && k.num1 && ready
            &&& asked.contains(Shortcut::Led(2)) <==> !focused && k.num2 && ready
            &&& asked.contains(Shortcut::Led(3)) <==> !focused && k.num3 && ready
            &&& asked.contains(Shortcut::Led(4)) <==> !focused && k.num4 && ready
            &&& asked.contains(Shortcut::Notify) <==> !focused && k.n && ready
            &&& forall|pattern: u32|
                !(1 <= pattern <= 4) ==> !#[trigger] asked.contains(Shortcut::Led(pattern))
        }),
{
    let g = guarded_shortcuts(k, s);
    let asked = collected(g);
    assert forall|x: Shortcut| #[trigger] asked.contains(x) <==> exists|i: int|
        0 <= i < 12 && (#[trigger] g[i]) == (true, x) by {
        if asked.contains(x) {
            lemma_collected(g, x);
            let i = choose|i: int| 0 <= i < g.len() && g[i] == (true, x);
            assert(g[i] == (true, x));
        }
        if exists|i: int| 0 <= i < 12 && (#[trigger] g[i]) == (true, x) {
            let i = choose|i: int| 0 <= i < 12 && (#[trigger] g[i]) == (true, x);
            lemma_asked(g, i);
        }
    }
    assert(g.len() == 12);
    assert(g[0].1 == Shortcut::Scan);
    assert(g[1].1 == Shortcut::Connect);
    assert(g[2].1 == Shortcut::Disconnect);
    assert(g[3].1 == Shortcut::Disconnect);
    assert(g[4].1 == Shortcut::Ping);
    assert(g[5].1 == Shortcut::ServoUp);
    assert(g[6].1 == Shortcut::ServoDown);
    assert(g[7].1 == Shortcut::Led(1));
    assert(g[8].1 == Shortcut::Led(2));
    assert(g[9].1 == Shortcut::Led(3));
    assert(g[10].1 == Shortcut::Led(4));
    assert(g[11].1 == Shortcut::Notify);
}

/// The window and the tray speak of what is under way before they speak of the connection, in the
/// controller's own words where it has some, with the seconds it has taken; and of a connection by
/// the name of the robot.
pub proof fn words_follow_what_is_under_way(s: Snapshot, w: Words, seconds: Seq<char>)
    ensures
        ({
            let line = status_line_of(s, w, seconds);
            let tray = tray_status_of(s, w);
            let end = " ("@ + seconds + "s)"@;
            &&& s.scanning && w.scan_status is Some ==> {
                &&& line == StatusView::Busy(w.scan_status->0@ + end)
                &&& tray == w.scan_status->0@
            }
            &&& !s.scanning && s.connecting ==> {
                &&& w.connect_status is Some ==> line == StatusView::Busy(w.connect_status->0@ + end)
                &&& w.connect_target is Some ==> tray == "◌ Connecting: "@ + w.connect_target->0@
            }
            &&& !s.scanning && !s.connecting && s.disconnecting && w.disconnect_status is Some ==> {
                &&& line == StatusView::Busy(w.disconnect_status->0@ + end)
                &&& tray == w.disconnect_status->0@
            }
            &&& !s.scanning && !s.connecting && !s.disconnecting && s.command_pending
                && w.command_status is Some ==> {
                &&& line == StatusView::Busy(w.command_status->0@ + end)
                &&& tray == w.command_status->0@
            }
            &&& line is Busy <==> s.scanning || s.connecting || s.disconnecting || s.command_pending
            &&& line !is Busy && w.port_name is Some ==> {
                &&& line == StatusView::Connected("connected: "@ + w.port_name->0@)
                &&& s.connected ==> tray == "● Connected: "@ + w.port_name->0@
            }
            &&& line !is Busy && w.port_name is None ==> line == StatusView::Disconnected
            &&& line !is Busy && !s.connected ==> tray == "● Disconnected"@
        }),
{
    let end = " ("@ + seconds + "s)"@;
    assert forall|text: Seq<char>| #[trigger] with_seconds(text, seconds) == text + end by {
        assert(with_seconds(text, seconds) =~= text + end);
    }
}

/// The state by which the tray tells whether anything changed says all that its entry for the
/// connection depends on: two moments with the same state have the same entry, as long as a command
/// is under way only on a connected robot.
pub proof fn tray_sees_every_change(s: Snapshot, w: Words, t: Snapshot, v: Words)
    requires
        s.command_pending ==> s.connected,
        t.command_pending ==> t.connected,
        tray_state_of(s, w) == tray_state_of(t, v),
    ensures
        tray_connect_label(s) == tray_connect_label(t),
        tray_connect_symbol(s) == tray_connect_symbol(t),
{
    reveal_strlit("scanning");
    reveal_strlit("connecting:");
    reveal_strlit("disconnecting:");
    reveal_strlit("busy:");
    reveal_strlit("connected:");
    reveal_strlit("disconnected");
    let a = tray_state_of(s, w);
    let b = tray_state_of(t, v);
    assert(a.len() >= 5 && b.len() >= 5);
    assert(a[0] == b[0]);
    assert(a[7] == b[7]);
    assert(a[10] == b[10]);
    lemma_state_letters(s, w);
    lemma_state_letters(t, v);
}

/// The first letter of a state, and the ones by which the others differ.
proof fn lemma_state_letters(s: Snapshot, w: Words)
    ensures
        ({
            let a = tray_state_of(s, w);
            if s.scanning {
                a[0] == 's'
            } else if s.connecting {
                a[0] == 'c' && a[7] == 'i'
            } else if s.disconnecting {
                a[0] == 'd' && a[10] == 'i'
            } else if s.command_pending {
                a[0] == 'b'
            } else if s.connected {
                a[0] == 'c' && a[7] == 'e'
            } else {
                a[0] == 'd' && a[10] == 'e'
            }
        }),
{
    reveal_strlit("scanning");
    reveal_strlit("connecting:");
    reveal_strlit("disconnecting:");
    reveal_strlit("busy:");
    reveal_strlit("connected:");
    reveal_strlit("disconnected");
}

/// The tray's entry for the connection says what pressing it does: it calls off a connection that is
/// being made, ends one that stands and makes one where there is none.
pub proof fn tray_entry_says_what_it_does(s: Snapshot)
    ensures
        !s.scanning && s.connecting ==> tray_connect_label(s) == "Cancel connect"@,
        !s.scanning && !s.connecting && s.disconnecting ==> tray_connect_label(s)
            == "Disconnecting..."@,
        !s.scanning && !s.connecting && !s.disconnecting ==> tray_connect_label(s)
            == if s.connected {
            "Disconnect"@
        } else {
            "Connect"@
        },
        !s.scanning && !s.connecting && !s.disconnecting ==> tray_connect_symbol(s)
            == if s.connected {
            "wifi.slash"@
        } else {
            "wifi"@
        },
        !s.scanning && (s.connecting || s.disconnecting) ==> tray_connect_symbol(s) == "hourglass"@,
        s.scanning ==> tray_connect_label(s) == "Scan"@ && tray_connect_symbol(s)
            == "magnifyingglass"@,
{
}

/// The menu's entries for the servo and the lamps say which angle and which pattern they are for,
/// every quarter turn up to three and every pattern has one, and so has each picture.
pub proof fn menu_entries_say_what_they_do(i: int)
    requires
        0 <= i < menu().len(),
    ensures
        match menu()[i].1 {
            TrayAction::Servo(degrees) => menu()[i].0 == "Set servo "@ + decimal(degrees as nat)
                + " deg"@ && degrees % 90 == 0 && degrees <= 270,
            TrayAction::Led(pattern) => menu()[i].0 == "Run LED pattern "@ + decimal(pattern as nat)
                + " x3"@ && 1 <= pattern <= 4,
            TrayAction::Show(picture) => menu()[i].0 == match picture {
                Picture::Cat1 => "Show cat1"@,
                Picture::Cat2 => "Show cat2"@,
                Picture::Cat3 => "Show cat3"@,
            },
            TrayAction::ShowWindow => menu()[i].0 == "Show window"@,
            TrayAction::Scan => menu()[i].0 == "Scan"@,
            TrayAction::ToggleConnection => menu()[i].0 == "Connect"@,
            TrayAction::Ping => menu()[i].0 == "Ping"@,
            TrayAction::Quit => menu()[i].0 == "Quit"@,
            TrayAction::Status => menu()[i].0 == "● Disconnected"@,
            TrayAction::Label => symbol_of(menu()[i].1) is None,
        },
        menu()[8].1 == TrayAction::Servo(0) && menu()[9].1 == TrayAction::Servo(90) && menu()[10].1
            == TrayAction::Servo(180) && menu()[11].1 == TrayAction::Servo(270),
        menu()[13].1 == TrayAction::Led(1) && menu()[14].1 == TrayAction::Led(2) && menu()[15].1
            == TrayAction::Led(3) && menu()[16].1 == TrayAction::Led(4),
        menu().len() == 22,
{
}

} // verus!

//! The messages that the desktop and the robot exchange.

use vstd::prelude::*;

verus! {

/// How pressing a notification is.
#[derive(Clone, Copy, Debug, PartialEq, Eq, Structural)]
pub enum Urgency {
    Low,
    Normal,
    High,
    Critical,
}

/// What kind of application a notification comes from.
#[derive(Clone, Copy, Debug, PartialEq, Eq, Structural)]
pub enum Category {
    Chat,
    Mail,
    Calendar,
    System,
}

/// The number that stands for an urgency on the wire.
pub open spec fn urgency_number(u: Urgency) -> int {
    match u {
        Urgency::Low => 0,
        Urgency::Normal => 1,
        Urgency::High => 2,
        Urgency::Critical => 3,
    }
}

/// The urgency that a number stands for, if there is one.
pub open spec fn urgency_with_number(n: i32) -> Option<Urgency> {
    if n == 0 {
        Some(Urgency::Low)
    } else if n == 1 {
        Some(Urgency::Normal)
    } else if n == 2 {
        Some(Urgency::High)
    } else if n == 3 {
        Some(Urgency::Critical)
    } else {
        None
    }
}

/// The number that stands for a category on the wire.
pub open spec fn category_number(c: Category) -> int {
    match c {
        Category::Chat => 0,
        Category::Mail => 1,
        Category::Calendar => 2,
        Category::System => 3,
    }
}

impl Urgency {
    /// The number that stands for this urgency on the wire.
    pub fn number(self) -> (r: i32)
        ensures
            r == urgency_number(self),
    {
        match self {
            Urgency::Low => 0,
            Urgency::Normal => 1,
            Urgency::High => 2,
            Urgency::Critical => 3,
        }
    }

    /// The urgency with this number, if there is one.
    pub fn from_number(n: i32) -> (r: Option<Urgency>)
        ensures
            r == urgency_with_number(n),
    {
        match n {
            0 => Some(Urgency::Low),
            1 => Some(Urgency::Normal),
            2 => Some(Urgency::High),
            3 => Some(Urgency::Critical),
            _ => None,
        }
    }
}

impl Category {
    /// The number that stands for this category on the wire.
    pub fn number(self) -> (r: i32)
        ensures
            r == category_number(self),
    {
        match self {
            Category::Chat => 0,
            Category::Mail => 1,
            Category::Calendar => 2,
            Category::System => 3,
        }
    }
}

/// Asks for a sign of life; carries the sender's clock in milliseconds since the Unix epoch.
#[derive(Clone, Copy, Debug, PartialEq, Eq)]
pub struct Ping {
    pub unix_ms: u64,
}

/// Turns the servo. The angle in degrees is a single-precision number, held as its bits.
#[derive(Clone, Copy, Debug, PartialEq, Eq)]
pub struct SetServo {
    pub angle_bits: u32,
}

/// Runs a light pattern some number of times.
#[derive(Clone, Copy, Debug, PartialEq, Eq)]
pub struct LedAnimation {
    pub pattern_id: u32,
    pub repeats: u32,
}

/// Shows one of the built-in pictures.
#[derive(Clone, Debug, PartialEq, Eq)]
pub struct ShowIcon {
    pub icon_id: String,
}

/// A desktop notification.
#[derive(Clone, Debug, PartialEq, Eq)]
pub struct NotificationEvent {
    pub id: String,
    pub source_app: String,
    pub title: String,
    pub body: String,
    pub urgency: i32,
    pub category: i32,
    pub source_bundle_id: String,
    pub sender_name: String,
    pub sender_handle: String,
    pub app_icon_hint: String,
}

/// A piece of a picture. The robot does not look into it yet.
#[derive(Clone, Copy, Debug, PartialEq, Eq)]
pub struct IconChunk {}

/// Answers a message: taken, or refused with a reason.
#[derive(Clone, Debug, PartialEq, Eq)]
pub struct Ack {
    pub msg_id: u32,
    pub ok: bool,
    pub error: String,
}

/// What a message carries.
#[derive(Clone, Debug, PartialEq, Eq)]
pub enum Payload {
    SetServo(SetServo),
    LedAnimation(LedAnimation),
    ShowIcon(ShowIcon),
    Notification(NotificationEvent),
    Ping(Ping),
    IconChunk(IconChunk),
    Ack(Ack),
}

/// One message on the wire.
#[derive(Clone, Debug, PartialEq, Eq)]
pub struct WireMessage {
    pub msg_id: u32,
    pub payload: Option<Payload>,
}

/// The value of a [`ShowIcon`].
#[verifier::ext_equal]
pub struct ShowIconView {
    pub icon_id: Seq<char>,
}

/// The value of a [`NotificationEvent`].
#[verifier::ext_equal]
pub struct NotificationView {
    pub id: Seq<char>,
    pub source_app: Seq<char>,
    pub title: Seq<char>,
    pub body: Seq<char>,
    pub urgency: i32,
    pub category: i32,
    pub source_bundle_id: Seq<char>,
    pub sender_name: Seq<char>,
    pub sender_handle: Seq<char>,
    pub app_icon_hint: Seq<char>,
}

/// The value of an [`Ack`].
#[verifier::ext_equal]
pub struct AckView {
    pub msg_id: u32,
    pub ok: bool,
    pub error: Seq<char>,
}

/// The value of a [`Payload`].
#[verifier::ext_equal]
pub enum PayloadView {
    SetServo(SetServo),
    LedAnimation(LedAnimation),
    ShowIcon(ShowIconView),
    Notification(NotificationView),
    Ping(Ping),
    IconChunk,
    Ack(AckView),
}

/// The value of a [`WireMessage`].
#[verifier::ext_equal]
pub struct MessageView {
    pub msg_id: u32,
    pub payload: Option<PayloadView>,
}

impl View for ShowIcon {
    type V = ShowIconView;

    open spec fn view(&self) -> ShowIconView {
        ShowIconView { icon_id: self.icon_id@ }
    }
}

impl View for NotificationEvent {
    type V = NotificationView;

    open spec fn view(&self) -> NotificationView {
        NotificationView {
            id: self.id@,
            source_app: self.source_app@,
            title: self.title@,
            body: self.body@,
            urgency: self.urgency,
            category: self.category,
            source_bundle_id: self.source_bundle_id@,
            sender_name: self.sender_name@,
            sender_handle: self.sender_handle@,
            app_icon_hint: self.app_icon_hint@,
        }
    }
}

impl View for Ack {
    type V = AckView;

    open spec fn view(&self) -> AckView {
        AckView { msg_id: self.msg_id, ok: self.ok, error: self.error@ }
    }
}

impl View for Payload {
    type V = PayloadView;

    open spec fn view(&self) -> PayloadView {
        match self {
            Payload::SetServo(m) => PayloadView::SetServo(*m),
            Payload::LedAnimation(m) => PayloadView::LedAnimation(*m),
            Payload::ShowIcon(m) => PayloadView::ShowIcon(m@),
            Payload::Notification(m) => PayloadView::Notification(m@),
            Payload::Ping(m) => PayloadView::Ping(*m),
            Payload::IconChunk(_) => PayloadView::IconChunk,
            Payload::Ack(m) => PayloadView::Ack(m@),
        }
    }
}

impl View for WireMessage {
    type V = MessageView;

    open spec fn view(&self) -> MessageView {
        MessageView {
            msg_id: self.msg_id,
            payload: match self.payload {
                Some(p) => Some(p@),
                None => None,
            },
        }
    }
}

} // verus!

//! What the desktop asks of the robot: each request is a list of messages to send, one after the
//! other, each once the one before was answered.

use vstd::prelude::*;
use crate::behavior::{animation_duration_ms, animation_for, animation_ms};
use crate::behavior::{animation_profile_for_category, app_icon_hint_for};
use crate::behavior::{default_notification_for_preset, every_notification_has_an_icon, float_bits};
use crate::behavior::{icon_hint, if_empty_then, preset_notification, whole_number_bits};
use crate::message::{category_number, urgency_number, LedAnimation, MessageView};
use crate::message::{NotificationEvent, NotificationView, Payload, PayloadView, Ping, SetServo};
use crate::message::{ShowIcon, ShowIconView, Urgency, WireMessage};
use crate::text::{decimal, decimal_text};

verus! {

/// A notification of the desktop that goes on to the robot.
#[derive(Clone, Debug, PartialEq, Eq)]
pub struct ForwardedNotification {
    pub source_app: String,
    pub source_bundle_id: String,
    pub notification_id: String,
    pub title: String,
    pub body: String,
    pub sender_name: String,
    pub category: i32,
}

/// A notification of the desktop, as seen by the contracts.
#[verifier::ext_equal]
pub struct ForwardedView {
    pub source_app: Seq<char>,
    pub source_bundle_id: Seq<char>,
    pub notification_id: Seq<char>,
    pub title: Seq<char>,
    pub body: Seq<char>,
    pub sender_name: Seq<char>,
    pub category: i32,
}

impl View for ForwardedNotification {
    type V = ForwardedView;

    open spec fn view(&self) -> ForwardedView {
        ForwardedView {
            source_app: self.source_app@,
            source_bundle_id: self.source_bundle_id@,
            notification_id: self.notification_id@,
            title: self.title@,
            body: self.body@,
            sender_name: self.sender_name@,
            category: self.category,
        }
    }
}

/// What the desktop asks of the robot. An angle comes as the bits of a single-precision number
/// and as the text that stands for it.
pub enum CommandRequest {
    Ping,
    Servo { angle_bits: u32, angle_text: String },
    Led { pattern_id: u32, repeats: u32 },
    Icon { icon_id: String },
    NotificationAndAnimation { preset: String, from: String, text: String },
    ForwardedNotification(ForwardedNotification),
}

/// What the desktop asks of the robot, as seen by the contracts.
#[verifier::ext_equal]
pub enum RequestView {
    Ping,
    Servo { angle_bits: u32, angle_text: Seq<char> },
    Led { pattern_id: u32, repeats: u32 },
    Icon { icon_id: Seq<char> },
    NotificationAndAnimation { preset: Seq<char>, from: Seq<char>, text: Seq<char> },
    ForwardedNotification(ForwardedView),
}

impl View for CommandRequest {
    type V = RequestView;

    open spec fn view(&self) -> RequestView {
        match *self {
            CommandRequest::Ping => RequestView::Ping,
            CommandRequest::Servo { angle_bits, angle_text } => RequestView::Servo {
                angle_bits,
                angle_text: angle_text@,
            },
            CommandRequest::Led { pattern_id, repeats } => RequestView::Led { pattern_id, repeats },
            CommandRequest::Icon { icon_id } => RequestView::Icon { icon_id: icon_id@ },
            CommandRequest::NotificationAndAnimation { preset, from, text } =>
                RequestView::NotificationAndAnimation {
                preset: preset@,
                from: from@,
                text: text@,
            },
            CommandRequest::ForwardedNotification(event) => RequestView::ForwardedNotification(
                event@,
            ),
        }
    }
}

/// The words for a request that is under way.
pub open spec fn request_label(r: RequestView) -> Seq<char> {
    match r {
        RequestView::Ping => "Sending ping..."@,
        RequestView::Servo { angle_bits, angle_text } => "Setting servo to "@ + angle_text
            + " deg..."@,
        RequestView::Led { pattern_id, repeats } => "Running LED pattern "@ + decimal(
            pattern_id as nat,
        ) + " x"@ + decimal(repeats as nat) + "..."@,
        RequestView::Icon { icon_id } => "Showing icon '"@ + icon_id + "'..."@,
        RequestView::NotificationAndAnimation { preset, from, text } => "Sending '"@ + preset
            + "' notification..."@,
        RequestView::ForwardedNotification(event) => "Forwarding '"@ + event.source_app
            + "' notification..."@,
    }
}

/// The words for a request that the robot has met.
pub open spec fn request_done(r: RequestView) -> Seq<char> {
    match r {
        RequestView::Ping => "Ping ACKed"@,
        RequestView::Servo { angle_bits, angle_text } => "SetServo "@ + angle_text + " deg ACKed"@,
        RequestView::Led { pattern_id, repeats } => "LedAnimation p="@ + decimal(pattern_id as nat)
            + " r="@ + decimal(repeats as nat) + " ACKed"@,
        RequestView::Icon { icon_id } => "ShowIcon '"@ + icon_id + "' ACKed"@,
        RequestView::NotificationAndAnimation { preset, from, text } => "Notification '"@
            + preset_notification(preset, from, text).0 + "' ACKed"@,
        RequestView::ForwardedNotification(event) => "Forwarded desktop notification from '"@
            + event.source_app + "'"@,
    }
}

/// One step of a request.
#[derive(Clone, Debug, PartialEq, Eq)]
pub enum Step {
    /// Send a message and wait for the answer.
    Send(WireMessage),
    /// Wait so many milliseconds.
    Sleep(u64),
}

/// One step of a request, as seen by the contracts.
#[verifier::ext_equal]
pub enum StepView {
    Send(MessageView),
    Sleep(u64),
}

impl View for Step {
    type V = StepView;

    open spec fn view(&self) -> StepView {
        match *self {
            Step::Send(m) => StepView::Send(m@),
            Step::Sleep(ms) => StepView::Sleep(ms),
        }
    }
}

/// The steps of a list, as seen by the contracts.
pub open spec fn steps_view(v: Seq<Step>) -> Seq<StepView> {
    v.map_values(|s: Step| s@)
}

/// The number of the message that comes `k` messages after the one with number `id`. Numbers go
/// up to the largest one and stay there.
pub open spec fn id_after(id: u32, k: nat) -> u32 {
    if id + k > u32::MAX {
        u32::MAX
    } else {
        (id + k) as u32
    }
}

/// The number for the next message; the one after it is then next.
pub fn take_next_msg_id(next_msg_id: &mut u32) -> (r: u32)
    ensures
        r == *old(next_msg_id),
        *final(next_msg_id) == id_after(*old(next_msg_id), 1),
{
    let msg_id: u32 = *next_msg_id;
    *next_msg_id = next_msg_id.saturating_add(1);
    msg_id
}

/// Sends a payload under a number.
pub open spec fn send(msg_id: u32, payload: PayloadView) -> StepView {
    StepView::Send(MessageView { msg_id, payload: Some(payload) })
}

/// The steps of the lamps and the servo for a category: away, blink, wait until it is over, and
/// back.
pub open spec fn animation_steps(category: i32, id: u32) -> Seq<StepView> {
    let (pattern_id, repeats, excited, rest) = animation_for(category);
    seq![
        send(id, PayloadView::SetServo(SetServo { angle_bits: float_bits(excited) })),
        send(id_after(id, 1), PayloadView::LedAnimation(LedAnimation { pattern_id, repeats })),
        StepView::Sleep((animation_ms(pattern_id, repeats) + 100) as u64),
        send(
            id_after(id, 2),
            PayloadView::SetServo(SetServo { angle_bits: float_bits(rest) }),
        ),
    ]
}

/// The notification that a preset stands for.
pub open spec fn preset_event(
    preset: Seq<char>,
    from: Seq<char>,
    text: Seq<char>,
    event_id: Seq<char>,
    hint: Seq<char>,
) -> NotificationView {
    let p = preset_notification(preset, from, text);
    NotificationView {
        id: event_id,
        source_app: p.0,
        title: p.3,
        body: text,
        urgency: urgency_number(Urgency::Normal) as i32,
        category: category_number(p.2) as i32,
        source_bundle_id: p.1,
        sender_name: p.4,
        sender_handle: Seq::empty(),
        app_icon_hint: hint,
    }
}

/// The steps of a simulated notification.
pub open spec fn simulated_steps(preset: Seq<char>, from: Seq<char>, text: Seq<char>, id: u32) -> Seq<
    StepView,
> {
    let p = preset_notification(preset, from, text);
    let category = category_number(p.2) as i32;
    let event = preset_event(
        preset,
        from,
        text,
        "sim-"@ + preset + "-"@ + decimal(id as nat),
        icon_hint(p.1, p.0, category),
    );
    seq![send(id, PayloadView::Notification(event))] + animation_steps(category, id_after(id, 1))
}

/// What the robot is told of a notification of the desktop.
pub open spec fn forwarded_event(event: ForwardedView, id: u32) -> NotificationView {
    NotificationView {
        id: "host-"@ + if event.notification_id.len() == 0 {
            decimal(id as nat)
        } else {
            event.notification_id
        },
        source_app: event.source_app,
        title: event.title,
        body: event.body,
        urgency: urgency_number(Urgency::Normal) as i32,
        category: event.category,
        source_bundle_id: event.source_bundle_id,
        sender_name: event.sender_name,
        sender_handle: Seq::empty(),
        app_icon_hint: icon_hint(event.source_bundle_id, event.source_app, event.category),
    }
}

/// The steps by which a notification of the desktop is forwarded.
pub open spec fn forwarded_steps(event: ForwardedView, id: u32) -> Seq<StepView> {
    seq![send(id, PayloadView::Notification(forwarded_event(event, id)))] + animation_steps(
        event.category,
        id_after(id, 1),
    )
}

/// The steps of a request whose first message has the number `id`.
pub open spec fn request_steps(r: RequestView, id: u32, unix_ms: u64) -> Seq<StepView> {
    match r {
        RequestView::Ping => seq![send(id, PayloadView::Ping(Ping { unix_ms }))],
        RequestView::Servo { angle_bits, angle_text } => seq![
            send(id, PayloadView::SetServo(SetServo { angle_bits })),
        ],
        RequestView::Led { pattern_id, repeats } => seq![
            send(id, PayloadView::LedAnimation(LedAnimation { pattern_id, repeats })),
        ],
        RequestView::Icon { icon_id } => seq![
            send(id, PayloadView::ShowIcon(ShowIconView { icon_id })),
        ],
        RequestView::NotificationAndAnimation { preset, from, text } => {
            let p = preset_notification(preset, from, text);
            let event = preset_event(
                preset,
                from,
                text,
                "gui-"@ + preset + "-"@ + decimal(id as nat),
                p.5,
            );
            seq![send(id, PayloadView::Notification(event))] + animation_steps(
                category_number(p.2) as i32,
                id_after(id, 1),
            )
        },
        RequestView::ForwardedNotification(event) => forwarded_steps(event, id),
    }
}

fn push_send(steps: &mut Vec<Step>, next_msg_id: &mut u32, payload: Payload)
    ensures
        steps_view(final(steps)@) == steps_view(old(steps)@).push(
            send(*old(next_msg_id), payload@),
        ),
        *final(next_msg_id) == id_after(*old(next_msg_id), 1),
{
    let msg_id: u32 = take_next_msg_id(next_msg_id);
    steps.push(Step::Send(WireMessage { msg_id, payload: Some(payload) }));
    assert(steps_view(steps@) =~= steps_view(old(steps)@).push(send(*old(next_msg_id), payload@)));
}

fn push_animation(steps: &mut Vec<Step>, next_msg_id: &mut u32, category: i32)
    ensures
        steps_view(final(steps)@) == steps_view(old(steps)@) + animation_steps(
            category,
            *old(next_msg_id),
        ),
{
    let ghost id = *next_msg_id;
    let (pattern_id, repeats, excited, rest) = animation_profile_for_category(category);
    push_send(
        steps,
        next_msg_id,
        Payload::SetServo(SetServo { angle_bits: whole_number_bits(excited) }),
    );
    push_send(steps, next_msg_id, Payload::LedAnimation(LedAnimation { pattern_id, repeats }));
    let ms: u64 = animation_duration_ms(pattern_id, repeats) + 100;
    let ghost before = steps_view(steps@);
    steps.push(Step::Sleep(ms));
    assert(steps_view(steps@) =~= before.push(StepView::Sleep(ms)));
    push_send(
        steps,
        next_msg_id,
        Payload::SetServo(SetServo { angle_bits: whole_number_bits(rest) }),
    );
    assert(steps_view(steps@) =~= steps_view(old(steps)@) + animation_steps(category, id));
}

/// The steps of a simulated notification.
pub fn simulated_notification(preset: &str, from: &str, text: &str, next_msg_id: u32) -> (r: Vec<
    Step,
>)
    ensures
        steps_view(r@) == simulated_steps(preset@, from@, text@, next_msg_id),
{
    let (source_app, source_bundle_id, category, title, sender_name, app_icon_hint) =
        default_notification_for_preset(preset, from, text);
    let mut event_id = "sim-".to_string();
    event_id.append(preset);
    event_id.append("-");
    event_id.append(decimal_text(next_msg_id as u64).as_str());
    let hint = app_icon_hint_for(source_bundle_id.as_str(), source_app.as_str(), category);
    proof {
        every_notification_has_an_icon(source_bundle_id@, source_app@, category);
    }
    let event = NotificationEvent {
        id: event_id,
        source_app,
        title,
        body: text.to_string(),
        urgency: Urgency::Normal.number(),
        category,
        source_bundle_id,
        sender_name,
        sender_handle: String::new(),
        app_icon_hint: if_empty_then(hint, app_icon_hint),
    };
    let ghost p = preset_notification(preset@, from@, text@);
    assert(event@ =~= preset_event(
        preset@,
        from@,
        text@,
        "sim-"@ + preset@ + "-"@ + decimal(next_msg_id as nat),
        icon_hint(p.1, p.0, category),
    ));
    let mut next: u32 = next_msg_id;
    let mut steps: Vec<Step> = Vec::new();
    push_send(&mut steps, &mut next, Payload::Notification(event));
    push_animation(&mut steps, &mut next, category);
    assert(steps_view(steps@) =~= simulated_steps(preset@, from@, text@, next_msg_id));
    steps
}

/// The steps by which a notification of the desktop is forwarded.
pub fn forwarded_notification(event: &ForwardedNotification, next_msg_id: u32) -> (r: Vec<Step>)
    ensures
        steps_view(r@) == forwarded_steps(event@, next_msg_id),
{
    let mut event_id = "host-".to_string();
    if event.notification_id.as_str().is_empty() {
        event_id.append(decimal_text(next_msg_id as u64).as_str());
    } else {
        event_id.append(event.notification_id.as_str());
    }
    let told = NotificationEvent {
        id: event_id,
        source_app: event.source_app.clone(),
        title: event.title.clone(),
        body: event.body.clone(),
        urgency: Urgency::Normal.number(),
        category: event.category,
        source_bundle_id: event.source_bundle_id.clone(),
        sender_name: event.sender_name.clone(),
        sender_handle: String::new(),
        app_icon_hint: app_icon_hint_for(
            event.source_bundle_id.as_str(),
            event.source_app.as_str(),
            event.category,
        ),
    };
    assert(told@ =~= forwarded_event(event@, next_msg_id));
    let mut next: u32 = next_msg_id;
    let mut steps: Vec<Step> = Vec::new();
    push_send(&mut steps, &mut next, Payload::Notification(told));
    push_animation(&mut steps, &mut next, event.category);
    assert(steps_view(steps@) =~= forwarded_steps(event@, next_msg_id));
    steps
}

/// The first message of every connection.
pub fn ping_step(next_msg_id: u32, unix_ms: u64) -> (r: Step)
    ensures
        r@ == send(next_msg_id, PayloadView::Ping(Ping { unix_ms })),
{
    Step::Send(WireMessage { msg_id: next_msg_id, payload: Some(Payload::Ping(Ping { unix_ms })) })
}

impl CommandRequest {
    /// The words for this request while it is under way.
    pub fn label(&self) -> (r: String)
        ensures
            r@ == request_label(self@),
    {
        match self {
            CommandRequest::Ping => "Sending ping...".to_string(),
            CommandRequest::Servo { angle_bits, angle_text } => {
                let mut s = "Setting servo to ".to_string();
                s.append(angle_text.as_str());
                s.append(" deg...");
                s
            },
            CommandRequest::Led { pattern_id, repeats } => {
                let mut s = "Running LED pattern ".to_string();
                s.append(decimal_text(*pattern_id as u64).as_str());
                s.append(" x");
                s.append(decimal_text(*repeats as u64).as_str());
                s.append("...");
                s
            },
            CommandRequest::Icon { icon_id } => {
                let mut s = "Showing icon '".to_string();
                s.append(icon_id.as_str());
                s.append("'...");
                s
            },
            CommandRequest::NotificationAndAnimation { preset, from, text } => {
                let mut s = "Sending '".to_string();
                s.append(preset.as_str());
                s.append("' notification...");
                s
            },
            CommandRequest::ForwardedNotification(event) => {
                let mut s = "Forwarding '".to_string();
                s.append(event.source_app.as_str());
                s.append("' notification...");
                s
            },
        }
    }

    /// The words for this request once the robot has met it.
    pub fn done_text(&self) -> (r: String)
        ensures
            r@ == request_done(self@),
    {
        match self {
            CommandRequest::Ping => "Ping ACKed".to_string(),
            CommandRequest::Servo { angle_bits, angle_text } => {
                let mut s = "SetServo ".to_string();
                s.append(angle_text.as_str());
                s.append(" deg ACKed");
                s
            },
            CommandRequest::Led { pattern_id, repeats } => {
                let mut s = "LedAnimation p=".to_string();
                s.append(decimal_text(*pattern_id as u64).as_str());
                s.append(" r=");
                s.append(decimal_text(*repeats as u64).as_str());
                s.append(" ACKed");
                s
            },
            CommandRequest::Icon { icon_id } => {
                let mut s = "ShowIcon '".to_string();
                s.append(icon_id.as_str());
                s.append("' ACKed");
                s
            },
            CommandRequest::NotificationAndAnimation { preset, from, text } => {
                let p = default_notification_for_preset(
                    preset.as_str(),
                    from.as_str(),
                    text.as_str(),
                );
                let mut s = "Notification '".to_string();
                s.append(p.0.as_str());
                s.append("' ACKed");
                s
            },
            CommandRequest::ForwardedNotification(event) => {
                let mut s = "Forwarded desktop notification from '".to_string();
                s.append(event.source_app.as_str());
                s.append("'");
                s
            },
        }
    }

    /// The steps of this request: send, wait for each answer, and end with the first failure.
    pub fn steps(&self, next_msg_id: u32, unix_ms: u64) -> (r: Vec<Step>)
        ensures
            steps_view(r@) == request_steps(self@, next_msg_id, unix_ms),
    {
        let mut next: u32 = next_msg_id;
        let mut steps: Vec<Step> = Vec::new();
        match self {
            CommandRequest::Ping => {
                push_send(&mut steps, &mut next, Payload::Ping(Ping { unix_ms }));
            },
            CommandRequest::Servo { angle_bits, angle_text } => {
                push_send(
                    &mut steps,
                    &mut next,
                    Payload::SetServo(SetServo { angle_bits: *angle_bits }),
                );
            },
            CommandRequest::Led { pattern_id, repeats } => {
                push_send(
                    &mut steps,
                    &mut next,
                    Payload::LedAnimation(
                        LedAnimation { pattern_id: *pattern_id, repeats: *repeats },
                    ),
                );
            },
            CommandRequest::Icon { icon_id } => {
                push_send(
                    &mut steps,
                    &mut next,
                    Payload::ShowIcon(ShowIcon { icon_id: icon_id.clone() }),
                );
            },
            CommandRequest::NotificationAndAnimation { preset, from, text } => {
                let (source_app, source_bundle_id, category, title, sender_name, app_icon_hint) =
                    default_notification_for_preset(preset.as_str(), from.as_str(), text.as_str());
                let mut event_id = "gui-".to_string();
                event_id.append(preset.as_str());
                event_id.append("-");
                event_id.append(decimal_text(next_msg_id as u64).as_str());
                let event = NotificationEvent {
                    id: event_id,
                    source_app,
                    title,
                    body: text.clone(),
                    urgency: Urgency::Normal.number(),
                    category,
                    source_bundle_id,
                    sender_name,
                    sender_handle: String::new(),
                    app_icon_hint,
                };
                assert(event@ =~= preset_event(
                    preset@,
                    from@,
                    text@,
                    "gui-"@ + preset@ + "-"@ + decimal(next_msg_id as nat),
                    preset_notification(preset@, from@, text@).5,
                ));
                push_send(&mut steps, &mut next, Payload::Notification(event));
                push_animation(&mut steps, &mut next, category);
            },
            CommandRequest::ForwardedNotification(event) => {
                return forwarded_notification(event, next_msg_id);
            },
        }
        assert(steps_view(steps@) =~= request_steps(self@, next_msg_id, unix_ms));
        steps
    }
}

/// The number that is next after a step, whether or not the step succeeded.
pub open spec fn next_id_after(step: StepView, next: u32) -> u32 {
    match step {
        StepView::Send(m) => id_after(m.msg_id, 1),
        StepView::Sleep(_) => next,
    }
}

/// The number that is next after a step, whether or not the step succeeded.
pub fn next_id_after_step(step: &Step, next_msg_id: u32) -> (r: u32)
    ensures
        r == next_id_after(step@, next_msg_id),
{
    match step {
        Step::Send(m) => m.msg_id.saturating_add(1),
        Step::Sleep(_) => next_msg_id,
    }
}

/// How many of the first `n` steps send a message.
pub open spec fn sends_before(steps: Seq<StepView>, n: int) -> nat
    decreases n,
{
    if n <= 0 {
        0
    } else {
        sends_before(steps, n - 1) + if steps[n - 1] is Send {
            1nat
        } else {
            0nat
        }
    }
}

/// Whether the messages of a list of steps are numbered one after the other from `id` on.
pub open spec fn numbered_from(steps: Seq<StepView>, id: u32) -> bool {
    forall|i: int|
        0 <= i < steps.len() ==> (#[trigger] steps[i] matches StepView::Send(m) ==> m.msg_id
            == id_after(id, sends_before(steps, i)))
}

proof fn lemma_notified(first: MessageView, category: i32, id: u32)
    requires
        first.msg_id == id,
    ensures
        numbered_from(
            seq![StepView::Send(first)] + animation_steps(category, id_after(id, 1)),
            id,
        ),
{
    let steps = seq![StepView::Send(first)] + animation_steps(category, id_after(id, 1));
    assert(steps.len() == 5);
    assert(sends_before(steps, 0) == 0);
    assert(sends_before(steps, 1) == 1);
    assert(sends_before(steps, 2) == 2);
    assert(sends_before(steps, 3) == 3);
    assert(steps[3] is Sleep);
    assert(sends_before(steps, 4) == 3);
    assert forall|i: int| 0 <= i < steps.len() implies (#[trigger] steps[i] matches StepView::Send(
        m,
    ) ==> m.msg_id == id_after(id, sends_before(steps, i))) by {
        if i == 0 {
        } else if i == 1 {
        } else if i == 2 {
        } else if i == 3 {
        } else {
            assert(i == 4);
        }
    }
}

/// The messages of a request are numbered one after the other.
pub proof fn messages_are_numbered_in_order(r: RequestView, id: u32, unix_ms: u64)
    ensures
        numbered_from(request_steps(r, id, unix_ms), id),
{
    let steps = request_steps(r, id, unix_ms);
    match r {
        RequestView::NotificationAndAnimation { preset, from, text } => {
            if let StepView::Send(first) = steps[0] {
                let p = preset_notification(preset, from, text);
                lemma_notified(first, category_number(p.2) as i32, id);
            }
        },
        RequestView::ForwardedNotification(event) => {
            if let StepView::Send(first) = steps[0] {
                lemma_notified(first, event.category, id);
            }
        },
        _ => {
            assert(steps.len() == 1);
            assert(sends_before(steps, 0) == 0);
        },
    }
}

/// The messages of a simulated notification are numbered one after the other, too.
pub proof fn simulated_messages_are_numbered_in_order(
    preset: Seq<char>,
    from: Seq<char>,
    text: Seq<char>,
    id: u32,
)
    ensures
        numbered_from(simulated_steps(preset, from, text, id), id),
{
    if let StepView::Send(first) = simulated_steps(preset, from, text, id)[0] {
        let p = preset_notification(preset, from, text);
        lemma_notified(first, category_number(p.2) as i32, id);
    }
}

/// A notification leaves the servo at rest, in whichever way it was asked for: the last message
/// turns it to 90 degrees.
pub proof fn notifications_end_at_rest(r: RequestView, id: u32, unix_ms: u64)
    requires
        r is NotificationAndAnimation || r is ForwardedNotification,
    ensures
        request_steps(r, id, unix_ms).last() == send(
            id_after(id, 3),
            PayloadView::SetServo(SetServo { angle_bits: float_bits(90) }),
        ),
{
}

/// Where the taking of steps stands.
#[derive(Clone, Copy, Debug, PartialEq, Eq, Structural)]
pub enum RunPoint {
    /// Take the step at this place.
    Take(usize),
    Done,
    Failed,
}

/// Where the taking of steps stands with the step at `i` next, and the number that is next after
/// it.
pub open spec fn taking(steps: Seq<StepView>, i: int, next: u32) -> (RunPoint, u32) {
    if i < steps.len() {
        (RunPoint::Take(i as usize), next_id_after(steps[i], next))
    } else {
        (RunPoint::Done, next)
    }
}

/// Where the taking of steps stands after one of them, and the number that is then next. The
/// first step that fails ends it.
pub open spec fn taken(steps: Seq<StepView>, at: (RunPoint, u32), succeeded: bool) -> (RunPoint, u32) {
    match at.0 {
        RunPoint::Take(i) => if succeeded {
            taking(steps, i + 1, at.1)
        } else {
            (RunPoint::Failed, at.1)
        },
        _ => at,
    }
}

/// Begins to take steps: what is to be done first, and the number that is next after it.
pub fn first_step(steps: &[Step], next_msg_id: u32) -> (r: (RunPoint, u32))
    ensures
        r == taking(steps_view(steps@), 0, next_msg_id),
{
    if steps.len() == 0 {
        return (RunPoint::Done, next_msg_id);
    }
    assert(steps_view(steps@)[0] == steps@[0]@);
    (RunPoint::Take(0), next_id_after_step(&steps[0], next_msg_id))
}

/// What is to be done after a step that succeeded or did not, and the number that is next after
/// it.
pub fn next_step(steps: &[Step], at: RunPoint, next_msg_id: u32, succeeded: bool) -> (r: (
    RunPoint,
    u32,
))
    ensures
        r == taken(steps_view(steps@), (at, next_msg_id), succeeded),
{
    match at {
        RunPoint::Take(i) => {
            if !succeeded {
                return (RunPoint::Failed, next_msg_id);
            }
            if i < steps.len() && i + 1 < steps.len() {
                assert(steps_view(steps@)[i + 1] == steps@[i + 1]@);
                (RunPoint::Take(i + 1), next_id_after_step(&steps[i + 1], next_msg_id))
            } else {
                (RunPoint::Done, next_msg_id)
            }
        },
        _ => (at, next_msg_id),
    }
}

/// Where the taking of steps stands after some of them succeeded or did not.
pub open spec fn run_to(steps: Seq<StepView>, id: u32, outcomes: Seq<bool>) -> (RunPoint, u32)
    decreases outcomes.len(),
{
    if outcomes.len() == 0 {
        taking(steps, 0, id)
    } else {
        taken(steps, run_to(steps, id, outcomes.drop_last()), outcomes.last())
    }
}

/// How many of the outcomes come before the first failure.
pub open spec fn successes(outcomes: Seq<bool>) -> nat
    decreases outcomes.len(),
{
    if outcomes.len() == 0 || !outcomes[0] {
        0
    } else {
        1 + successes(outcomes.drop_first())
    }
}

proof fn lemma_successes(outcomes: Seq<bool>)
    ensures
        successes(outcomes) <= outcomes.len(),
        forall|i: int| 0 <= i < successes(outcomes) ==> #[trigger] outcomes[i],
        successes(outcomes) < outcomes.len() ==> !outcomes[successes(outcomes) as int],
    decreases outcomes.len(),
{
    if outcomes.len() > 0 && outcomes[0] {
        let rest = outcomes.drop_first();
        lemma_successes(rest);
        assert forall|i: int| 0 <= i < successes(outcomes) implies #[trigger] outcomes[i] by {
            if i > 0 {
                assert(rest[i - 1]);
            }
        }
    }
}

/// The number that is next after the step at `i` is the one behind those sent up to it.
proof fn lemma_numbers(steps: Seq<StepView>, id: u32, i: int)
    requires
        numbered_from(steps, id),
        0 <= i < steps.len(),
    ensures
        next_id_after(steps[i], id_after(id, sends_before(steps, i))) == id_after(
            id,
            sends_before(steps, i + 1),
        ),
{
}

proof fn lemma_run(steps: Seq<StepView>, id: u32, outcomes: Seq<bool>, n: nat)
    requires
        numbered_from(steps, id),
        steps.len() <= usize::MAX,
        n <= outcomes.len(),
        forall|i: int| 0 <= i < n ==> #[trigger] outcomes[i],
    ensures
        run_to(steps, id, outcomes.take(n as int)) == if n < steps.len() {
            (RunPoint::Take(n as usize), id_after(id, sends_before(steps, n as int + 1)))
        } else {
            (RunPoint::Done, id_after(id, sends_before(steps, steps.len() as int)))
        },
    decreases n,
{
    let part = outcomes.take(n as int);
    assert(sends_before(steps, 0) == 0);
    if n == 0 {
        if steps.len() > 0 {
            lemma_numbers(steps, id, 0);
        }
    } else {
        lemma_run(steps, id, outcomes, (n - 1) as nat);
        assert(part.drop_last() =~= outcomes.take(n - 1));
        assert(part.last() == outcomes[n - 1]);
        if n < steps.len() {
            lemma_numbers(steps, id, n as int);
        }
    }
}

proof fn lemma_run_over(steps: Seq<StepView>, id: u32, outcomes: Seq<bool>, n: nat)
    requires
        n <= outcomes.len(),
        run_to(steps, id, outcomes.take(n as int)).0 !is Take,
    ensures
        run_to(steps, id, outcomes) == run_to(steps, id, outcomes.take(n as int)),
    decreases outcomes.len(),
{
    if n < outcomes.len() {
        let front = outcomes.drop_last();
        assert(front.take(n as int) =~= outcomes.take(n as int));
        lemma_run_over(steps, id, front, n);
    } else {
        assert(outcomes.take(n as int) =~= outcomes);
    }
}

/// Steps are taken in order, each once, and none after the first that fails. The number that is
/// next is then the one behind those of the messages that were sent, the failed one among them.
pub proof fn steps_are_taken_up_to_the_first_failure(
    steps: Seq<StepView>,
    id: u32,
    outcomes: Seq<bool>,
)
    requires
        numbered_from(steps, id),
        steps.len() <= usize::MAX,
    ensures
        ({
            let n = successes(outcomes);
            run_to(steps, id, outcomes) == if n >= steps.len() {
                (RunPoint::Done, id_after(id, sends_before(steps, steps.len() as int)))
            } else if n < outcomes.len() {
                (RunPoint::Failed, id_after(id, sends_before(steps, n as int + 1)))
            } else {
                (RunPoint::Take(n as usize), id_after(id, sends_before(steps, n as int + 1)))
            }
        }),
{
    let n = successes(outcomes);
    lemma_successes(outcomes);
    lemma_run(steps, id, outcomes, n);
    if n == outcomes.len() {
        assert(outcomes.take(n as int) =~= outcomes);
    } else if n >= steps.len() {
        lemma_run_over(steps, id, outcomes, n);
    } else {
        let next = outcomes.take(n as int + 1);
        assert(next.drop_last() =~= outcomes.take(n as int));
        assert(next.last() == outcomes[n as int]);
        lemma_run_over(steps, id, outcomes, n + 1);
    }
}

/// A forwarded notification reaches the robot with every field in its place: the first step sends
/// a notification that says of itself what the one of the desktop said.
pub proof fn forwarded_fields_arrive(event: ForwardedView, id: u32, unix_ms: u64)
    ensures
        ({
            let steps = forwarded_steps(event, id);
            &&& steps == request_steps(RequestView::ForwardedNotification(event), id, unix_ms)
            &&& steps.len() == 5
            &&& steps[0] matches StepView::Send(m)
            &&& m.msg_id == id
            &&& m.payload matches Some(PayloadView::Notification(n))
            &&& n.source_app == event.source_app
            &&& n.title == event.title
            &&& n.body == event.body
            &&& n.sender_name == event.sender_name
            &&& n.source_bundle_id == event.source_bundle_id
            &&& n.category == event.category
            &&& n.sender_handle.len() == 0
            &&& n.urgency == 1
            &&& n.app_icon_hint == icon_hint(event.source_bundle_id, event.source_app, event.category)
            &&& n.id == "host-"@ + if event.notification_id.len() > 0 {
                event.notification_id
            } else {
                decimal(id as nat)
            }
        }),
{
}

/// Two notifications of the desktop that differ in an id of their own do so on the robot too.
pub proof fn forwarded_ids_stay_apart(a: ForwardedView, b: ForwardedView, id: u32, later: u32)
    requires
        a.notification_id.len() > 0,
        b.notification_id.len() > 0,
        a.notification_id != b.notification_id,
    ensures
        forwarded_steps(a, id)[0] matches StepView::Send(m) && (forwarded_steps(b, later)[0] matches StepView::Send(
            o,
        ) && (m.payload matches Some(PayloadView::Notification(x)) && (
        o.payload matches Some(PayloadView::Notification(y)) && x.id != y.id))),
{
    let x = "host-"@ + a.notification_id;
    let y = "host-"@ + b.notification_id;
    let n = "host-"@.len() as int;
    assert(x.skip(n) =~= a.notification_id);
    assert(y.skip(n) =~= b.notification_id);
}

/// A simulated notification shows the text as its body and the sender as its sender; what it is
/// for the preset, it is for the robot, whether it was asked for on the command line or in the
/// window.
pub proof fn simulated_fields_arrive(
    preset: Seq<char>,
    from: Seq<char>,
    text: Seq<char>,
    id: u32,
    unix_ms: u64,
)
    ensures
        ({
            let p = preset_notification(preset, from, text);
            let steps = simulated_steps(preset, from, text, id);
            &&& steps.len() == 5
            &&& steps[0] matches StepView::Send(m)
            &&& m.msg_id == id
            &&& m.payload matches Some(PayloadView::Notification(n))
            &&& n.body == text
            &&& n.sender_name == from
            &&& n.sender_handle.len() == 0
            &&& n.urgency == 1
            &&& n.source_app == p.0
            &&& n.source_bundle_id == p.1
            &&& n.category == category_number(p.2)
            &&& n.title == p.3
            &&& n.app_icon_hint == icon_hint(n.source_bundle_id, n.source_app, n.category)
            &&& n.id == "sim-"@ + preset + "-"@ + decimal(id as nat)
        }),
        ({
            let p = preset_notification(preset, from, text);
            let steps = request_steps(
                RequestView::NotificationAndAnimation { preset, from, text },
                id,
                unix_ms,
            );
            &&& steps.len() == 5
            &&& steps.skip(1) == simulated_steps(preset, from, text, id).skip(1)
            &&& steps[0] matches StepView::Send(m)
            &&& m.msg_id == id
            &&& m.payload matches Some(PayloadView::Notification(n))
            &&& n.body == text
            &&& n.sender_name == from
            &&& n.sender_handle.len() == 0
            &&& n.urgency == 1
            &&& n.source_app == p.0
            &&& n.source_bundle_id == p.1
            &&& n.category == category_number(p.2)
            &&& n.title == p.3
            &&& n.app_icon_hint == p.5
            &&& n.id == "gui-"@ + preset + "-"@ + decimal(id as nat)
        }),
{
    let r = RequestView::NotificationAndAnimation { preset, from, text };
    assert(request_steps(r, id, unix_ms).skip(1) =~= simulated_steps(preset, from, text, id).skip(
        1,
    ));
}

/// A simple request is one message, and what it asks for is what the robot is asked.
pub proof fn requests_are_sent_as_asked(
    angle_bits: u32,
    text: Seq<char>,
    pattern_id: u32,
    repeats: u32,
    id: u32,
    unix_ms: u64,
)
    ensures
        ({
            let steps = request_steps(RequestView::Ping, id, unix_ms);
            &&& steps.len() == 1
            &&& steps[0] matches StepView::Send(m)
            &&& m.msg_id == id
            &&& m.payload matches Some(PayloadView::Ping(p))
            &&& p.unix_ms == unix_ms
        }),
        ({
            let steps = request_steps(
                RequestView::Servo { angle_bits, angle_text: text },
                id,
                unix_ms,
            );
            &&& steps.len() == 1
            &&& steps[0] matches StepView::Send(m)
            &&& m.msg_id == id
            &&& m.payload matches Some(PayloadView::SetServo(s))
            &&& s.angle_bits == angle_bits
        }),
        ({
            let steps = request_steps(RequestView::Led { pattern_id, repeats }, id, unix_ms);
            &&& steps.len() == 1
            &&& steps[0] matches StepView::Send(m)
            &&& m.msg_id == id
            &&& m.payload matches Some(PayloadView::LedAnimation(l))
            &&& l.pattern_id == pattern_id
            &&& l.repeats == repeats
        }),
        ({
            let steps = request_steps(RequestView::Icon { icon_id: text }, id, unix_ms);
            &&& steps.len() == 1
            &&& steps[0] matches StepView::Send(m)
            &&& m.msg_id == id
            &&& m.payload matches Some(PayloadView::ShowIcon(i))
            &&& i.icon_id == text
        }),
{
}

/// Behind the notification the robot turns away, blinks, and turns back only when the lamps are
/// through: the wait is a tenth of a second longer than the pattern that it was told to run takes.
pub proof fn robot_turns_back_when_the_lamps_are_through(event: ForwardedView, id: u32)
    ensures
        ({
            let steps = forwarded_steps(event, id);
            &&& steps[1] matches StepView::Send(away)
            &&& steps[2] matches StepView::Send(blink)
            &&& steps[3] matches StepView::Sleep(ms)
            &&& steps[4] matches StepView::Send(back)
            &&& away.payload matches Some(PayloadView::SetServo(turned))
            &&& blink.payload matches Some(PayloadView::LedAnimation(lamps))
            &&& back.payload matches Some(PayloadView::SetServo(rest))
            &&& turned.angle_bits == float_bits(
                if event.category == 0 {
                    200
                } else if event.category == 1 {
                    150
                } else if event.category == 2 {
                    60
                } else {
                    120
                },
            )
            &&& rest.angle_bits == float_bits(90)
            &&& lamps.repeats == if event.category == 0 {
                6int
            } else {
                3
            }
            &&& lamps.pattern_id == if event.category == 0 {
                2int
            } else if event.category == 1 {
                1
            } else if event.category == 2 {
                3
            } else {
                4
            }
            &&& ms == crate::led::steps_per_round(lamps.pattern_id) * lamps.repeats
                * crate::led::step_ms(lamps.pattern_id) + 100
        }),
{
    let lamps = animation_for(event.category);
    crate::behavior::animation_time_is_that_of_the_lamps(lamps.0, lamps.1);
}

/// A simulated notification makes the robot do what a forwarded one of the same category does.
pub proof fn simulated_notifications_move_alike(
    preset: Seq<char>,
    from: Seq<char>,
    text: Seq<char>,
    event: ForwardedView,
    id: u32,
)
    requires
        event.category == category_number(preset_notification(preset, from, text).2),
    ensures
        simulated_steps(preset, from, text, id).skip(1) == forwarded_steps(event, id).skip(1),
{
    assert(simulated_steps(preset, from, text, id).skip(1) =~= forwarded_steps(event, id).skip(1));
}

/// The words for a request hold what it is about: those for two angles, two icons or two
/// applications are never the same, neither before nor after.
pub proof fn requests_are_told_apart(a: Seq<char>, b: Seq<char>, bits: u32)
    requires
        a != b,
    ensures
        ({
            let x = RequestView::Servo { angle_bits: bits, angle_text: a };
            let y = RequestView::Servo { angle_bits: bits, angle_text: b };
            request_label(x) != request_label(y) && request_done(x) != request_done(y)
        }),
        ({
            let x = RequestView::Icon { icon_id: a };
            let y = RequestView::Icon { icon_id: b };
            request_label(x) != request_label(y) && request_done(x) != request_done(y)
        }),
        forall|e: ForwardedView, f: ForwardedView|
            e.source_app == a && f.source_app == b ==> (#[trigger] request_label(
                RequestView::ForwardedNotification(e),
            )) != (#[trigger] request_label(RequestView::ForwardedNotification(f))),
        forall|e: ForwardedView, f: ForwardedView|
            e.source_app == a && f.source_app == b ==> (#[trigger] request_done(
                RequestView::ForwardedNotification(e),
            )) != (#[trigger] request_done(RequestView::ForwardedNotification(f))),
{
    crate::text::lemma_apart("Setting servo to "@, a, b, " deg..."@);
    crate::text::lemma_apart("SetServo "@, a, b, " deg ACKed"@);
    crate::text::lemma_apart("Showing icon '"@, a, b, "'..."@);
    crate::text::lemma_apart("ShowIcon '"@, a, b, "' ACKed"@);
    crate::text::lemma_apart("Forwarding '"@, a, b, "' notification..."@);
    crate::text::lemma_apart("Forwarded desktop notification from '"@, a, b, "'"@);
}

/// The words for a request, while it is under way and when it is met, with what it is about.
pub proof fn requests_are_put_into_words(
    bits: u32,
    text: Seq<char>,
    from: Seq<char>,
    words: Seq<char>,
    pattern_id: u32,
    repeats: u32,
    event: ForwardedView,
)
    ensures
        request_label(RequestView::Ping) == "Sending ping..."@,
        request_done(RequestView::Ping) == "Ping ACKed"@,
        ({
            let r = RequestView::Servo { angle_bits: bits, angle_text: text };
            &&& request_label(r) == "Setting servo to "@ + text + " deg..."@
            &&& request_done(r) == "SetServo "@ + text + " deg ACKed"@
        }),
        ({
            let r = RequestView::Led { pattern_id, repeats };
            &&& request_label(r) == "Running LED pattern "@ + decimal(pattern_id as nat) + " x"@
                + decimal(repeats as nat) + "..."@
            &&& request_done(r) == "LedAnimation p="@ + decimal(pattern_id as nat) + " r="@
                + decimal(repeats as nat) + " ACKed"@
        }),
        ({
            let r = RequestView::Icon { icon_id: text };
            &&& request_label(r) == "Showing icon '"@ + text + "'..."@
            &&& request_done(r) == "ShowIcon '"@ + text + "' ACKed"@
        }),
        ({
            let r = RequestView::NotificationAndAnimation { preset: text, from, text: words };
            &&& request_label(r) == "Sending '"@ + text + "' notification..."@
            &&& request_done(r) == "Notification '"@ + preset_notification(text, from, words).0
                + "' ACKed"@
        }),
        ({
            let r = RequestView::ForwardedNotification(event);
            &&& request_label(r) == "Forwarding '"@ + event.source_app + "' notification..."@
            &&& request_done(r) == "Forwarded desktop notification from '"@ + event.source_app + "'"@
        }),
{
}

} // verus!

//! What the robot does with a message, what it answers, and what its display shows in between.
//! Times are nanoseconds of a clock that does not go back.

use vstd::prelude::*;
use crate::card::{card, drawn, render_notification_card, DrawOp, DrawView};
use crate::led::{LedAnimator, LedRun};
use crate::message::{Ack, AckView, MessageView, Payload, PayloadView, WireMessage};
use crate::text::same_text;

verus! {

/// How long a notification keeps the display.
pub const NOTIFICATION_HOLD_NANOS: u64 = 5_000_000_000;

/// One of the pictures that the robot holds.
#[derive(Clone, Copy, Debug, PartialEq, Eq, Structural)]
pub enum Picture {
    Cat1,
    Cat2,
    Cat3,
}

/// Something the hardware is to do.
#[derive(Clone, Debug, PartialEq, Eq)]
pub enum Effect {
    /// Turns the servo to an angle in degrees, a single-precision number as its bits.
    Servo(u32),
    /// Lets the lamps shine.
    EnableLamps,
    /// Sets the lamps.
    Lamps(u8),
    /// Shows a picture.
    Show(Picture),
    /// Draws a card.
    Card(Vec<DrawOp>),
    /// Nothing but a note that no picture has this name.
    UnknownIcon(String),
}

/// Something the hardware is to do, as seen by the contracts.
#[verifier::ext_equal]
pub enum EffectView {
    Servo(u32),
    EnableLamps,
    Lamps(u8),
    Show(Picture),
    Card(Seq<DrawView>),
    UnknownIcon(Seq<char>),
}

impl View for Effect {
    type V = EffectView;

    open spec fn view(&self) -> EffectView {
        match *self {
            Effect::Servo(bits) => EffectView::Servo(bits),
            Effect::EnableLamps => EffectView::EnableLamps,
            Effect::Lamps(mask) => EffectView::Lamps(mask),
            Effect::Show(p) => EffectView::Show(p),
            Effect::Card(ops) => EffectView::Card(drawn(ops@)),
            Effect::UnknownIcon(name) => EffectView::UnknownIcon(name@),
        }
    }
}

/// The effects of a list, as seen by the contracts.
pub open spec fn effects(v: Seq<Effect>) -> Seq<EffectView> {
    v.map_values(|e: Effect| e@)
}

/// The picture with a name, or a note that there is none.
pub open spec fn icon_effect(name: Seq<char>) -> EffectView {
    if name == "cat1"@ {
        EffectView::Show(Picture::Cat1)
    } else if name == "cat2"@ {
        EffectView::Show(Picture::Cat2)
    } else if name == "cat3"@ {
        EffectView::Show(Picture::Cat3)
    } else {
        EffectView::UnknownIcon(name)
    }
}

fn show_icon(name: String) -> (r: Effect)
    ensures
        r@ == icon_effect(name@),
{
    if same_text(name.as_str(), "cat1") {
        Effect::Show(Picture::Cat1)
    } else if same_text(name.as_str(), "cat2") {
        Effect::Show(Picture::Cat2)
    } else if same_text(name.as_str(), "cat3") {
        Effect::Show(Picture::Cat3)
    } else {
        Effect::UnknownIcon(name)
    }
}

/// Settings of the lamps as effects.
pub open spec fn lamp_effects(masks: Seq<u8>) -> Seq<EffectView> {
    masks.map_values(|m: u8| EffectView::Lamps(m))
}

/// Whether a notification still keeps the display.
pub open spec fn holds(hold_until: Option<u64>, now: u64) -> bool {
    match hold_until {
        Some(until) => now < until,
        None => false,
    }
}

/// Whether a notification still keeps the display.
pub fn is_held(hold_until: Option<u64>, now: u64) -> (r: bool)
    ensures
        r == holds(hold_until, now),
{
    match hold_until {
        Some(until) => now < until,
        None => false,
    }
}

/// The robot that speaks over Bluetooth.
#[derive(Clone, Copy)]
pub struct Robot {
    pub leds: LedAnimator,
    /// Until when the last notification keeps the display.
    pub hold_until: Option<u64>,
    /// The pairing code on the display.
    pub rendered_code: Option<u32>,
}

/// What the display is to show next.
#[derive(Clone, Copy, Debug, PartialEq, Eq, Structural)]
pub enum ScreenStep {
    /// Draw this pairing code, then wait.
    DrawCode(u32),
    /// Leave the pairing code, and wait.
    KeepCode,
    /// Leave the card, and wait.
    KeepCard,
    /// Go through the pictures.
    Slides,
}

/// How long to wait after a screen step, in milliseconds.
pub const SCREEN_WAIT_MS: u64 = 20;

impl Robot {
    /// The robot after a message, and what the message has the hardware do, in order.
    pub open spec fn applied(self, msg: MessageView, now: u64, random: u32) -> (
        Robot,
        Seq<EffectView>,
    ) {
        match msg.payload {
            Some(PayloadView::SetServo(cmd)) => (self, seq![EffectView::Servo(cmd.angle_bits)]),
            Some(PayloadView::LedAnimation(cmd)) => {
                let begun = LedAnimator {
                    run: LedRun::scheduled(cmd.pattern_id, cmd.repeats, now),
                    ..self.leds
                };
                let (leds, masks) = begun.ticked(now, random);
                (Robot { leds, ..self }, seq![EffectView::EnableLamps] + lamp_effects(masks))
            },
            Some(PayloadView::ShowIcon(cmd)) => (self, seq![icon_effect(cmd.icon_id)]),
            Some(PayloadView::Notification(evt)) => (
                Robot { hold_until: Some((now + NOTIFICATION_HOLD_NANOS) as u64), ..self },
                seq![EffectView::Card(card(evt))],
            ),
            _ => (self, Seq::empty()),
        }
    }

    /// What the display shows next, and the robot that remembers it. A pairing code goes before
    /// a notification, and a notification before the pictures.
    pub open spec fn screen(self, pairing_mode: bool, pairing_code: Option<u32>, now: u64) -> (
        Robot,
        ScreenStep,
    ) {
        if pairing_mode {
            match pairing_code {
                Some(code) => if self.rendered_code == Some(code) {
                    (self, ScreenStep::KeepCode)
                } else {
                    (
                        Robot { rendered_code: Some(code), ..self },
                        ScreenStep::DrawCode(code),
                    )
                },
                None => (self, ScreenStep::KeepCode),
            }
        } else if holds(self.hold_until, now) {
            (Robot { rendered_code: None, ..self }, ScreenStep::KeepCard)
        } else {
            (Robot { rendered_code: None, hold_until: None, ..self }, ScreenStep::Slides)
        }
    }

    /// A robot that has just been switched on.
    pub fn new(now: u64) -> (r: Self)
        ensures
            r.leds.wf(),
            r == (Robot {
                leds: LedAnimator::idle_from(now),
                hold_until: None,
                rendered_code: None,
            }),
    {
        Robot { leds: LedAnimator::new(now), hold_until: None, rendered_code: None }
    }

    /// Does what a message asks for; `random` decides about the idle lamp, if it comes to that.
    pub fn apply_wire_message(&mut self, msg: WireMessage, now: u64, random: u32) -> (r: Vec<Effect>)
        requires
            old(self).leds.wf(),
            now <= u64::MAX - NOTIFICATION_HOLD_NANOS,
        ensures
            final(self).leds.wf(),
            (*final(self), effects(r@)) == old(self).applied(msg@, now, random),
    {
        let mut out: Vec<Effect> = Vec::new();
        assert(effects(out@) =~= Seq::<EffectView>::empty());
        match msg.payload {
            Some(Payload::SetServo(cmd)) => {
                out.push(Effect::Servo(cmd.angle_bits));
                assert(effects(out@) =~= seq![EffectView::Servo(cmd.angle_bits)]);
            },
            Some(Payload::LedAnimation(cmd)) => {
                out.push(Effect::EnableLamps);
                let mut leds = self.leds;
                leds.schedule(cmd.pattern_id, cmd.repeats, now);
                let masks = leds.tick(now, random);
                self.leds = leds;
                let mut i: usize = 0;
                assert(effects(out@) =~= seq![EffectView::EnableLamps] + lamp_effects(
                    masks@.take(0),
                ));
                while i < masks.len()
                    invariant
                        i <= masks@.len(),
                        effects(out@) == seq![EffectView::EnableLamps] + lamp_effects(
                            masks@.take(i as int),
                        ),
                    decreases masks@.len() - i,
                {
                    let ghost before = effects(out@);
                    out.push(Effect::Lamps(masks[i]));
                    assert(effects(out@) =~= before.push(EffectView::Lamps(masks@[i as int])));
                    i = i + 1;
                    assert(lamp_effects(masks@.take(i as int)) =~= lamp_effects(
                        masks@.take(i - 1),
                    ).push(EffectView::Lamps(masks@[i - 1])));
                    assert(effects(out@) =~= seq![EffectView::EnableLamps] + lamp_effects(
                        masks@.take(i as int),
                    ));
                }
                assert(masks@.take(i as int) =~= masks@);
            },
            Some(Payload::ShowIcon(cmd)) => {
                let ghost name = cmd.icon_id@;
                out.push(show_icon(cmd.icon_id));
                assert(effects(out@) =~= seq![icon_effect(name)]);
            },
            Some(Payload::Notification(evt)) => {
                let ops = render_notification_card(&evt);
                out.push(Effect::Card(ops));
                self.hold_until = Some(now + NOTIFICATION_HOLD_NANOS);
                assert(effects(out@) =~= seq![EffectView::Card(card(evt@))]);
            },
            _ => {},
        }
        out
    }

    /// Decides what the display shows next.
    pub fn next_screen(&mut self, pairing_mode: bool, pairing_code: Option<u32>, now: u64) -> (r:
        ScreenStep)
        ensures
            (*final(self), r) == old(self).screen(pairing_mode, pairing_code, now),
    {
        if pairing_mode {
            if let Some(code) = pairing_code {
                let shown = match self.rendered_code {
                    Some(c) => c == code,
                    None => false,
                };
                if !shown {
                    self.rendered_code = Some(code);
                    return ScreenStep::DrawCode(code);
                }
            }
            return ScreenStep::KeepCode;
        }
        self.rendered_code = None;
        if is_held(self.hold_until, now) {
            return ScreenStep::KeepCard;
        }
        self.hold_until = None;
        ScreenStep::Slides
    }
}

/// A notification keeps the display for its time and no longer, unless a peer is to pair.
pub proof fn notification_keeps_the_display(
    robot: Robot,
    msg: MessageView,
    now: u64,
    random: u32,
    later: u64,
    pairing_code: Option<u32>,
)
    requires
        msg.payload matches Some(PayloadView::Notification(_)),
        now <= u64::MAX - NOTIFICATION_HOLD_NANOS,
        now <= later,
    ensures
        robot.applied(msg, now, random).0.screen(false, pairing_code, later).1 == if later - now
            < NOTIFICATION_HOLD_NANOS {
            ScreenStep::KeepCard
        } else {
            ScreenStep::Slides
        },
        robot.applied(msg, now, random).0.screen(true, pairing_code, later).1 != ScreenStep::KeepCard,
{
}

/// A pairing code is drawn once and then left, until pairing ends or the code is another one.
pub proof fn pairing_code_is_drawn_once(robot: Robot, code: u32, other: u32, now: u64, later: u64)
    requires
        robot.rendered_code != Some(code),
        other != code,
    ensures
        ({
            let (drawn_once, step) = robot.screen(true, Some(code), now);
            &&& step == ScreenStep::DrawCode(code)
            &&& drawn_once.screen(true, Some(code), later) == (drawn_once, ScreenStep::KeepCode)
            &&& drawn_once.screen(true, Some(other), later).1 == ScreenStep::DrawCode(other)
            &&& drawn_once.screen(false, None, later).0.screen(true, Some(code), later).1
                == ScreenStep::DrawCode(code)
        }),
{
}

/// The robot that speaks over the USB port: its lamps are dark between patterns, and a pattern
/// begins with the next tick.
#[derive(Clone, Copy)]
pub struct UsbRobot {
    pub leds: LedRun,
    pub hold_until: Option<u64>,
}

impl UsbRobot {
    /// The robot after a message, and what the message has the hardware do, in order.
    pub open spec fn applied(self, msg: MessageView, now: u64) -> (UsbRobot, Seq<EffectView>) {
        match msg.payload {
            Some(PayloadView::SetServo(cmd)) => (self, seq![EffectView::Servo(cmd.angle_bits)]),
            Some(PayloadView::LedAnimation(cmd)) => (
                UsbRobot { leds: LedRun::scheduled(cmd.pattern_id, cmd.repeats, now), ..self },
                Seq::empty(),
            ),
            Some(PayloadView::ShowIcon(cmd)) => (self, seq![icon_effect(cmd.icon_id)]),
            Some(PayloadView::Notification(evt)) => (
                UsbRobot { hold_until: Some((now + NOTIFICATION_HOLD_NANOS) as u64), ..self },
                seq![EffectView::Card(card(evt))],
            ),
            _ => (self, Seq::empty()),
        }
    }

    /// A robot that has just been switched on.
    pub fn new() -> (r: Self)
        ensures
            r.leds.wf(),
            r == (UsbRobot { leds: LedRun::idle(), hold_until: None }),
    {
        UsbRobot { leds: LedRun::new(), hold_until: None }
    }

    /// Does what a message asks for.
    pub fn apply_wire_message(&mut self, msg: WireMessage, now: u64) -> (r: Vec<Effect>)
        requires
            old(self).leds.wf(),
            now <= u64::MAX - NOTIFICATION_HOLD_NANOS,
        ensures
            final(self).leds.wf(),
            (*final(self), effects(r@)) == old(self).applied(msg@, now),
    {
        let mut out: Vec<Effect> = Vec::new();
        assert(effects(out@) =~= Seq::<EffectView>::empty());
        match msg.payload {
            Some(Payload::SetServo(cmd)) => {
                out.push(Effect::Servo(cmd.angle_bits));
                assert(effects(out@) =~= seq![EffectView::Servo(cmd.angle_bits)]);
            },
            Some(Payload::LedAnimation(cmd)) => {
                self.leds.schedule(cmd.pattern_id, cmd.repeats, now);
            },
            Some(Payload::ShowIcon(cmd)) => {
                let ghost name = cmd.icon_id@;
                out.push(show_icon(cmd.icon_id));
                assert(effects(out@) =~= seq![icon_effect(name)]);
            },
            Some(Payload::Notification(evt)) => {
                let ops = render_notification_card(&evt);
                out.push(Effect::Card(ops));
                self.hold_until = Some(now + NOTIFICATION_HOLD_NANOS);
                assert(effects(out@) =~= seq![EffectView::Card(card(evt@))]);
            },
            _ => {},
        }
        out
    }

    /// Whether the card stays; if not, the display is free again.
    pub fn keeps_card(&mut self, now: u64) -> (r: bool)
        ensures
            r == holds(old(self).hold_until, now),
            final(self).leds == old(self).leds,
            final(self).hold_until == if r {
                old(self).hold_until
            } else {
                None
            },
    {
        if is_held(self.hold_until, now) {
            return true;
        }
        self.hold_until = None;
        false
    }
}

/// The pictures of one round and how long each is shown, in milliseconds: the first from one to
/// five seconds, by a random number.
pub open spec fn slides_of(random: u32) -> Seq<(Picture, u64)> {
    seq![
        (Picture::Cat1, (1000 + random as int % 4001) as u64),
        (Picture::Cat2, 100),
        (Picture::Cat3, 100),
    ]
}

/// The pictures of one round and how long each is shown, in milliseconds.
pub fn slides(random: u32) -> (r: Vec<(Picture, u64)>)
    ensures
        r@ == slides_of(random),
{
    let mut r: Vec<(Picture, u64)> = Vec::new();
    r.push((Picture::Cat1, 1000 + (random as u64) % 4001));
    r.push((Picture::Cat2, 100));
    r.push((Picture::Cat3, 100));
    assert(r@ =~= slides_of(random));
    r
}

/// The pictures of one round over USB, each shown for 300 milliseconds.
pub fn usb_slides() -> (r: Vec<(Picture, u64)>)
    ensures
        r@ == seq![(Picture::Cat1, 300u64), (Picture::Cat2, 300u64), (Picture::Cat3, 300u64)],
{
    let mut r: Vec<(Picture, u64)> = Vec::new();
    r.push((Picture::Cat1, 300));
    r.push((Picture::Cat2, 300));
    r.push((Picture::Cat3, 300));
    assert(r@ =~= seq![(Picture::Cat1, 300u64), (Picture::Cat2, 300u64), (Picture::Cat3, 300u64)]);
    r
}

/// A step of a round of pictures.
#[derive(Clone, Copy, Debug, PartialEq, Eq, Structural)]
pub enum SlideStep {
    /// Take in the commands that wait before the picture at this place.
    Look(usize),
    /// Show the picture at this place for its time.
    Show(usize),
    Done,
}

/// What follows a step of a round of `count` pictures. A card that came up meanwhile ends the
/// round.
pub open spec fn slide_after(step: SlideStep, count: usize, held: bool) -> SlideStep {
    match step {
        SlideStep::Look(i) => if held || i >= count {
            SlideStep::Done
        } else {
            SlideStep::Show(i)
        },
        SlideStep::Show(i) => if held || i + 1 >= count {
            SlideStep::Done
        } else {
            SlideStep::Look((i + 1) as usize)
        },
        SlideStep::Done => SlideStep::Done,
    }
}

/// What follows a step of a round of `count` pictures; `held` says whether a card is up.
pub fn next_slide(step: SlideStep, count: usize, held: bool) -> (r: SlideStep)
    ensures
        r == slide_after(step, count, held),
{
    match step {
        SlideStep::Look(i) => if held || i >= count {
            SlideStep::Done
        } else {
            SlideStep::Show(i)
        },
        SlideStep::Show(i) => if held || i >= count || i + 1 >= count {
            SlideStep::Done
        } else {
            SlideStep::Look(i + 1)
        },
        SlideStep::Done => SlideStep::Done,
    }
}

/// The step of a round after others, where `held` says for each of them whether a card was up
/// behind it.
pub open spec fn slide_at(count: usize, held: Seq<bool>) -> SlideStep
    decreases held.len(),
{
    if held.len() == 0 {
        SlideStep::Look(0)
    } else {
        slide_after(slide_at(count, held.drop_last()), count, held.last())
    }
}

/// A round shows every picture once and in order, with a look at the commands before each. The
/// first card that comes up ends it.
pub proof fn round_shows_every_picture(count: usize, held: Seq<bool>)
    requires
        count > 0,
    ensures
        slide_at(count, held) == if held.contains(true) || held.len() >= 2 * count {
            SlideStep::Done
        } else if held.len() % 2 == 0 {
            SlideStep::Look((held.len() / 2) as usize)
        } else {
            SlideStep::Show((held.len() / 2) as usize)
        },
    decreases held.len(),
{
    if held.len() > 0 {
        let front = held.drop_last();
        round_shows_every_picture(count, front);
        if front.contains(true) {
            let i = choose|i: int| 0 <= i < front.len() && front[i];
            assert(held[i]);
        } else if held.contains(true) {
            let i = choose|i: int| 0 <= i < held.len() && held[i];
            if i < front.len() {
                assert(front[i]);
            }
            assert(held.last());
        } else {
            assert(held[held.len() - 1] == held.last());
            assert(!held.last());
        }
    }
}

/// The longest sleep between two looks at the queue, in milliseconds.
pub const SLICE_MS: u64 = 20;

/// How long to sleep next, of `remaining_ms` milliseconds.
pub fn next_slice_ms(remaining_ms: u64) -> (r: u64)
    ensures
        r == if remaining_ms < SLICE_MS {
            remaining_ms
        } else {
            SLICE_MS
        },
{
    if remaining_ms < SLICE_MS {
        remaining_ms
    } else {
        SLICE_MS
    }
}

/// The sleeps that a wait is made of.
pub open spec fn slices_of(remaining_ms: nat) -> Seq<nat>
    decreases remaining_ms,
{
    if remaining_ms == 0 {
        Seq::empty()
    } else {
        let slice: nat = if remaining_ms < SLICE_MS {
            remaining_ms
        } else {
            SLICE_MS as nat
        };
        seq![slice] + slices_of((remaining_ms - slice) as nat)
    }
}

/// The sum of a list of numbers.
pub open spec fn sum(s: Seq<nat>) -> nat
    decreases s.len(),
{
    if s.len() == 0 {
        0
    } else {
        s[0] + sum(s.drop_first())
    }
}

/// The sleeps of a wait add up to it, and the queue is never left alone for longer than a slice.
pub proof fn slices_add_up(ms: nat)
    ensures
        sum(slices_of(ms)) == ms,
        forall|i: int| 0 <= i < slices_of(ms).len() ==> 0 < #[trigger] slices_of(ms)[i] <= SLICE_MS,
    decreases ms,
{
    if ms > 0 {
        let slice: nat = if ms < SLICE_MS {
            ms
        } else {
            SLICE_MS as nat
        };
        let rest = slices_of((ms - slice) as nat);
        slices_add_up((ms - slice) as nat);
        assert(slices_of(ms).drop_first() =~= rest);
        assert forall|i: int| 0 <= i < slices_of(ms).len() implies 0 < #[trigger] slices_of(ms)[i]
            <= SLICE_MS by {
            if i > 0 {
                assert(slices_of(ms)[i] == rest[i - 1]);
            }
        }
    }
}

/// What to do next with a frame that is written bit by bit.
#[derive(Clone, Copy, Debug, PartialEq, Eq, Structural)]
pub enum WriteStep {
    /// Write the rest, from this position on.
    WriteFrom(usize),
    /// The port is full: wait, then write from this position on.
    WaitThenWriteFrom(usize),
    Done,
}

/// What to do after `count` of the bytes from `written` on were taken, of `len` in all.
pub fn after_write(written: usize, count: usize, len: usize) -> (r: WriteStep)
    requires
        written + count <= len,
    ensures
        r == if written + count >= len {
            WriteStep::Done
        } else if count == 0 {
            WriteStep::WaitThenWriteFrom(written)
        } else {
            WriteStep::WriteFrom((written + count) as usize)
        },
{
    if written + count >= len {
        WriteStep::Done
    } else if count == 0 {
        WriteStep::WaitThenWriteFrom(written)
    } else {
        WriteStep::WriteFrom(written + count)
    }
}

/// The answer to a message.
pub open spec fn ack_of(original_msg_id: u32, ok: bool, error: Seq<char>) -> MessageView {
    MessageView {
        msg_id: if original_msg_id + 10_000 > u32::MAX {
            u32::MAX
        } else {
            (original_msg_id + 10_000) as u32
        },
        payload: Some(PayloadView::Ack(AckView { msg_id: original_msg_id, ok, error })),
    }
}

/// The answer to a message.
pub fn ack_message(original_msg_id: u32, ok: bool, error: String) -> (r: WireMessage)
    ensures
        r@ == ack_of(original_msg_id, ok, error@),
{
    WireMessage {
        msg_id: original_msg_id.saturating_add(10_000),
        payload: Some(Payload::Ack(Ack { msg_id: original_msg_id, ok, error })),
    }
}

/// The answer to a message with this number that was put into the queue, or for which there was
/// no room; an answer is not answered.
pub open spec fn reply_of(msg_id: u32, was_ack: bool, queued: bool) -> Option<MessageView> {
    if was_ack {
        None
    } else if queued {
        Some(ack_of(msg_id, true, Seq::empty()))
    } else {
        Some(ack_of(msg_id, false, "command queue full"@))
    }
}

/// Whether a message is an answer.
pub open spec fn is_answer(msg: MessageView) -> bool {
    msg.payload matches Some(PayloadView::Ack(_))
}

/// Whether a message is an answer.
pub fn is_ack(msg: &WireMessage) -> (r: bool)
    ensures
        r == is_answer(msg@),
{
    match &msg.payload {
        Some(Payload::Ack(_)) => true,
        _ => false,
    }
}

/// The answer to a message with this number, once it is known whether the queue took it.
pub fn reply_to(msg_id: u32, was_ack: bool, queued: bool) -> (r: Option<WireMessage>)
    ensures
        match r {
            Some(answer) => reply_of(msg_id, was_ack, queued) == Some(answer@),
            None => reply_of(msg_id, was_ack, queued) is None,
        },
{
    if was_ack {
        None
    } else if queued {
        let r = ack_message(msg_id, true, String::new());
        assert(r@ == ack_of(msg_id, true, Seq::empty()));
        Some(r)
    } else {
        Some(ack_message(msg_id, false, "command queue full".to_string()))
    }
}

/// Every message but an answer is answered once, under its own number: yes where the queue took
/// it, and no, with a reason, where it did not.
pub proof fn every_message_is_answered(msg: MessageView, queued: bool)
    requires
        !is_answer(msg),
    ensures
        ({
            &&& reply_of(msg.msg_id, is_answer(msg), queued) matches Some(answer)
            &&& answer.payload matches Some(PayloadView::Ack(ack))
            &&& ack.msg_id == msg.msg_id
            &&& ack.ok == queued
            &&& ack.error.len() > 0 <==> !queued
        }),
{
    reveal_strlit("command queue full");
}

/// The robot does what a message says and nothing else: it turns to the angle that was given, runs
/// the pattern that was given, shows the picture that was named or notes the name, and shows the
/// card of the notification, which it keeps for five seconds. A ping or an answer moves nothing.
pub proof fn messages_are_obeyed(robot: Robot, msg: MessageView, now: u64, random: u32)
    requires
        robot.leds.wf(),
        now <= u64::MAX - NOTIFICATION_HOLD_NANOS,
    ensures
        ({
            let (after, done) = robot.applied(msg, now, random);
            &&& after.rendered_code == robot.rendered_code
            &&& match msg.payload {
                Some(PayloadView::SetServo(cmd)) => {
                    &&& done == seq![EffectView::Servo(cmd.angle_bits)]
                    &&& after == robot
                },
                Some(PayloadView::LedAnimation(cmd)) => {
                    &&& done.len() >= 2
                    &&& done[0] == EffectView::EnableLamps
                    &&& done[1] == EffectView::Lamps(crate::led::lamps_at(cmd.pattern_id, 0))
                    &&& after.leds.run.pattern_id == cmd.pattern_id
                    &&& after.leds.run.settings_left() == crate::led::settings_of(
                        cmd.pattern_id,
                        cmd.repeats,
                    ) - 1
                    &&& after.hold_until == robot.hold_until
                },
                Some(PayloadView::ShowIcon(cmd)) => {
                    &&& done.len() == 1
                    &&& done[0] == EffectView::Show(Picture::Cat1) <==> cmd.icon_id == "cat1"@
                    &&& done[0] == EffectView::Show(Picture::Cat2) <==> cmd.icon_id == "cat2"@
                    &&& done[0] == EffectView::Show(Picture::Cat3) <==> cmd.icon_id == "cat3"@
                    &&& done[0] is Show || done[0] == EffectView::UnknownIcon(cmd.icon_id)
                    &&& after == robot
                },
                Some(PayloadView::Notification(evt)) => {
                    &&& done == seq![EffectView::Card(card(evt))]
                    &&& after.hold_until == Some((now + 5_000_000_000) as u64)
                    &&& after.leds == robot.leds
                },
                _ => done.len() == 0 && after == robot,
            }
        }),
{
    reveal_strlit("cat1");
    reveal_strlit("cat2");
    reveal_strlit("cat3");
    assert("cat1"@[3] == '1' && "cat2"@[3] == '2' && "cat3"@[3] == '3');
    if let Some(PayloadView::LedAnimation(cmd)) = msg.payload {
        let begun = LedAnimator {
            run: LedRun::scheduled(cmd.pattern_id, cmd.repeats, now),
            ..robot.leds
        };
        crate::led::first_setting_comes_at_once(begun, cmd.pattern_id, cmd.repeats, now, random);
        let masks = begun.ticked(now, random).1;
        assert(lamp_effects(masks)[0] == EffectView::Lamps(masks[0]));
    }
}

/// The robot on the USB port does the same with a message, but for the lamps, whose pattern begins
/// with the next tick.
pub proof fn both_robots_obey_alike(robot: Robot, usb: UsbRobot, msg: MessageView, now: u64, random: u32)
    ensures
        ({
            let (after, done) = usb.applied(msg, now);
            let (other, shown) = robot.applied(msg, now, random);
            if let Some(PayloadView::LedAnimation(cmd)) = msg.payload {
                &&& done.len() == 0
                &&& after.leds.pattern_id == cmd.pattern_id
                &&& after.leds.repeats_left == if cmd.repeats == 0 {
                    1
                } else {
                    cmd.repeats
                }
                &&& after.leds.position() == 0
                &&& after.leds.due(now)
                &&& after.hold_until == usb.hold_until
            } else {
                &&& done == shown
                &&& after.leds == usb.leds
                &&& usb.hold_until == robot.hold_until ==> after.hold_until == other.hold_until
            }
        }),
{
}

/// The display shows what matters most: a code while a peer is to pair, and no other one than that;
/// else the card for as long as it is kept; else the pictures. The lamps have no part in it.
pub proof fn display_shows_what_matters_most(
    robot: Robot,
    pairing_mode: bool,
    pairing_code: Option<u32>,
    now: u64,
)
    ensures
        ({
            let (after, step) = robot.screen(pairing_mode, pairing_code, now);
            &&& after.leds == robot.leds
            &&& pairing_mode ==> {
                &&& step matches ScreenStep::DrawCode(code) ==> pairing_code == Some(code)
                &&& step is DrawCode || step == ScreenStep::KeepCode
                &&& pairing_code is Some ==> after.rendered_code == pairing_code
                &&& step is DrawCode <==> pairing_code is Some && robot.rendered_code
                    != pairing_code
                &&& after.hold_until == robot.hold_until
            }
            &&& !pairing_mode ==> {
                &&& step == ScreenStep::KeepCard <==> (robot.hold_until matches Some(until) && now
                    < until)
                &&& step == ScreenStep::KeepCard || step == ScreenStep::Slides
                &&& after.rendered_code is None
                &&& step == ScreenStep::KeepCard ==> after.hold_until == robot.hold_until
                &&& step == ScreenStep::Slides ==> after.hold_until is None
            }
        }),
{
}

/// A round shows the three pictures in order; the first stays for one to five seconds, by the
/// random number, the others for a tenth of a second each.
pub proof fn slides_are_timed(random: u32, other: u32)
    ensures
        ({
            let s = slides_of(random);
            &&& s.len() == 3
            &&& s[0].0 == Picture::Cat1 && s[1].0 == Picture::Cat2 && s[2].0 == Picture::Cat3
            &&& 1000 <= s[0].1 <= 5000
            &&& random <= 4000 ==> s[0].1 == 1000 + random
            &&& s[1].1 == 100 && s[2].1 == 100
            &&& random != other && -4001 < random - other < 4001 ==> s[0].1
                != slides_of(other)[0].1
        }),
{
}

/// An answer has a number of its own, ten thousand above that of the message as far as numbers go,
/// and an answer is not answered.
pub proof fn answers_have_their_own_numbers(msg_id: u32, queued: bool)
    ensures
        ({
            &&& reply_of(msg_id, false, queued) matches Some(answer)
            &&& msg_id <= u32::MAX - 10_000 ==> answer.msg_id == msg_id + 10_000
            &&& msg_id > u32::MAX - 10_000 ==> answer.msg_id == u32::MAX
        }),
        reply_of(msg_id, true, queued) is None,
        forall|m: MessageView| #[trigger]
            is_answer(m) <==> (m.payload is Some && m.payload->0 is Ack),
{
}

} // verus!

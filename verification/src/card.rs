//! Pictures on the robot's display, as lists of drawing operations: the card of a notification
//! and the screen with the pairing code.

use vstd::prelude::*;
use crate::message::{NotificationEvent, NotificationView};
use crate::text::{chars_of, contains, has_text, lower, lower_chars, text_of, zero_padded};
use crate::text::zero_padded_text;
use crate::wrap::{texts, truncate_text, truncated, truncated_text_fits, wrap_text_with_ellipsis};
use crate::wrap::{wrapped, wrapped_text_fits};

verus! {

/// A colour in 5, 6 and 5 bits.
#[derive(Clone, Copy, Debug, PartialEq, Eq, Structural)]
pub struct Color {
    pub r: u8,
    pub g: u8,
    pub b: u8,
}

#[verifier::allow_in_spec]
pub fn black() -> Color
    returns
        (Color { r: 0, g: 0, b: 0 }),
{
    Color { r: 0, g: 0, b: 0 }
}

#[verifier::allow_in_spec]
pub fn white() -> Color
    returns
        (Color { r: 31, g: 63, b: 31 }),
{
    Color { r: 31, g: 63, b: 31 }
}

#[verifier::allow_in_spec]
pub fn red() -> Color
    returns
        (Color { r: 31, g: 0, b: 0 }),
{
    Color { r: 31, g: 0, b: 0 }
}

#[verifier::allow_in_spec]
pub fn yellow() -> Color
    returns
        (Color { r: 31, g: 63, b: 0 }),
{
    Color { r: 31, g: 63, b: 0 }
}

/// The colour of the pairing screen.
#[verifier::allow_in_spec]
pub fn amber() -> Color
    returns
        (Color { r: 31, g: 31, b: 0 }),
{
    Color { r: 31, g: 31, b: 0 }
}

/// The fonts of the display, by the size of a character in pixels.
#[derive(Clone, Copy, Debug, PartialEq, Eq, Structural)]
pub enum Font {
    F6x10,
    F8x13Bold,
    F10x20,
}

/// How wide a character of a font is.
pub open spec fn char_width(font: Font) -> int {
    match font {
        Font::F6x10 => 6,
        Font::F8x13Bold => 8,
        Font::F10x20 => 10,
    }
}

/// One thing to draw.
#[derive(Clone, Debug, PartialEq, Eq)]
pub enum DrawOp {
    /// Fills the whole display.
    Clear(Color),
    /// A rectangle by its upper left corner and size.
    Rect {
        x: i32,
        y: i32,
        width: u32,
        height: u32,
        stroke: Option<(Color, u32)>,
        fill: Option<Color>,
    },
    /// A line between two points.
    Line { x1: i32, y1: i32, x2: i32, y2: i32, color: Color, width: u32 },
    /// A filled triangle.
    Triangle { x1: i32, y1: i32, x2: i32, y2: i32, x3: i32, y3: i32, color: Color },
    /// A circle by the upper left corner of the square around it.
    Circle { x: i32, y: i32, diameter: u32, stroke: Option<(Color, u32)>, fill: Option<Color> },
    /// A text by the left end of its base line.
    Text { text: String, x: i32, y: i32, font: Font, color: Color },
}

/// One thing to draw, as seen by the contracts.
#[verifier::ext_equal]
pub enum DrawView {
    Clear(Color),
    Rect {
        x: i32,
        y: i32,
        width: u32,
        height: u32,
        stroke: Option<(Color, u32)>,
        fill: Option<Color>,
    },
    Line { x1: i32, y1: i32, x2: i32, y2: i32, color: Color, width: u32 },
    Triangle { x1: i32, y1: i32, x2: i32, y2: i32, x3: i32, y3: i32, color: Color },
    Circle { x: i32, y: i32, diameter: u32, stroke: Option<(Color, u32)>, fill: Option<Color> },
    Text { text: Seq<char>, x: i32, y: i32, font: Font, color: Color },
}

impl View for DrawOp {
    type V = DrawView;

    open spec fn view(&self) -> DrawView {
        match *self {
            DrawOp::Clear(c) => DrawView::Clear(c),
            DrawOp::Rect { x, y, width, height, stroke, fill } => DrawView::Rect {
                x,
                y,
                width,
                height,
                stroke,
                fill,
            },
            DrawOp::Line { x1, y1, x2, y2, color, width } => DrawView::Line {
                x1,
                y1,
                x2,
                y2,
                color,
                width,
            },
            DrawOp::Triangle { x1, y1, x2, y2, x3, y3, color } => DrawView::Triangle {
                x1,
                y1,
                x2,
                y2,
                x3,
                y3,
                color,
            },
            DrawOp::Circle { x, y, diameter, stroke, fill } => DrawView::Circle {
                x,
                y,
                diameter,
                stroke,
                fill,
            },
            DrawOp::Text { text, x, y, font, color } => DrawView::Text {
                text: text@,
                x,
                y,
                font,
                color,
            },
        }
    }
}

/// The operations of a list, as seen by the contracts.
pub open spec fn drawn(ops: Seq<DrawOp>) -> Seq<DrawView> {
    ops.map_values(|o: DrawOp| o@)
}

/// Whether the coordinates to the right of and below a point are numbers up to these distances.
pub open spec fn has_room(x: i32, y: i32, width: int, height: int) -> bool {
    x + width <= i32::MAX && y + height <= i32::MAX
}

pub open spec fn mail_icon(x: i32, y: i32) -> Seq<DrawView> {
    seq![
        DrawView::Rect {
            x,
            y,
            width: 52,
            height: 36,
            stroke: Some((white(), 3)),
            fill: Some(Color { r: 4, g: 18, b: 10 }),
        },
        DrawView::Line {
            x1: x,
            y1: y,
            x2: (x + 26) as i32,
            y2: (y + 18) as i32,
            color: white(),
            width: 2,
        },
        DrawView::Line {
            x1: (x + 52) as i32,
            y1: y,
            x2: (x + 26) as i32,
            y2: (y + 18) as i32,
            color: white(),
            width: 2,
        },
    ]
}

/// An envelope.
pub fn draw_mail_icon(x: i32, y: i32) -> (r: Vec<DrawOp>)
    requires
        has_room(x, y, 52, 18),
    ensures
        drawn(r@) == mail_icon(x, y),
{
    let mut r: Vec<DrawOp> = Vec::new();
    r.push(
        DrawOp::Rect {
            x,
            y,
            width: 52,
            height: 36,
            stroke: Some((white(), 3)),
            fill: Some(Color { r: 4, g: 18, b: 10 }),
        },
    );
    r.push(DrawOp::Line { x1: x, y1: y, x2: x + 26, y2: y + 18, color: white(), width: 2 });
    r.push(DrawOp::Line { x1: x + 52, y1: y, x2: x + 26, y2: y + 18, color: white(), width: 2 });
    assert(drawn(r@) =~= mail_icon(x, y));
    r
}

/// One of the dots in the bubble.
pub open spec fn chat_dot(x: i32, y: i32, i: int) -> DrawView {
    DrawView::Circle {
        x: (x + 10 + i * 14) as i32,
        y: (y + 12) as i32,
        diameter: 6,
        stroke: None,
        fill: Some(white()),
    }
}

pub open spec fn chat_icon(x: i32, y: i32) -> Seq<DrawView> {
    seq![
        DrawView::Rect {
            x,
            y,
            width: 50,
            height: 34,
            stroke: Some((white(), 3)),
            fill: Some(Color { r: 2, g: 24, b: 9 }),
        },
        DrawView::Triangle {
            x1: (x + 10) as i32,
            y1: (y + 34) as i32,
            x2: (x + 20) as i32,
            y2: (y + 34) as i32,
            x3: (x + 14) as i32,
            y3: (y + 45) as i32,
            color: Color { r: 2, g: 24, b: 9 },
        },
        chat_dot(x, y, 0),
        chat_dot(x, y, 1),
        chat_dot(x, y, 2),
    ]
}

/// A speech bubble.
pub fn draw_chat_icon(x: i32, y: i32) -> (r: Vec<DrawOp>)
    requires
        has_room(x, y, 38, 45),
    ensures
        drawn(r@) == chat_icon(x, y),
{
    let mut r: Vec<DrawOp> = Vec::new();
    r.push(
        DrawOp::Rect {
            x,
            y,
            width: 50,
            height: 34,
            stroke: Some((white(), 3)),
            fill: Some(Color { r: 2, g: 24, b: 9 }),
        },
    );
    r.push(
        DrawOp::Triangle {
            x1: x + 10,
            y1: y + 34,
            x2: x + 20,
            y2: y + 34,
            x3: x + 14,
            y3: y + 45,
            color: Color { r: 2, g: 24, b: 9 },
        },
    );
    let mut i: i32 = 0;
    while i < 3
        invariant
            0 <= i <= 3,
            has_room(x, y, 38, 45),
            drawn(r@) == chat_icon(x, y).take(2 + i),
        decreases 3 - i,
    {
        let ghost before = drawn(r@);
        r.push(
            DrawOp::Circle {
                x: x + (10 + i * 14),
                y: y + 12,
                diameter: 6,
                stroke: None,
                fill: Some(white()),
            },
        );
        assert(drawn(r@) =~= before.push(chat_dot(x, y, i as int)));
        assert(chat_icon(x, y).take(3 + i) =~= chat_icon(x, y).take(2 + i).push(
            chat_dot(x, y, i as int),
        ));
        i = i + 1;
    }
    assert(chat_icon(x, y).take(5) =~= chat_icon(x, y));
    r
}

pub open spec fn calendar_icon(x: i32, y: i32) -> Seq<DrawView> {
    seq![
        DrawView::Rect {
            x,
            y,
            width: 50,
            height: 44,
            stroke: Some((white(), 3)),
            fill: Some(Color { r: 6, g: 8, b: 22 }),
        },
        DrawView::Rect { x, y, width: 50, height: 12, stroke: None, fill: Some(red()) },
    ]
}

/// A calendar sheet.
pub fn draw_calendar_icon(x: i32, y: i32) -> (r: Vec<DrawOp>)
    ensures
        drawn(r@) == calendar_icon(x, y),
{
    let mut r: Vec<DrawOp> = Vec::new();
    r.push(
        DrawOp::Rect {
            x,
            y,
            width: 50,
            height: 44,
            stroke: Some((white(), 3)),
            fill: Some(Color { r: 6, g: 8, b: 22 }),
        },
    );
    r.push(DrawOp::Rect { x, y, width: 50, height: 12, stroke: None, fill: Some(red()) });
    assert(drawn(r@) =~= calendar_icon(x, y));
    r
}

/// One of the bars of the system icon, `delta` to the right of the first one.
pub open spec fn system_bar(x: i32, y: i32, delta: int) -> DrawView {
    DrawView::Line {
        x1: (x + 22 + delta - 18) as i32,
        y1: (y + 4) as i32,
        x2: (x + 22 + delta - 18) as i32,
        y2: (y + 40) as i32,
        color: yellow(),
        width: 2,
    }
}

pub open spec fn system_icon(x: i32, y: i32) -> Seq<DrawView> {
    seq![
        DrawView::Circle {
            x,
            y,
            diameter: 44,
            stroke: Some((white(), 3)),
            fill: Some(Color { r: 10, g: 10, b: 10 }),
        },
        system_bar(x, y, 0),
        system_bar(x, y, 12),
        system_bar(x, y, 24),
        system_bar(x, y, 36),
    ]
}

/// A disk with bars.
pub fn draw_system_icon(x: i32, y: i32) -> (r: Vec<DrawOp>)
    requires
        has_room(x, y, 40, 40),
    ensures
        drawn(r@) == system_icon(x, y),
{
    let mut r: Vec<DrawOp> = Vec::new();
    r.push(
        DrawOp::Circle {
            x,
            y,
            diameter: 44,
            stroke: Some((white(), 3)),
            fill: Some(Color { r: 10, g: 10, b: 10 }),
        },
    );
    let mut i: i32 = 0;
    while i < 4
        invariant
            0 <= i <= 4,
            has_room(x, y, 40, 40),
            drawn(r@) == system_icon(x, y).take(1 + i),
        decreases 4 - i,
    {
        let delta: i32 = 12 * i;
        let ghost before = drawn(r@);
        let bar_x: i32 = x + 22 + (delta - 18);
        r.push(
            DrawOp::Line { x1: bar_x, y1: y + 4, x2: bar_x, y2: y + 40, color: yellow(), width: 2 },
        );
        assert(drawn(r@) =~= before.push(system_bar(x, y, delta as int)));
        assert(system_icon(x, y).take(2 + i) =~= system_icon(x, y).take(1 + i).push(
            system_bar(x, y, delta as int),
        ));
        i = i + 1;
    }
    assert(system_icon(x, y).take(5) =~= system_icon(x, y));
    r
}

/// What the card makes of a notification's source.
#[derive(Clone, Copy, Debug, PartialEq, Eq, Structural)]
pub enum CardKind {
    Chat,
    Mail,
    Calendar,
    System,
}

/// The kind of card for a notification, by what its bundle, icon and application contain.
pub open spec fn card_kind(evt: NotificationView) -> CardKind {
    let bundle = lower(evt.source_bundle_id);
    let hint = lower(evt.app_icon_hint);
    let app = lower(evt.source_app);
    if contains(bundle, "whatsapp"@) || contains(hint, "whatsapp"@) || contains(
        app,
        "whatsapp"@,
    ) {
        CardKind::Chat
    } else if contains(bundle, "outlook"@) || contains(bundle, "mail"@) || contains(
        hint,
        "mail"@,
    ) {
        CardKind::Mail
    } else if contains(bundle, "calendar"@) || contains(hint, "calendar"@) {
        CardKind::Calendar
    } else {
        CardKind::System
    }
}

fn kind_of_card(evt: &NotificationEvent) -> (r: CardKind)
    ensures
        r == card_kind(evt@),
{
    let bundle_chars = lower_chars(evt.source_bundle_id.as_str());
    let hint_chars = lower_chars(evt.app_icon_hint.as_str());
    let app_chars = lower_chars(evt.source_app.as_str());
    let bundle = bundle_chars.as_slice();
    let hint = hint_chars.as_slice();
    let app = app_chars.as_slice();
    if has_text(bundle, "whatsapp") || has_text(hint, "whatsapp") || has_text(app, "whatsapp") {
        CardKind::Chat
    } else if has_text(bundle, "outlook") || has_text(bundle, "mail") || has_text(hint, "mail") {
        CardKind::Mail
    } else if has_text(bundle, "calendar") || has_text(hint, "calendar") {
        CardKind::Calendar
    } else {
        CardKind::System
    }
}

/// The colour of the frame and the head of a card.
pub open spec fn accent(kind: CardKind) -> Color {
    match kind {
        CardKind::Chat => Color { r: 4, g: 28, b: 10 },
        CardKind::Mail => Color { r: 2, g: 12, b: 28 },
        CardKind::Calendar => red(),
        CardKind::System => Color { r: 18, g: 10, b: 4 },
    }
}

/// The icon on a card.
pub open spec fn card_icon(kind: CardKind) -> Seq<DrawView> {
    match kind {
        CardKind::Chat => chat_icon(24, 68),
        CardKind::Mail => mail_icon(24, 70),
        CardKind::Calendar => calendar_icon(24, 66),
        CardKind::System => system_icon(24, 68),
    }
}

/// `s` with each line end replaced by a space.
pub open spec fn in_one_line(s: Seq<char>) -> Seq<char> {
    Seq::new(
        s.len(),
        |i: int|
            if s[i] == '\n' {
                ' '
            } else {
                s[i]
            },
    )
}

fn one_line(s: &str) -> (r: String)
    ensures
        r@ == in_one_line(s@),
{
    let mut chars = chars_of(s);
    let mut i: usize = 0;
    while i < chars.len()
        invariant
            i <= chars@.len(),
            chars@.len() == s@.len(),
            forall|j: int| 0 <= j < i ==> chars@[j] == in_one_line(s@)[j],
            forall|j: int| i <= j < chars@.len() ==> chars@[j] == s@[j],
        decreases chars@.len() - i,
    {
        if chars[i] == '\n' {
            chars.set(i, ' ');
        }
        i = i + 1;
    }
    assert(chars@ =~= in_one_line(s@));
    text_of(chars.as_slice())
}

/// The words in the head of a card.
pub open spec fn card_header(evt: NotificationView) -> Seq<char> {
    if evt.source_app.len() == 0 {
        "Notification"@
    } else {
        truncated(evt.source_app, 24)
    }
}

/// The title of a card: that of the notification, else who sent it.
pub open spec fn card_title(evt: NotificationView) -> Seq<char> {
    if evt.title.len() > 0 {
        in_one_line(evt.title)
    } else if evt.sender_name.len() > 0 {
        in_one_line(evt.sender_name)
    } else {
        "Someone"@
    }
}

/// The text of a card: that of the notification, else its title.
pub open spec fn card_body(evt: NotificationView) -> Seq<char> {
    if evt.body.len() > 0 {
        in_one_line(evt.body)
    } else {
        in_one_line(evt.title)
    }
}

/// Where the sender's handle stands below so many lines of title.
pub open spec fn handle_y(title_lines: nat) -> int {
    98 + 20 * (title_lines as int)
}

/// Where the text begins.
pub open spec fn body_y(title_lines: nat, has_handle: bool) -> int {
    if has_handle {
        handle_y(title_lines) + 16
    } else {
        handle_y(title_lines) + 4
    }
}

/// How many lines of text fit above the lower edge: one at least, seven at most.
pub open spec fn body_lines(title_lines: nat, has_handle: bool) -> nat {
    let start = body_y(title_lines, has_handle);
    if start > 214 {
        1
    } else {
        let n = (214 - start) / 11 + 1;
        if n > 7 {
            7
        } else {
            n as nat
        }
    }
}

/// Lines of text below each other.
pub open spec fn text_block(lines: Seq<Seq<char>>, y: int, step: int, font: Font) -> Seq<DrawView> {
    Seq::new(
        lines.len(),
        |i: int|
            DrawView::Text { text: lines[i], x: 92, y: (y + i * step) as i32, font, color: white() },
    )
}

/// The frame, the head and the empty middle of a card.
pub open spec fn card_frame(kind: CardKind) -> Seq<DrawView> {
    seq![
        DrawView::Clear(black()),
        DrawView::Rect {
            x: 10,
            y: 14,
            width: 220,
            height: 212,
            stroke: Some((accent(kind), 3)),
            fill: None,
        },
        DrawView::Rect {
            x: 10,
            y: 14,
            width: 220,
            height: 34,
            stroke: None,
            fill: Some(accent(kind)),
        },
        DrawView::Rect { x: 86, y: 60, width: 132, height: 92, stroke: None, fill: Some(black()) },
    ]
}

/// The words on a card.
pub open spec fn card_words(evt: NotificationView) -> Seq<DrawView> {
    let title = wrapped(card_title(evt), 12, 2);
    let has_handle = evt.sender_handle.len() > 0;
    let body = wrapped(card_body(evt), 21, body_lines(title.len(), has_handle));
    let head = DrawView::Text {
        text: card_header(evt),
        x: 18,
        y: 36,
        font: Font::F8x13Bold,
        color: white(),
    };
    let handle = DrawView::Text {
        text: truncated(evt.sender_handle, 21),
        x: 92,
        y: handle_y(title.len()) as i32,
        font: Font::F6x10,
        color: white(),
    };
    seq![head] + text_block(title, 96, 20, Font::F10x20) + (if has_handle {
        seq![handle]
    } else {
        Seq::empty()
    }) + text_block(body, body_y(title.len(), has_handle), 11, Font::F6x10)
}

/// The card of a notification.
pub open spec fn card(evt: NotificationView) -> Seq<DrawView> {
    card_frame(card_kind(evt)) + card_icon(card_kind(evt)) + card_words(evt)
}

fn push_block(ops: &mut Vec<DrawOp>, lines: Vec<String>, y: i32, step: i32, font: Font)
    requires
        0 <= y <= 1000,
        0 <= step <= 100,
        lines@.len() <= 100,
    ensures
        drawn(final(ops)@) == drawn(old(ops)@) + text_block(
            texts(lines@),
            y as int,
            step as int,
            font,
        ),
{
    let ghost all = text_block(texts(lines@), y as int, step as int, font);
    let mut i: usize = 0;
    assert(drawn(ops@) =~= drawn(old(ops)@) + all.take(0));
    while i < lines.len()
        invariant
            i <= lines@.len() <= 100,
            0 <= y <= 1000,
            0 <= step <= 100,
            all == text_block(texts(lines@), y as int, step as int, font),
            drawn(ops@) == drawn(old(ops)@) + all.take(i as int),
        decreases lines@.len() - i,
    {
        assert(0 <= i * step <= 10_000) by (nonlinear_arith)
            requires
                0 <= i <= 100,
                0 <= step <= 100,
        ;
        let at: i32 = y + (i as i32) * step;
        let ghost before = drawn(ops@);
        ops.push(DrawOp::Text { text: lines[i].clone(), x: 92, y: at, font, color: white() });
        assert(drawn(ops@) =~= before.push(all[i as int]));
        i = i + 1;
        assert(drawn(old(ops)@) + all.take(i as int) =~= (drawn(old(ops)@) + all.take(i - 1)).push(
            all[i - 1],
        ));
    }
    assert(all.take(i as int) =~= all);
}

/// The card of a notification.
pub fn render_notification_card(evt: &NotificationEvent) -> (r: Vec<DrawOp>)
    ensures
        drawn(r@) == card(evt@),
{
    let kind = kind_of_card(evt);
    let color = match kind {
        CardKind::Chat => Color { r: 4, g: 28, b: 10 },
        CardKind::Mail => Color { r: 2, g: 12, b: 28 },
        CardKind::Calendar => red(),
        CardKind::System => Color { r: 18, g: 10, b: 4 },
    };
    let mut ops: Vec<DrawOp> = Vec::new();
    ops.push(DrawOp::Clear(black()));
    ops.push(
        DrawOp::Rect { x: 10, y: 14, width: 220, height: 212, stroke: Some((color, 3)), fill: None },
    );
    ops.push(
        DrawOp::Rect { x: 10, y: 14, width: 220, height: 34, stroke: None, fill: Some(color) },
    );
    ops.push(
        DrawOp::Rect { x: 86, y: 60, width: 132, height: 92, stroke: None, fill: Some(black()) },
    );
    assert(drawn(ops@) =~= card_frame(kind));
    let mut icon = match kind {
        CardKind::Chat => draw_chat_icon(24, 68),
        CardKind::Mail => draw_mail_icon(24, 70),
        CardKind::Calendar => draw_calendar_icon(24, 66),
        CardKind::System => draw_system_icon(24, 68),
    };
    let ghost icon_ops = drawn(icon@);
    ops.append(&mut icon);
    let ghost front = card_frame(kind) + card_icon(kind);
    assert(drawn(ops@) =~= front);

    let header = if evt.source_app.as_str().is_empty() {
        "Notification".to_string()
    } else {
        truncate_text(evt.source_app.as_str(), 24)
    };
    let title_text = if !evt.title.as_str().is_empty() {
        one_line(evt.title.as_str())
    } else if !evt.sender_name.as_str().is_empty() {
        one_line(evt.sender_name.as_str())
    } else {
        "Someone".to_string()
    };
    let title_lines = wrap_text_with_ellipsis(title_text.as_str(), 12, 2);
    let body_text = if !evt.body.as_str().is_empty() {
        one_line(evt.body.as_str())
    } else {
        one_line(evt.title.as_str())
    };
    proof {
        wrapped_text_fits(title_text@, 12, 2);
        assert(texts(title_lines@).len() == title_lines@.len());
    }
    let has_handle = !evt.sender_handle.as_str().is_empty();
    let ghost n = title_lines@.len();
    let handle_at: i32 = 96 + (title_lines.len() as i32) * 20 + 2;
    let body_at: i32 = if has_handle {
        handle_at + 16
    } else {
        handle_at + 4
    };
    let room: usize = if body_at > 214 {
        1
    } else {
        let fit: i32 = (214 - body_at) / 11 + 1;
        if fit > 7 {
            7
        } else {
            fit as usize
        }
    };
    assert(room == body_lines(n, has_handle));
    let body = wrap_text_with_ellipsis(body_text.as_str(), 21, room);
    proof {
        wrapped_text_fits(body_text@, 21, room as nat);
        assert(texts(body@).len() == body@.len());
    }

    let ghost head_op = DrawView::Text {
        text: header@,
        x: 18,
        y: 36,
        font: Font::F8x13Bold,
        color: white(),
    };
    ops.push(DrawOp::Text { text: header, x: 18, y: 36, font: Font::F8x13Bold, color: white() });
    assert(drawn(ops@) =~= front + seq![head_op]);
    let ghost title_ops = text_block(texts(title_lines@), 96, 20, Font::F10x20);
    push_block(&mut ops, title_lines, 96, 20, Font::F10x20);
    let ghost with_title = drawn(ops@);
    let ghost mut handle_ops = Seq::<DrawView>::empty();
    if has_handle {
        let handle = truncate_text(evt.sender_handle.as_str(), 21);
        proof {
            handle_ops = seq![
                DrawView::Text {
                    text: handle@,
                    x: 92,
                    y: handle_at,
                    font: Font::F6x10,
                    color: white(),
                },
            ];
        }
        ops.push(
            DrawOp::Text { text: handle, x: 92, y: handle_at, font: Font::F6x10, color: white() },
        );
        assert(drawn(ops@) =~= with_title + handle_ops);
    } else {
        assert(drawn(ops@) =~= with_title + handle_ops);
    }
    let ghost body_ops = text_block(texts(body@), body_at as int, 11, Font::F6x10);
    push_block(&mut ops, body, body_at, 11, Font::F6x10);
    assert(card_words(evt@) == seq![head_op] + title_ops + handle_ops + body_ops);
    assert(drawn(ops@) =~= front + (seq![head_op] + title_ops + handle_ops + body_ops));
    ops
}

/// The screen that shows a pairing code.
pub open spec fn pairing_screen(code: u32) -> Seq<DrawView> {
    seq![
        DrawView::Clear(black()),
        DrawView::Rect {
            x: 12,
            y: 40,
            width: 216,
            height: 160,
            stroke: Some((amber(), 3)),
            fill: None,
        },
        DrawView::Text {
            text: "PAIRING MODE"@,
            x: 52,
            y: 76,
            font: Font::F8x13Bold,
            color: amber(),
        },
        DrawView::Text { text: "Use code:"@, x: 66, y: 114, font: Font::F8x13Bold, color: amber() },
        DrawView::Text {
            text: zero_padded(code as nat, 6),
            x: 60,
            y: 154,
            font: Font::F10x20,
            color: white(),
        },
        DrawView::Text {
            text: "Waiting for BLE pair"@,
            x: 40,
            y: 190,
            font: Font::F8x13Bold,
            color: amber(),
        },
    ]
}

/// The screen that shows a pairing code.
pub fn render_pairing_code(code: u32) -> (r: Vec<DrawOp>)
    ensures
        drawn(r@) == pairing_screen(code),
{
    let mut r: Vec<DrawOp> = Vec::new();
    r.push(DrawOp::Clear(black()));
    r.push(
        DrawOp::Rect { x: 12, y: 40, width: 216, height: 160, stroke: Some((amber(), 3)), fill: None },
    );
    r.push(
        DrawOp::Text {
            text: "PAIRING MODE".to_string(),
            x: 52,
            y: 76,
            font: Font::F8x13Bold,
            color: amber(),
        },
    );
    r.push(
        DrawOp::Text {
            text: "Use code:".to_string(),
            x: 66,
            y: 114,
            font: Font::F8x13Bold,
            color: amber(),
        },
    );
    r.push(
        DrawOp::Text {
            text: zero_padded_text(code as u64, 6),
            x: 60,
            y: 154,
            font: Font::F10x20,
            color: white(),
        },
    );
    r.push(
        DrawOp::Text {
            text: "Waiting for BLE pair".to_string(),
            x: 40,
            y: 190,
            font: Font::F8x13Bold,
            color: amber(),
        },
    );
    assert(drawn(r@) =~= pairing_screen(code));
    r
}

/// Whether a text lies between the left and right edge of the card's frame, and its base line
/// between the upper and the lower one.
pub open spec fn inside_frame(op: DrawView) -> bool {
    match op {
        DrawView::Text { text, x, y, font, color } => {
            &&& 10 <= x
            &&& x + text.len() * char_width(font) <= 230
            &&& 14 <= y <= 226
        },
        _ => true,
    }
}

proof fn lemma_block_inside(lines: Seq<Seq<char>>, y: int, step: int, font: Font, max_chars: int)
    requires
        forall|i: int| 0 <= i < lines.len() ==> (#[trigger] lines[i]).len() <= max_chars,
        92 + max_chars * char_width(font) <= 230,
        14 <= y,
        0 <= step,
        y + lines.len() * step <= 226 + step,
    ensures
        forall|i: int|
            0 <= i < lines.len() ==> inside_frame(#[trigger] text_block(lines, y, step, font)[i]),
{
    let ops = text_block(lines, y, step, font);
    let w = char_width(font);
    assert forall|i: int| 0 <= i < lines.len() implies inside_frame(#[trigger] ops[i]) by {
        let n = lines[i].len();
        assert(n * w <= max_chars * w) by (nonlinear_arith)
            requires
                n <= max_chars,
                w > 0,
        ;
        assert(0 <= i * step) by (nonlinear_arith)
            requires
                0 <= i,
                0 <= step,
        ;
        let count = lines.len();
        assert(i * step <= count * step - step) by (nonlinear_arith)
            requires
                i + 1 <= count,
                0 <= step,
        ;
    }
}

/// Whatever a notification holds, the words on its card stay inside the frame.
pub proof fn words_stay_inside_the_frame(evt: NotificationView)
    ensures
        forall|i: int| 0 <= i < card_words(evt).len() ==> inside_frame(#[trigger] card_words(evt)[i]),
{
    let title = wrapped(card_title(evt), 12, 2);
    let has_handle = evt.sender_handle.len() > 0;
    wrapped_text_fits(card_title(evt), 12, 2);
    let start = body_y(title.len(), has_handle);
    let room = body_lines(title.len(), has_handle);
    assert(1 <= room <= 7);
    assert(start + 11 * (room - 1) <= 214);
    let body = wrapped(card_body(evt), 21, room);
    wrapped_text_fits(card_body(evt), 21, room);
    truncated_text_fits(evt.source_app, 24);
    truncated_text_fits(evt.sender_handle, 21);
    reveal_strlit("Notification");
    let t = text_block(title, 96, 20, Font::F10x20);
    lemma_block_inside(title, 96, 20, Font::F10x20, 12);
    let b = text_block(body, start, 11, Font::F6x10);
    lemma_block_inside(body, start, 11, Font::F6x10, 21);
    let head = DrawView::Text {
        text: card_header(evt),
        x: 18,
        y: 36,
        font: Font::F8x13Bold,
        color: white(),
    };
    let handle = DrawView::Text {
        text: truncated(evt.sender_handle, 21),
        x: 92,
        y: handle_y(title.len()) as i32,
        font: Font::F6x10,
        color: white(),
    };
    let h = if has_handle {
        seq![handle]
    } else {
        Seq::empty()
    };
    assert(inside_frame(head));
    assert(inside_frame(handle));
    let words = card_words(evt);
    assert(words == seq![head] + t + h + b);
    assert forall|i: int| 0 <= i < words.len() implies inside_frame(#[trigger] words[i]) by {
        if i == 0 {
            assert(words[i] == head);
        } else if i < 1 + t.len() {
            assert(words[i] == t[i - 1]);
        } else if i < 1 + t.len() + h.len() {
            assert(words[i] == handle);
        } else {
            assert(words[i] == b[i - 1 - t.len() - h.len()]);
        }
    }
}

/// The texts of one font among what is drawn, in the order of drawing.
pub open spec fn words_in(ops: Seq<DrawView>, in_font: Font) -> Seq<Seq<char>>
    decreases ops.len(),
{
    if ops.len() == 0 {
        Seq::empty()
    } else {
        let before = words_in(ops.drop_last(), in_font);
        match ops.last() {
            DrawView::Text { text, x, y, font, color } => if font == in_font {
                before.push(text)
            } else {
                before
            },
            _ => before,
        }
    }
}

proof fn lemma_words_in_joined(a: Seq<DrawView>, b: Seq<DrawView>, font: Font)
    ensures
        words_in(a + b, font) == words_in(a, font) + words_in(b, font),
    decreases b.len(),
{
    if b.len() == 0 {
        assert(a + b =~= a);
        assert(words_in(a, font) + words_in(b, font) =~= words_in(a, font));
    } else {
        lemma_words_in_joined(a, b.drop_last(), font);
        assert((a + b).drop_last() =~= a + b.drop_last());
        assert((a + b).last() == b.last());
        assert(words_in(a + b, font) =~= words_in(a, font) + words_in(b, font));
    }
}

proof fn lemma_no_words(ops: Seq<DrawView>, in_font: Font)
    requires
        forall|i: int|
            0 <= i < ops.len() ==> match #[trigger] ops[i] {
                DrawView::Text { text, x, y, font, color } => font != in_font,
                _ => true,
            },
    ensures
        words_in(ops, in_font) == Seq::<Seq<char>>::empty(),
    decreases ops.len(),
{
    if ops.len() > 0 {
        let less = ops.drop_last();
        assert forall|i: int| 0 <= i < less.len() implies match #[trigger] less[i] {
            DrawView::Text { text, x, y, font, color } => font != in_font,
            _ => true,
        } by {
            assert(less[i] == ops[i]);
        }
        lemma_no_words(less, in_font);
        assert(ops.last() == ops[ops.len() - 1]);
    }
}

proof fn lemma_block_words(lines: Seq<Seq<char>>, y: int, step: int, font: Font, in_font: Font)
    ensures
        words_in(text_block(lines, y, step, font), in_font) == if font == in_font {
            lines
        } else {
            Seq::<Seq<char>>::empty()
        },
    decreases lines.len(),
{
    let ops = text_block(lines, y, step, font);
    if lines.len() > 0 {
        lemma_block_words(lines.drop_last(), y, step, font, in_font);
        assert(ops.drop_last() =~= text_block(lines.drop_last(), y, step, font));
        assert(lines.drop_last().push(lines.last()) =~= lines);
    } else {
        assert(words_in(ops, in_font) =~= Seq::<Seq<char>>::empty());
        assert(lines =~= Seq::<Seq<char>>::empty());
    }
}

proof fn lemma_card_words_in(evt: NotificationView)
    ensures
        ({
            let title = wrapped(card_title(evt), 12, 2);
            let has_handle = evt.sender_handle.len() > 0;
            let body = wrapped(card_body(evt), 21, body_lines(title.len(), has_handle));
            let handle = if has_handle {
                seq![truncated(evt.sender_handle, 21)]
            } else {
                Seq::empty()
            };
            &&& words_in(card(evt), Font::F8x13Bold) == seq![card_header(evt)]
            &&& words_in(card(evt), Font::F10x20) == title
            &&& words_in(card(evt), Font::F6x10) == handle + body
        }),
{
    let title = wrapped(card_title(evt), 12, 2);
    let has_handle = evt.sender_handle.len() > 0;
    let start = body_y(title.len(), has_handle);
    let body = wrapped(card_body(evt), 21, body_lines(title.len(), has_handle));
    let head = DrawView::Text {
        text: card_header(evt),
        x: 18,
        y: 36,
        font: Font::F8x13Bold,
        color: white(),
    };
    let handle = DrawView::Text {
        text: truncated(evt.sender_handle, 21),
        x: 92,
        y: handle_y(title.len()) as i32,
        font: Font::F6x10,
        color: white(),
    };
    let none = Seq::<Seq<char>>::empty();
    let h = if has_handle {
        seq![handle]
    } else {
        Seq::empty()
    };
    let picture = card_frame(card_kind(evt)) + card_icon(card_kind(evt));
    let t = text_block(title, 96, 20, Font::F10x20);
    let b = text_block(body, start, 11, Font::F6x10);
    assert(card_words(evt) == seq![head] + t + h + b);
    assert forall|font: Font| #[trigger]
        words_in(card(evt), font) == (if font == Font::F8x13Bold {
            seq![card_header(evt)]
        } else {
            none
        }) + (if font == Font::F10x20 {
            title
        } else {
            none
        }) + (if font == Font::F6x10 && has_handle {
            seq![truncated(evt.sender_handle, 21)]
        } else {
            none
        }) + (if font == Font::F6x10 {
            body
        } else {
            none
        }) by {
        lemma_no_words(picture, font);
        lemma_words_in_joined(picture, card_words(evt), font);
        lemma_words_in_joined(seq![head] + t + h, b, font);
        lemma_words_in_joined(seq![head] + t, h, font);
        lemma_words_in_joined(seq![head], t, font);
        lemma_block_words(title, 96, 20, Font::F10x20, font);
        lemma_block_words(body, start, 11, Font::F6x10, font);
        assert(seq![head].drop_last() =~= Seq::<DrawView>::empty());
        assert(seq![handle].drop_last() =~= Seq::<DrawView>::empty());
        assert(words_in(Seq::<DrawView>::empty(), font) =~= none);
        assert(words_in(seq![head], font) =~= if font == Font::F8x13Bold {
            seq![card_header(evt)]
        } else {
            none
        });
        assert(words_in(h, font) =~= if font == Font::F6x10 && has_handle {
            seq![truncated(evt.sender_handle, 21)]
        } else {
            none
        });
    }
    assert(words_in(card(evt), Font::F8x13Bold) =~= seq![card_header(evt)]);
    assert(words_in(card(evt), Font::F10x20) =~= title);
    assert(words_in(card(evt), Font::F6x10) =~= (if has_handle {
        seq![truncated(evt.sender_handle, 21)]
    } else {
        none
    }) + body);
}

proof fn lemma_one_line_word_len(s: Seq<char>)
    ensures
        crate::wrap::word_len(in_one_line(s)) == crate::wrap::word_len(s),
        crate::wrap::word_len(s) <= s.len(),
        in_one_line(s).take(crate::wrap::word_len(s) as int) == s.take(
            crate::wrap::word_len(s) as int,
        ),
    decreases s.len(),
{
    let t = in_one_line(s);
    let n = crate::wrap::word_len(s) as int;
    if s.len() > 0 && !crate::text::white_space(s[0]) {
        let rest = s.drop_first();
        lemma_one_line_word_len(rest);
        assert(t.drop_first() =~= in_one_line(rest));
        assert(t[0] == s[0]);
        assert forall|i: int| 0 <= i < n implies t.take(n)[i] == #[trigger] s.take(n)[i] by {
            if i > 0 {
                assert(in_one_line(rest).take(n - 1)[i - 1] == rest.take(n - 1)[i - 1]);
            }
        }
        assert(t.take(n) =~= s.take(n));
    } else {
        assert(t.take(0) =~= s.take(0));
    }
}

proof fn lemma_one_line_trim(s: Seq<char>)
    ensures
        crate::text::trim_start(in_one_line(s)) == in_one_line(crate::text::trim_start(s)),
        crate::text::trim_start(s).len() <= s.len(),
        crate::text::trim_start(s).len() > 0 ==> !crate::text::white_space(
            crate::text::trim_start(s)[0],
        ),
    decreases s.len(),
{
    let t = in_one_line(s);
    if s.len() > 0 && crate::text::white_space(s[0]) {
        lemma_one_line_trim(s.drop_first());
        assert(t.drop_first() =~= in_one_line(s.drop_first()));
        assert(crate::text::white_space(t[0]));
    }
}

/// A line end is white space like any other, so that it makes no difference to the words.
proof fn lemma_one_line_words(s: Seq<char>)
    ensures
        crate::wrap::words(in_one_line(s)) == crate::wrap::words(s),
    decreases crate::text::trim_start(s).len(),
{
    let t = crate::text::trim_start(s);
    lemma_one_line_trim(s);
    lemma_one_line_word_len(t);
    if t.len() > 0 {
        let n = crate::wrap::word_len(t) as int;
        let rest = t.skip(n);
        assert(n > 0);
        lemma_one_line_trim(rest);
        lemma_one_line_words(rest);
        assert(in_one_line(t).skip(n) =~= in_one_line(rest));
    } else {
        assert(in_one_line(t) =~= t);
    }
}

proof fn lemma_one_line_wrapped(s: Seq<char>, width: nat, max_lines: nat)
    ensures
        wrapped(in_one_line(s), width, max_lines) == wrapped(s, width, max_lines),
{
    lemma_one_line_words(s);
}

/// What the texts of lines show of a longer one, of which so many lines of this width have room:
/// all that is visible of it, or a front of that and then dots, on every line there is.
pub open spec fn shows(lines: Seq<Seq<char>>, text: Seq<char>, width: nat, room: nat) -> bool {
    let shown = crate::wrap::visible(crate::wrap::flat(lines));
    if crate::wrap::visible(text).len() == 0 {
        lines == seq![seq!['-']]
    } else if crate::wrap::all_lines(text, width).len() <= room {
        shown == crate::wrap::visible(text)
    } else {
        &&& lines.len() == room
        &&& lines.last().len() >= 3
        &&& lines.last().skip(lines.last().len() - 3) == seq!['.', '.', '.']
        &&& shown.len() >= 3
        &&& crate::wrap::begins_with(crate::wrap::visible(text), shown.take(shown.len() - 3))
    }
}

proof fn lemma_shows(text: Seq<char>, width: nat, room: nat)
    requires
        width >= 3,
        room > 0,
    ensures
        shows(wrapped(in_one_line(text), width, room), text, width, room),
{
    lemma_one_line_wrapped(text, width, room);
    if crate::wrap::visible(text).len() > 0 {
        crate::wrap::wrapped_text_shows_all_or_a_front(text, width, room);
    } else {
        crate::wrap::words_hold_what_is_visible(text);
        let ws = crate::wrap::words(text);
        if ws.len() > 0 {
            assert(crate::wrap::one_word(ws[0]));
            assert(crate::wrap::flat(ws).len() >= ws[0].len());
        }
        assert(ws.len() == 0);
        assert(crate::wrap::all_lines(text, width).len() == 0);
    }
}

/// The card shows the text of a notification, and nothing else as its text: where its lines have
/// room below the title, all of its visible characters in order; where they do not, a front of them
/// and then dots. A notification without a text shows its title there. There is room for seven
/// lines, and for six below two lines of title and a handle.
pub proof fn card_shows_the_text(evt: NotificationView)
    ensures
        ({
            let handles: int = if evt.sender_handle.len() > 0 {
                1
            } else {
                0
            };
            let small = words_in(card(evt), Font::F6x10);
            let title_lines = words_in(card(evt), Font::F10x20).len();
            let room: nat = if title_lines == 2 && handles == 1 {
                6
            } else {
                7
            };
            &&& small.len() >= handles
            &&& evt.body.len() > 0 ==> shows(small.skip(handles), evt.body, 21, room)
            &&& evt.body.len() == 0 ==> shows(small.skip(handles), evt.title, 21, room)
            &&& forall|i: int|
                handles <= i < small.len() ==> 1 <= (#[trigger] small[i]).len() <= 21
        }),
{
    lemma_card_words_in(evt);
    let title = wrapped(card_title(evt), 12, 2);
    wrapped_text_fits(card_title(evt), 12, 2);
    let has_handle = evt.sender_handle.len() > 0;
    let room = body_lines(title.len(), has_handle);
    let body = wrapped(card_body(evt), 21, room);
    wrapped_text_fits(card_body(evt), 21, room);
    let small = words_in(card(evt), Font::F6x10);
    let handles: int = if has_handle {
        1
    } else {
        0
    };
    assert(small.skip(handles) =~= body);
    assert forall|i: int| handles <= i < small.len() implies 1 <= (#[trigger] small[i]).len()
        <= 21 by {
        assert(small[i] == body[i - handles]);
    }
    lemma_shows(evt.body, 21, room);
    lemma_shows(evt.title, 21, room);
}

/// The card shows the title of a notification, of one without a title who sent it, and of one
/// without either that it is someone: all of it on two lines at most, or a front and then dots.
pub proof fn card_shows_the_title(evt: NotificationView)
    ensures
        ({
            let title = words_in(card(evt), Font::F10x20);
            &&& 1 <= title.len() <= 2
            &&& evt.title.len() > 0 ==> shows(title, evt.title, 12, 2)
            &&& evt.title.len() == 0 && evt.sender_name.len() > 0 ==> shows(
                title,
                evt.sender_name,
                12,
                2,
            )
            &&& evt.title.len() == 0 && evt.sender_name.len() == 0 ==> title == seq!["Someone"@]
            &&& forall|i: int| 0 <= i < title.len() ==> 1 <= (#[trigger] title[i]).len() <= 12
        }),
{
    lemma_card_words_in(evt);
    wrapped_text_fits(card_title(evt), 12, 2);
    lemma_shows(evt.title, 12, 2);
    lemma_shows(evt.sender_name, 12, 2);
    reveal_strlit("Someone");
    let who = "Someone"@;
    assert(crate::wrap::one_word(who));
    crate::wrap::short_word_stands_alone(who, 12, 2);
}

/// The head of the card shows the application, and the line below the title the handle of the
/// sender, if there is one: as they are where they have room, else cut with dots.
pub proof fn card_shows_application_and_handle(evt: NotificationView)
    ensures
        ({
            let head = words_in(card(evt), Font::F8x13Bold);
            let small = words_in(card(evt), Font::F6x10);
            &&& head.len() == 1
            &&& evt.source_app.len() == 0 ==> head[0] == "Notification"@
            &&& 0 < evt.source_app.len() <= 24 ==> head[0] == evt.source_app
            &&& evt.source_app.len() > 24 ==> head[0] == evt.source_app.take(21) + seq![
                '.',
                '.',
                '.',
            ]
            &&& 0 < evt.sender_handle.len() <= 21 ==> small[0] == evt.sender_handle
            &&& evt.sender_handle.len() > 21 ==> small[0] == evt.sender_handle.take(18) + seq![
                '.',
                '.',
                '.',
            ]
        }),
{
    lemma_card_words_in(evt);
}

/// The kind of a card goes by the bundle, the icon and the application, in letters of any size:
/// it decides the picture and the colour, which the frame and the head share.
pub proof fn card_shows_its_kind(evt: NotificationView)
    ensures
        ({
            let bundle = lower(evt.source_bundle_id);
            let hint = lower(evt.app_icon_hint);
            let app = lower(evt.source_app);
            let ops = card(evt);
            let chat = contains(bundle, "whatsapp"@) || contains(hint, "whatsapp"@) || contains(
                app,
                "whatsapp"@,
            );
            let mail = contains(bundle, "outlook"@) || contains(bundle, "mail"@) || contains(
                hint,
                "mail"@,
            );
            let calendar = contains(bundle, "calendar"@) || contains(hint, "calendar"@);
            &&& ops.len() > 8
            &&& ops[0] == DrawView::Clear(Color { r: 0, g: 0, b: 0 })
            &&& ops[1] matches DrawView::Rect { x, y, width, height, stroke, fill }
            &&& stroke matches Some((color, thick))
            &&& ops[2] matches DrawView::Rect { fill: head_fill, .. }
            &&& head_fill == Some(color)
            &&& ops[1] == (DrawView::Rect { x: 10, y: 14, width: 220, height: 212, stroke, fill: None })
            &&& chat ==> {
                &&& ops.subrange(4, 9) == chat_icon(24, 68)
                &&& color == Color { r: 4, g: 28, b: 10 }
            }
            &&& !chat && mail ==> {
                &&& ops.subrange(4, 7) == mail_icon(24, 70)
                &&& color == Color { r: 2, g: 12, b: 28 }
            }
            &&& !chat && !mail && calendar ==> {
                &&& ops.subrange(4, 6) == calendar_icon(24, 66)
                &&& color == Color { r: 31, g: 0, b: 0 }
            }
            &&& !chat && !mail && !calendar ==> {
                &&& ops.subrange(4, 9) == system_icon(24, 68)
                &&& color == Color { r: 18, g: 10, b: 4 }
            }
        }),
{
    let kind = card_kind(evt);
    let frame = card_frame(kind);
    let icon = card_icon(kind);
    let ops = card(evt);
    let n = 4 + icon.len() as int;
    assert(ops.subrange(4, n) =~= icon);
    wrapped_text_fits(card_title(evt), 12, 2);
    let title = wrapped(card_title(evt), 12, 2);
    wrapped_text_fits(card_body(evt), 21, body_lines(title.len(), evt.sender_handle.len() > 0));
    assert(card_words(evt).len() >= 3);
}

/// The line on which a text stands.
pub open spec fn base_line(op: DrawView) -> int {
    match op {
        DrawView::Text { text, x, y, font, color } => y as int,
        _ => 0,
    }
}

/// The words on a card stand below each other in the order of reading: head, title, handle, text,
/// each at least eleven rows below the one before it.
pub proof fn words_stand_below_each_other(evt: NotificationView)
    ensures
        forall|i: int, j: int|
            0 <= i < j < card_words(evt).len() ==> base_line(#[trigger] card_words(evt)[i]) + 11
                <= base_line(#[trigger] card_words(evt)[j]),
        forall|i: int| 0 <= i < card_words(evt).len() ==> (#[trigger] card_words(evt)[i]) is Text,
{
    let title = wrapped(card_title(evt), 12, 2);
    let has_handle = evt.sender_handle.len() > 0;
    wrapped_text_fits(card_title(evt), 12, 2);
    let start = body_y(title.len(), has_handle);
    let room = body_lines(title.len(), has_handle);
    let body = wrapped(card_body(evt), 21, room);
    wrapped_text_fits(card_body(evt), 21, room);
    let t = text_block(title, 96, 20, Font::F10x20);
    let b = text_block(body, start, 11, Font::F6x10);
    let words = card_words(evt);
    let h: int = if has_handle {
        1
    } else {
        0
    };
    let n = 1 + t.len() + h;
    assert forall|i: int| 0 <= i < words.len() implies (#[trigger] words[i]) is Text && base_line(
        words[i],
    ) == (if i == 0 {
        36
    } else if i < 1 + t.len() {
        96 + 20 * (i - 1)
    } else if i < n {
        98 + 20 * (title.len() as int)
    } else {
        start + 11 * (i - n)
    }) by {
        if i == 0 {
        } else if i < 1 + t.len() {
            assert(words[i] == t[i - 1]);
        } else if i < n {
        } else {
            assert(words[i] == b[i - n]);
        }
    }
}

/// The pairing screen shows one number, and it is the code: six digits of it, with zeros in front
/// where it is smaller.
pub proof fn pairing_screen_shows_the_code(code: u32)
    ensures
        ({
            let shown = words_in(pairing_screen(code), Font::F10x20);
            &&& shown.len() == 1
            &&& crate::bluez::all_digits(shown[0])
            &&& crate::bluez::parsed_number(shown[0]) == Some(code)
            &&& shown[0].len() >= 6
            &&& code < 1_000_000 ==> shown[0].len() == 6
        }),
        words_in(pairing_screen(code), Font::F8x13Bold) == seq![
            "PAIRING MODE"@,
            "Use code:"@,
            "Waiting for BLE pair"@,
        ],
{
    let ops = pairing_screen(code);
    let number = zero_padded(code as nat, 6);
    crate::bluez::numbers_are_read_back(code, 6);
    let shown = seq![ops[0], ops[1], ops[2], ops[3]];
    let none = Seq::<Seq<char>>::empty();
    assert(ops =~= shown + seq![ops[4]] + seq![ops[5]]);
    let big = Font::F10x20;
    let bold = Font::F8x13Bold;
    lemma_no_words(shown, big);
    lemma_words_in_joined(shown + seq![ops[4]], seq![ops[5]], big);
    lemma_words_in_joined(shown, seq![ops[4]], big);
    lemma_no_words(seq![ops[5]], big);
    assert(seq![ops[4]].drop_last() =~= Seq::<DrawView>::empty());
    assert(words_in(Seq::<DrawView>::empty(), big) =~= none);
    assert(words_in(seq![ops[4]], big) =~= seq![number]);
    assert(words_in(ops, big) =~= seq![number]);
    let frame = seq![ops[0], ops[1]];
    assert(ops =~= frame + seq![ops[2]] + seq![ops[3]] + seq![ops[4]] + seq![ops[5]]);
    lemma_words_in_joined(
        frame + seq![ops[2]] + seq![ops[3]] + seq![ops[4]],
        seq![ops[5]],
        bold,
    );
    lemma_words_in_joined(frame + seq![ops[2]] + seq![ops[3]], seq![ops[4]], bold);
    lemma_words_in_joined(frame + seq![ops[2]], seq![ops[3]], bold);
    lemma_words_in_joined(frame, seq![ops[2]], bold);
    lemma_no_words(frame, bold);
    lemma_no_words(seq![ops[4]], bold);
    assert(seq![ops[2]].drop_last() =~= Seq::<DrawView>::empty());
    assert(seq![ops[3]].drop_last() =~= Seq::<DrawView>::empty());
    assert(seq![ops[5]].drop_last() =~= Seq::<DrawView>::empty());
    assert(words_in(Seq::<DrawView>::empty(), bold) =~= none);
    assert(words_in(ops, bold) =~= seq![
        "PAIRING MODE"@,
        "Use code:"@,
        "Waiting for BLE pair"@,
    ]);
    if code < 1_000_000 {
        lemma_six_digits(code as nat);
    }
}

proof fn lemma_six_digits(n: nat)
    requires
        n < 1_000_000,
    ensures
        crate::text::decimal(n).len() <= 6,
{
    reveal_with_fuel(crate::text::decimal, 6);
}

/// An envelope is a rectangle, and its flap is two lines from its upper corners to its middle.
pub proof fn envelope_has_its_flap(x: i32, y: i32)
    requires
        has_room(x, y, 52, 36),
    ensures
        ({
            let ops = mail_icon(x, y);
            &&& ops.len() == 3
            &&& ops[0] matches DrawView::Rect { x: left, y: top, width, height, stroke, fill }
            &&& ops[1] matches DrawView::Line { x1: a1, y1: b1, x2: a2, y2: b2, color: c1, .. }
            &&& ops[2] matches DrawView::Line { x1: d1, y1: e1, x2: d2, y2: e2, color: c2, .. }
            &&& left == x && top == y
            &&& a1 == left && b1 == top
            &&& d1 == left + width && e1 == top
            &&& a2 == d2 && b2 == e2
            &&& 2 * (a2 - left) == width && 2 * (b2 - top) == height
            &&& stroke matches Some((edge, thick))
            &&& c1 == edge && c2 == edge
            &&& fill is Some && fill != Some(edge)
        }),
{
}

/// A speech bubble is a rectangle with a tip of its own colour below its lower edge, and three dots
/// inside, in a row, evenly spaced and alike.
pub proof fn bubble_has_its_dots(x: i32, y: i32)
    requires
        has_room(x, y, 50, 45),
    ensures
        ({
            let ops = chat_icon(x, y);
            &&& ops.len() == 5
            &&& ops[0] matches DrawView::Rect { x: left, y: top, width, height, stroke, fill }
            &&& ops[1] matches DrawView::Triangle { x1, y1, x2, y2, x3, y3, color }
            &&& ops[2] matches DrawView::Circle { x: p1, y: q1, diameter: d1, fill: f1, .. }
            &&& ops[3] matches DrawView::Circle { x: p2, y: q2, diameter: d2, fill: f2, .. }
            &&& ops[4] matches DrawView::Circle { x: p3, y: q3, diameter: d3, fill: f3, .. }
            &&& left == x && top == y
            &&& fill == Some(color)
            &&& y1 == top + height && y2 == top + height && y3 > top + height
            &&& left < x1 < x3 < x2 < left + width
            &&& q1 == q2 == q3 && d1 == d2 == d3 && f1 == f2 && f2 == f3
            &&& p2 - p1 == p3 - p2
            &&& left < p1 && p1 + d1 < p2 && p2 + d2 < p3 && p3 + d3 < left + width
            &&& top < q1 && q1 + d1 < top + height
        }),
{
}

/// A calendar sheet is a rectangle with a red strip along the whole of its upper edge.
pub proof fn sheet_has_its_strip(x: i32, y: i32)
    ensures
        ({
            let ops = calendar_icon(x, y);
            &&& ops.len() == 2
            &&& ops[0] matches DrawView::Rect { x: left, y: top, width, height, .. }
            &&& ops[1] matches DrawView::Rect { x: a, y: b, width: w, height: h, stroke, fill }
            &&& left == x && top == y
            &&& a == left && b == top && w == width && h < height
            &&& stroke is None
            &&& fill == Some(Color { r: 31, g: 0, b: 0 })
        }),
{
}

/// The disk for everything else has four upright bars inside the square around it, evenly spaced
/// and alike.
pub proof fn disk_has_its_bars(x: i32, y: i32)
    requires
        has_room(x, y, 44, 44),
    ensures
        ({
            let ops = system_icon(x, y);
            &&& ops.len() == 5
            &&& ops[0] matches DrawView::Circle { x: left, y: top, diameter, .. }
            &&& left == x && top == y
            &&& ops[1] matches DrawView::Line { x1: a1, y1: s1, x2: b1, y2: t1, color: c1, width: w1 }
            &&& ops[2] matches DrawView::Line { x1: a2, y1: s2, x2: b2, y2: t2, color: c2, width: w2 }
            &&& ops[3] matches DrawView::Line { x1: a3, y1: s3, x2: b3, y2: t3, color: c3, width: w3 }
            &&& ops[4] matches DrawView::Line { x1: a4, y1: s4, x2: b4, y2: t4, color: c4, width: w4 }
            &&& a1 == b1 && a2 == b2 && a3 == b3 && a4 == b4
            &&& a2 - a1 == 12 && a3 - a2 == 12 && a4 - a3 == 12
            &&& s1 == s2 == s3 == s4 && t1 == t2 == t3 == t4
            &&& c1 == c2 && c2 == c3 && c3 == c4 && w1 == w2 == w3 == w4
            &&& a1 - left == left + diameter - a4
            &&& s1 - top == top + diameter - t1
            &&& left < a1 && top < s1 < t1
        }),
{
}

} // verus!

//! Pairing on Linux: the one prompt that waits for the user, what the pairing agent replies, and
//! the dialog. Times are nanoseconds of a clock that does not go back.

use vstd::prelude::*;
use crate::text::{chars_of, decimal, lower, lower_chars, same_chars, text_of, trim, trim_chars};
use crate::text::zero_padded;

verus! {

/// How long the user has to answer.
pub const PAIRING_INPUT_NANOS: u64 = 120_000_000_000;

/// What the user is asked for.
#[derive(Clone, Copy, Debug, PartialEq, Eq, Structural)]
pub enum PromptKind {
    PinCode,
    Passkey,
    Confirmation { passkey: u32 },
}

/// A question to the user.
#[derive(Clone, Debug, PartialEq, Eq)]
pub struct PairingPrompt {
    pub id: u64,
    pub device: String,
    pub kind: PromptKind,
}

/// The user's answer.
#[derive(Clone, Debug, PartialEq, Eq)]
pub enum PairingResponse {
    PinCode(String),
    Passkey(u32),
    Confirmation(bool),
    Cancelled,
}

/// A question to the user, as seen by the contracts.
#[verifier::ext_equal]
pub struct PromptView {
    pub id: u64,
    pub device: Seq<char>,
    pub kind: PromptKind,
}

/// The user's answer, as seen by the contracts.
#[verifier::ext_equal]
pub enum ResponseView {
    PinCode(Seq<char>),
    Passkey(u32),
    Confirmation(bool),
    Cancelled,
}

impl View for PairingPrompt {
    type V = PromptView;

    open spec fn view(&self) -> PromptView {
        PromptView { id: self.id, device: self.device@, kind: self.kind }
    }
}

impl View for PairingResponse {
    type V = ResponseView;

    open spec fn view(&self) -> ResponseView {
        match *self {
            PairingResponse::PinCode(pin) => ResponseView::PinCode(pin@),
            PairingResponse::Passkey(n) => ResponseView::Passkey(n),
            PairingResponse::Confirmation(yes) => ResponseView::Confirmation(yes),
            PairingResponse::Cancelled => ResponseView::Cancelled,
        }
    }
}

/// The question that waits, and the answer to it.
pub struct PairingState {
    pub pending: Option<PairingPrompt>,
    pub response: Option<PairingResponse>,
    pub next_id: u64,
}

/// The question that waits and the answer to it, as seen by the contracts.
#[verifier::ext_equal]
pub struct PairingView {
    pub pending: Option<PromptView>,
    pub response: Option<ResponseView>,
    pub next_id: u64,
}

impl View for PairingState {
    type V = PairingView;

    open spec fn view(&self) -> PairingView {
        PairingView {
            pending: match self.pending {
                Some(p) => Some(p@),
                None => None,
            },
            response: match self.response {
                Some(r) => Some(r@),
                None => None,
            },
            next_id: self.next_id,
        }
    }
}

/// What asking for the answer comes to.
#[derive(Clone, Debug, PartialEq, Eq)]
pub enum PairingPoll {
    Answered(PairingResponse),
    TimedOut,
    /// Nothing yet; look again after so long at the latest.
    Wait(u64),
}

/// What asking for the answer comes to, as seen by the contracts.
#[verifier::ext_equal]
pub enum PollView {
    Answered(ResponseView),
    TimedOut,
    Wait(u64),
}

impl View for PairingPoll {
    type V = PollView;

    open spec fn view(&self) -> PollView {
        match *self {
            PairingPoll::Answered(r) => PollView::Answered(r@),
            PairingPoll::TimedOut => PollView::TimedOut,
            PairingPoll::Wait(n) => PollView::Wait(n),
        }
    }
}

impl PairingView {
    /// An answer waits only where a question does.
    pub open spec fn wf(self) -> bool {
        self.response is Some ==> self.pending is Some
    }

    /// The state once a question was asked; unchanged while another one waits.
    pub open spec fn asked(self, device: Seq<char>, kind: PromptKind) -> PairingView {
        match self.pending {
            Some(_) => self,
            None => PairingView {
                pending: Some(PromptView { id: self.next_id, device, kind }),
                response: None,
                next_id: if self.next_id == u64::MAX {
                    u64::MAX
                } else {
                    (self.next_id + 1) as u64
                },
            },
        }
    }

    /// The state once an answer was given; unchanged where nothing was asked.
    pub open spec fn given(self, response: ResponseView) -> PairingView {
        match self.pending {
            Some(_) => PairingView { response: Some(response), ..self },
            None => self,
        }
    }

    /// What asking for the answer comes to, and the state then.
    pub open spec fn polled(self, now: u64, deadline: u64) -> (PairingView, PollView) {
        match self.response {
            Some(r) => (
                PairingView { pending: None, response: None, ..self },
                PollView::Answered(r),
            ),
            None => if now >= deadline {
                (PairingView { pending: None, ..self }, PollView::TimedOut)
            } else {
                (self, PollView::Wait((deadline - now) as u64))
            },
        }
    }
}

impl PairingState {
    /// Nothing was asked yet.
    pub fn new() -> (r: Self)
        ensures
            r@.wf(),
            r@ == (PairingView { pending: None, response: None, next_id: 1 }),
    {
        PairingState { pending: None, response: None, next_id: 1 }
    }

    /// Asks the user, unless another question waits; says whether it did.
    pub fn ask(&mut self, device: String, kind: PromptKind) -> (r: bool)
        requires
            old(self)@.wf(),
        ensures
            final(self)@.wf(),
            r == (old(self)@.pending is None),
            final(self)@ == old(self)@.asked(device@, kind),
    {
        if self.pending.is_some() {
            return false;
        }
        self.pending = Some(PairingPrompt { id: self.next_id, device, kind });
        self.next_id = self.next_id.saturating_add(1);
        self.response = None;
        true
    }

    /// The question that waits.
    pub fn current_prompt(&self) -> (r: Option<PairingPrompt>)
        ensures
            match r {
                Some(p) => self@.pending == Some(p@),
                None => self@.pending is None,
            },
    {
        match &self.pending {
            Some(p) => Some(PairingPrompt { id: p.id, device: p.device.clone(), kind: p.kind }),
            None => None,
        }
    }

    /// Gives the user's answer.
    pub fn submit_response(&mut self, response: PairingResponse) -> (r: Result<(), &'static str>)
        requires
            old(self)@.wf(),
        ensures
            final(self)@.wf(),
            final(self)@ == old(self)@.given(response@),
            match r {
                Ok(_) => old(self)@.pending is Some,
                Err(text) => old(self)@.pending is None && text@
                    == "no pending BlueZ pairing prompt"@,
            },
    {
        if self.pending.is_none() {
            return Err("no pending BlueZ pairing prompt");
        }
        self.response = Some(response);
        Ok(())
    }

    /// Asks for the answer. An answer, or the end of the time for it, frees the place for the
    /// next question.
    pub fn poll(&mut self, now: u64, deadline: u64) -> (r: PairingPoll)
        requires
            old(self)@.wf(),
        ensures
            final(self)@.wf(),
            (final(self)@, r@) == old(self)@.polled(now, deadline),
    {
        match self.response.take() {
            Some(response) => {
                self.pending = None;
                PairingPoll::Answered(response)
            },
            None => {
                if now >= deadline {
                    self.pending = None;
                    PairingPoll::TimedOut
                } else {
                    PairingPoll::Wait(deadline - now)
                }
            },
        }
    }
}

/// The answer that is given reaches who asked, and the place is free again.
pub proof fn answer_reaches_who_asked(
    s: PairingView,
    device: Seq<char>,
    kind: PromptKind,
    response: ResponseView,
    now: u64,
    deadline: u64,
)
    requires
        s.wf(),
        s.pending is None,
    ensures
        ({
            let (after, poll) = s.asked(device, kind).given(response).polled(now, deadline);
            &&& poll == PollView::Answered(response)
            &&& after.pending is None
            &&& after.response is None
        }),
{
}

/// Questions are told apart: two that follow each other have different numbers, until the
/// numbers run out.
pub proof fn questions_are_told_apart(
    s: PairingView,
    device: Seq<char>,
    kind: PromptKind,
    now: u64,
    deadline: u64,
)
    requires
        s.wf(),
        s.pending is None,
        s.next_id < u64::MAX,
    ensures
        ({
            let first = s.asked(device, kind);
            &&& first.pending matches Some(p)
            &&& p.id == s.next_id
            &&& first.next_id > p.id
            &&& first.polled(now, deadline).0.next_id == first.next_id
        }),
{
}

/// What a request for the user's input came to: an answer, or the words for why there is none.
pub open spec fn input_view(r: Result<PairingResponse, String>) -> Result<ResponseView, Seq<char>> {
    match r {
        Ok(a) => Ok(a@),
        Err(e) => Err(e@),
    }
}

/// What the agent replies to a request for a PIN.
pub open spec fn pin_reply_to(input: Result<ResponseView, Seq<char>>) -> Result<
    Seq<char>,
    Seq<char>,
> {
    match input {
        Ok(ResponseView::PinCode(pin)) => if pin.len() > 0 {
            Ok(pin)
        } else {
            Err("pairing PIN rejected"@)
        },
        Ok(_) => Err("pairing PIN rejected"@),
        Err(e) => Err(e),
    }
}

/// What the agent replies to a request for a PIN.
pub fn pin_reply(input: Result<PairingResponse, String>) -> (r: Result<String, String>)
    ensures
        match r {
            Ok(pin) => pin_reply_to(input_view(input)) == Ok::<Seq<char>, Seq<char>>(pin@),
            Err(e) => pin_reply_to(input_view(input)) == Err::<Seq<char>, Seq<char>>(e@),
        },
{
    match input {
        Ok(PairingResponse::PinCode(pin)) => {
            if !pin.as_str().is_empty() {
                Ok(pin)
            } else {
                Err("pairing PIN rejected".to_string())
            }
        },
        Ok(_) => Err("pairing PIN rejected".to_string()),
        Err(e) => Err(e),
    }
}

/// What the agent replies to a request for a passkey.
pub open spec fn passkey_reply_to(input: Result<ResponseView, Seq<char>>) -> Result<u32, Seq<char>> {
    match input {
        Ok(ResponseView::Passkey(n)) => Ok(n),
        Ok(_) => Err("pairing passkey rejected"@),
        Err(e) => Err(e),
    }
}

/// What the agent replies to a request for a passkey.
pub fn passkey_reply(input: Result<PairingResponse, String>) -> (r: Result<u32, String>)
    ensures
        match r {
            Ok(n) => passkey_reply_to(input_view(input)) == Ok::<u32, Seq<char>>(n),
            Err(e) => passkey_reply_to(input_view(input)) == Err::<u32, Seq<char>>(e@),
        },
{
    match input {
        Ok(PairingResponse::Passkey(n)) => Ok(n),
        Ok(_) => Err("pairing passkey rejected".to_string()),
        Err(e) => Err(e),
    }
}

/// What the agent replies to a request to confirm.
pub open spec fn confirmation_reply_to(input: Result<ResponseView, Seq<char>>) -> Result<
    (),
    Seq<char>,
> {
    match input {
        Ok(ResponseView::Confirmation(true)) => Ok(()),
        Ok(_) => Err("pairing confirmation rejected"@),
        Err(e) => Err(e),
    }
}

/// What the agent replies to a request to confirm.
pub fn confirmation_reply(input: Result<PairingResponse, String>) -> (r: Result<(), String>)
    ensures
        match r {
            Ok(_) => confirmation_reply_to(input_view(input)) == Ok::<(), Seq<char>>(()),
            Err(e) => confirmation_reply_to(input_view(input)) == Err::<(), Seq<char>>(e@),
        },
{
    match input {
        Ok(PairingResponse::Confirmation(true)) => Ok(()),
        Ok(_) => Err("pairing confirmation rejected".to_string()),
        Err(e) => Err(e),
    }
}

/// The address of one object of the Bluetooth service.
pub enum DeviceAddress {
    /// The object is no device, or has no address.
    Missing,
    /// The address could not be read.
    Unreadable,
    Is(String),
}

/// One object of the Bluetooth service.
pub struct BluezObject {
    pub path: String,
    pub address: DeviceAddress,
}

/// The address of one object, as seen by the contracts.
#[verifier::ext_equal]
pub enum AddressView {
    Missing,
    Unreadable,
    Is(Seq<char>),
}

impl View for BluezObject {
    type V = (Seq<char>, AddressView);

    open spec fn view(&self) -> (Seq<char>, AddressView) {
        (
            self.path@,
            match self.address {
                DeviceAddress::Missing => AddressView::Missing,
                DeviceAddress::Unreadable => AddressView::Unreadable,
                DeviceAddress::Is(a) => AddressView::Is(a@),
            },
        )
    }
}

/// The objects of a list, as seen by the contracts.
pub open spec fn objects_view(v: Seq<BluezObject>) -> Seq<(Seq<char>, AddressView)> {
    v.map_values(|o: BluezObject| o@)
}

/// The path of the first device with an address, whatever the case of its letters; the words for
/// it where there is none, or where an address before it cannot be read.
pub open spec fn path_for(objects: Seq<(Seq<char>, AddressView)>, address: Seq<char>) -> Result<
    Seq<char>,
    Seq<char>,
>
    decreases objects.len(),
{
    if objects.len() == 0 {
        Err("BlueZ device "@ + address + " not found"@)
    } else {
        match objects[0].1 {
            AddressView::Unreadable => Err("failed to decode BlueZ device address"@),
            AddressView::Is(a) => if lower(a) == lower(address) {
                Ok(objects[0].0)
            } else {
                path_for(objects.drop_first(), address)
            },
            AddressView::Missing => path_for(objects.drop_first(), address),
        }
    }
}

/// The path of the device with an address, among the objects in the order in which they come.
pub fn device_path_for_address(objects: &Vec<BluezObject>, address: &str) -> (r: Result<
    String,
    String,
>)
    ensures
        match r {
            Ok(path) => path_for(objects_view(objects@), address@) == Ok::<Seq<char>, Seq<char>>(
                path@,
            ),
            Err(e) => path_for(objects_view(objects@), address@) == Err::<Seq<char>, Seq<char>>(e@),
        },
{
    let wanted = lower_chars(address);
    let ghost all = objects_view(objects@);
    let mut i: usize = 0;
    assert(all.skip(0) =~= all);
    while i < objects.len()
        invariant
            i <= objects@.len(),
            all == objects_view(objects@),
            wanted@ == lower(address@),
            path_for(all, address@) == path_for(all.skip(i as int), address@),
        decreases objects@.len() - i,
    {
        assert(all.skip(i as int)[0] == objects@[i as int]@);
        assert(all.skip(i as int).drop_first() =~= all.skip(i + 1));
        match &objects[i].address {
            DeviceAddress::Unreadable => {
                return Err("failed to decode BlueZ device address".to_string());
            },
            DeviceAddress::Is(a) => {
                let own = lower_chars(a.as_str());
                if same_chars(own.as_slice(), wanted.as_slice()) {
                    return Ok(objects[i].path.clone());
                }
            },
            DeviceAddress::Missing => {},
        }
        i = i + 1;
    }
    let mut text = "BlueZ device ".to_string();
    text.append(address);
    text.append(" not found");
    Err(text)
}

/// A step on the way to a device that is paired and trusted.
#[derive(Clone, Copy, Debug, PartialEq, Eq, Structural)]
pub enum TrustStep {
    StartAgent,
    Pair,
    Trust,
}

/// The steps by which a device becomes paired and trusted.
pub fn trust_steps(already_paired: bool) -> (r: Vec<TrustStep>)
    ensures
        r@ == if already_paired {
            seq![TrustStep::Trust]
        } else {
            seq![TrustStep::StartAgent, TrustStep::Pair, TrustStep::Trust]
        },
{
    let mut r: Vec<TrustStep> = Vec::new();
    if !already_paired {
        r.push(TrustStep::StartAgent);
        r.push(TrustStep::Pair);
    }
    r.push(TrustStep::Trust);
    assert(r@ =~= if already_paired {
        seq![TrustStep::Trust]
    } else {
        seq![TrustStep::StartAgent, TrustStep::Pair, TrustStep::Trust]
    });
    r
}

pub open spec fn is_digit(c: char) -> bool {
    '0' <= c <= '9'
}

/// The number that decimal digits make.
pub open spec fn digits_value(s: Seq<char>) -> nat
    decreases s.len(),
{
    if s.len() == 0 {
        0
    } else {
        10 * digits_value(s.drop_last()) + (s.last() as int - '0' as int) as nat
    }
}

/// A text without a plus sign in front.
pub open spec fn without_plus(s: Seq<char>) -> Seq<char> {
    if s.len() > 0 && s[0] == '+' {
        s.skip(1)
    } else {
        s
    }
}

pub open spec fn all_digits(s: Seq<char>) -> bool {
    forall|i: int| 0 <= i < s.len() ==> is_digit(#[trigger] s[i])
}

/// The number that a text stands for: decimal digits, perhaps behind a plus sign, of a number
/// below 2 to the power of 32.
pub open spec fn parsed_number(s: Seq<char>) -> Option<u32> {
    let d = without_plus(s);
    if d.len() > 0 && all_digits(d) && digits_value(d) <= u32::MAX {
        Some(digits_value(d) as u32)
    } else {
        None
    }
}

proof fn lemma_digits_grow(s: Seq<char>, i: int)
    requires
        0 <= i <= s.len(),
    ensures
        digits_value(s.take(i)) <= digits_value(s),
    decreases s.len() - i,
{
    if i == s.len() {
        assert(s.take(i) =~= s);
    } else {
        assert(s.take(i + 1).drop_last() =~= s.take(i));
        lemma_digits_grow(s, i + 1);
    }
}

/// Reads a number.
pub fn parse_number(s: &[char]) -> (r: Option<u32>)
    ensures
        r == parsed_number(s@),
{
    let end: usize = s.len();
    let from: usize = if end > 0 && s[0] == '+' {
        1
    } else {
        0
    };
    let ghost d = without_plus(s@);
    assert(d =~= s@.skip(from as int));
    if from == end {
        return None;
    }
    let mut value: u64 = 0;
    let mut i: usize = from;
    while i < end
        invariant
            end == s@.len(),
            from <= i <= end,
            from <= 1,
            d == without_plus(s@),
            d == s@.skip(from as int),
            value <= u32::MAX,
            value == digits_value(d.take(i - from)),
            forall|j: int| 0 <= j < i - from ==> is_digit(#[trigger] d[j]),
        decreases end - i,
    {
        let c = s[i];
        assert(d[i - from] == c);
        if c < '0' || c > '9' {
            return None;
        }
        let digit: u64 = (c as u8 - 48u8) as u64;
        value = 10 * value + digit;
        assert(d.take(i - from + 1).drop_last() =~= d.take(i - from));
        assert(value == digits_value(d.take(i - from + 1)));
        if value > u32::MAX as u64 {
            proof {
                lemma_digits_grow(d, i - from + 1);
            }
            return None;
        }
        i = i + 1;
    }
    assert(d.take(i - from) =~= d);
    Some(value as u32)
}

/// What the pairing dialog knows between two frames.
pub struct PairingDialog {
    pub seen_id: Option<u64>,
    pub pin_input: String,
    pub passkey_input: String,
}

impl PairingDialog {
    /// A dialog that has seen no question.
    pub fn new() -> (r: Self)
        ensures
            r.seen_id is None,
            r.pin_input@.len() == 0,
            r.passkey_input@.len() == 0,
    {
        PairingDialog { seen_id: None, pin_input: String::new(), passkey_input: String::new() }
    }

    /// Takes note of the question that waits. Says whether it is a new one, for which the window
    /// comes to the front and the input starts out empty.
    pub fn on_prompt(&mut self, prompt_id: Option<u64>) -> (r: bool)
        ensures
            final(self).seen_id == prompt_id,
            r == (prompt_id is Some && prompt_id != old(self).seen_id),
            if r {
                final(self).pin_input@.len() == 0 && final(self).passkey_input@.len() == 0
            } else {
                final(self).pin_input@ == old(self).pin_input@ && final(self).passkey_input@
                    == old(self).passkey_input@
            },
    {
        match prompt_id {
            None => {
                self.seen_id = None;
                false
            },
            Some(id) => {
                let seen = match self.seen_id {
                    Some(s) => s == id,
                    None => false,
                };
                if seen {
                    return false;
                }
                self.seen_id = Some(id);
                self.pin_input = String::new();
                self.passkey_input = String::new();
                true
            },
        }
    }
}

/// The PIN that an input stands for, if it is one: not empty without the white space around it.
pub fn pin_from_input(input: &str) -> (r: Option<String>)
    ensures
        match r {
            Some(pin) => pin@ == trim(input@) && pin@.len() > 0,
            None => trim(input@).len() == 0,
        },
{
    let chars = chars_of(input);
    let trimmed = trim_chars(chars.as_slice());
    if trimmed.len() == 0 {
        None
    } else {
        Some(text_of(trimmed.as_slice()))
    }
}

/// The passkey that an input stands for, if it is one, and whether to say that it has to be a
/// number.
pub fn passkey_from_input(input: &str) -> (r: (Option<u32>, bool))
    ensures
        r.0 == parsed_number(trim(input@)),
        r.1 == (trim(input@).len() > 0 && r.0 is None),
{
    let chars = chars_of(input);
    let trimmed = trim_chars(chars.as_slice());
    let number = parse_number(trimmed.as_slice());
    let hint = trimmed.len() > 0 && number.is_none();
    (number, hint)
}

/// What the two buttons under a question answer, for the inputs as they stand: the accepting one,
/// which cannot be pressed while the input is no answer, and the rejecting one.
pub open spec fn answers_to(kind: PromptKind, pin: Seq<char>, passkey: Seq<char>) -> (
    Option<ResponseView>,
    ResponseView,
) {
    match kind {
        PromptKind::PinCode => (
            if trim(pin).len() > 0 {
                Some(ResponseView::PinCode(trim(pin)))
            } else {
                None
            },
            ResponseView::Cancelled,
        ),
        PromptKind::Passkey => (
            match parsed_number(trim(passkey)) {
                Some(n) => Some(ResponseView::Passkey(n)),
                None => None,
            },
            ResponseView::Cancelled,
        ),
        PromptKind::Confirmation { .. } => (
            Some(ResponseView::Confirmation(true)),
            ResponseView::Confirmation(false),
        ),
    }
}

/// What the two buttons under a question answer, for the inputs as they stand.
pub fn answers(kind: PromptKind, pin: &str, passkey: &str) -> (r: (
    Option<PairingResponse>,
    PairingResponse,
))
    ensures
        match r.0 {
            Some(accept) => answers_to(kind, pin@, passkey@).0 == Some(accept@),
            None => answers_to(kind, pin@, passkey@).0 is None,
        },
        r.1@ == answers_to(kind, pin@, passkey@).1,
{
    match kind {
        PromptKind::PinCode => {
            let accept = match pin_from_input(pin) {
                Some(text) => Some(PairingResponse::PinCode(text)),
                None => None,
            };
            (accept, PairingResponse::Cancelled)
        },
        PromptKind::Passkey => {
            let accept = match passkey_from_input(passkey).0 {
                Some(n) => Some(PairingResponse::Passkey(n)),
                None => None,
            };
            (accept, PairingResponse::Cancelled)
        },
        PromptKind::Confirmation { .. } => (
            Some(PairingResponse::Confirmation(true)),
            PairingResponse::Confirmation(false),
        ),
    }
}

proof fn lemma_decimal_value(n: nat)
    ensures
        decimal(n).len() > 0,
        all_digits(decimal(n)),
        digits_value(decimal(n)) == n,
    decreases n,
{
    let d = decimal(n);
    if n < 10 {
        assert(d.drop_last() =~= Seq::<char>::empty());
        assert(digits_value(d.drop_last()) == 0);
        assert(d.last() as int == 48 + n);
    } else {
        lemma_decimal_value(n / 10);
        assert(d.drop_last() =~= decimal(n / 10));
        assert(d.last() as int == 48 + n % 10);
        assert forall|i: int| 0 <= i < d.len() implies is_digit(#[trigger] d[i]) by {
            if i < d.len() - 1 {
                assert(d[i] == decimal(n / 10)[i]);
            }
        }
    }
}

proof fn lemma_zeros_in_front(zeros: Seq<char>, d: Seq<char>)
    requires
        forall|i: int| 0 <= i < zeros.len() ==> (#[trigger] zeros[i]) == '0',
    ensures
        digits_value(zeros + d) == digits_value(d),
    decreases zeros.len() + d.len(),
{
    let all = zeros + d;
    if d.len() > 0 {
        assert(all.drop_last() =~= zeros + d.drop_last());
        lemma_zeros_in_front(zeros, d.drop_last());
    } else if zeros.len() > 0 {
        let less = zeros.drop_last();
        assert(all.drop_last() =~= less + d);
        assert forall|i: int| 0 <= i < less.len() implies (#[trigger] less[i]) == '0' by {
            assert(less[i] == zeros[i]);
        }
        lemma_zeros_in_front(less, d);
        assert(all.last() == zeros[zeros.len() - 1]);
    }
}

/// A number that is written down is read back, with zeros in front or without, and a plus sign
/// before it makes no difference.
pub proof fn numbers_are_read_back(n: u32, width: nat)
    ensures
        parsed_number(decimal(n as nat)) == Some(n),
        parsed_number(zero_padded(n as nat, width)) == Some(n),
        parsed_number(seq!['+'] + zero_padded(n as nat, width)) == Some(n),
        zero_padded(n as nat, width).len() >= width,
        zero_padded(n as nat, width).len() > width ==> zero_padded(n as nat, width) == decimal(
            n as nat,
        ),
        all_digits(zero_padded(n as nat, width)),
{
    let d = decimal(n as nat);
    let z = zero_padded(n as nat, width);
    lemma_decimal_value(n as nat);
    if d.len() < width {
        let zeros = Seq::new((width - d.len()) as nat, |i: int| '0');
        lemma_zeros_in_front(zeros, d);
        assert(z == zeros + d);
        assert forall|i: int| 0 <= i < z.len() implies is_digit(#[trigger] z[i]) by {
            if i >= zeros.len() {
                assert(z[i] == d[i - zeros.len()]);
            }
        }
    }
    assert(all_digits(z) && digits_value(z) == n);
    assert(is_digit(d[0]) && is_digit(z[0]));
    assert((seq!['+'] + z).skip(1) =~= z);
}

/// A question is asked as it was put, of the device it is about, unless one waits already: then
/// that one stays, with its answer, and the new one is not asked.
pub proof fn waiting_question_stays(s: PairingView, device: Seq<char>, kind: PromptKind)
    requires
        s.wf(),
    ensures
        s.pending is Some ==> s.asked(device, kind) == s,
        s.pending is None ==> {
            let after = s.asked(device, kind);
            &&& after.pending matches Some(p)
            &&& p.device == device
            &&& p.kind == kind
            &&& after.response is None
        },
{
}

/// The last answer counts; one that is given where nothing was asked does nothing.
pub proof fn last_answer_counts(
    s: PairingView,
    first: ResponseView,
    second: ResponseView,
    now: u64,
    deadline: u64,
)
    requires
        s.wf(),
    ensures
        s.pending is Some ==> s.given(first).given(second).polled(now, deadline).1
            == PollView::Answered(second),
        s.pending is None ==> s.given(first) == s,
{
}

/// Without an answer the question waits until the time is over, no longer and no shorter, and then
/// makes room for the next one.
pub proof fn question_waits_until_the_deadline(s: PairingView, now: u64, deadline: u64)
    requires
        s.wf(),
        s.response is None,
    ensures
        ({
            let (after, poll) = s.polled(now, deadline);
            if now < deadline {
                &&& after == s
                &&& poll matches PollView::Wait(left)
                &&& now + left == deadline
            } else {
                &&& poll == PollView::TimedOut
                &&& after.pending is None
                &&& after.response is None
                &&& after.next_id == s.next_id
            }
        }),
{
}

/// The agent replies what the user answered, if it is an answer to what was asked, and refuses
/// otherwise; why there is no answer is passed on word for word.
pub proof fn agent_passes_on_the_answer(answer: ResponseView, why: Seq<char>)
    ensures
        pin_reply_to(Ok(answer)) matches Ok(pin) ==> answer == ResponseView::PinCode(pin) && pin.len()
            > 0,
        passkey_reply_to(Ok(answer)) matches Ok(n) ==> answer == ResponseView::Passkey(n),
        confirmation_reply_to(Ok(answer)) is Ok ==> answer == ResponseView::Confirmation(true),
        answer matches ResponseView::PinCode(pin) ==> pin.len() > 0 ==> pin_reply_to(Ok(answer))
            == Ok::<Seq<char>, Seq<char>>(pin),
        answer matches ResponseView::Passkey(n) ==> passkey_reply_to(Ok(answer)) == Ok::<
            u32,
            Seq<char>,
        >(n),
        answer == ResponseView::Confirmation(true) ==> confirmation_reply_to(Ok(answer)) is Ok,
        pin_reply_to(Err(why)) == Err::<Seq<char>, Seq<char>>(why),
        passkey_reply_to(Err(why)) == Err::<u32, Seq<char>>(why),
        confirmation_reply_to(Err(why)) == Err::<(), Seq<char>>(why),
{
}

/// The dialog's accepting button makes the agent reply what was typed in, without the white space
/// around it, and its rejecting button makes it refuse; it can be pressed exactly where something
/// was typed in that is an answer.
pub proof fn typed_answer_is_replied(pin: Seq<char>, passkey: Seq<char>, shown: u32, n: u32)
    ensures
        ({
            let (accept, reject) = answers_to(PromptKind::PinCode, pin, passkey);
            &&& accept is Some <==> trim(pin).len() > 0
            &&& accept matches Some(a) ==> pin_reply_to(Ok(a)) == Ok::<Seq<char>, Seq<char>>(
                trim(pin),
            )
            &&& pin_reply_to(Ok(reject)) is Err
        }),
        ({
            let (accept, reject) = answers_to(PromptKind::Passkey, pin, passkey);
            &&& trim(passkey) == decimal(n as nat) || trim(passkey) == zero_padded(n as nat, 6) ==> (
            accept matches Some(a) && passkey_reply_to(Ok(a)) == Ok::<u32, Seq<char>>(n))
            &&& trim(passkey).len() == 0 ==> accept is None
            &&& passkey_reply_to(Ok(reject)) is Err
        }),
        ({
            let (accept, reject) = answers_to(
                PromptKind::Confirmation { passkey: shown },
                pin,
                passkey,
            );
            &&& accept matches Some(a)
            &&& confirmation_reply_to(Ok(a)) is Ok
            &&& confirmation_reply_to(Ok(reject)) is Err
        }),
{
    numbers_are_read_back(n, 6);
}

/// A text is read as a number only if it is one: digits, one at least, perhaps behind a plus sign,
/// and each digit counts ten times the one behind it.
pub proof fn only_numbers_are_read(s: Seq<char>, c: char)
    ensures
        parsed_number(s) is Some ==> {
            let d = if s.len() > 0 && s[0] == '+' {
                s.skip(1)
            } else {
                s
            };
            &&& d.len() > 0
            &&& forall|i: int| 0 <= i < d.len() ==> '0' <= (#[trigger] d[i]) <= '9'
        },
        s.len() > 0 && parsed_number(s) is Some && '0' <= c <= '9' ==> {
            let value = 10 * (parsed_number(s)->0 as int) + (c as int - '0' as int);
            parsed_number(s.push(c)) == if value <= u32::MAX {
                Some(value as u32)
            } else {
                None
            }
        },
{
    let d = without_plus(s);
    if s.len() > 0 && parsed_number(s) is Some && '0' <= c <= '9' {
        let longer = without_plus(s.push(c));
        assert(longer =~= d.push(c));
        assert(longer.drop_last() =~= d);
        assert forall|i: int| 0 <= i < longer.len() implies is_digit(#[trigger] longer[i]) by {
            if i < d.len() {
                assert(longer[i] == d[i]);
            }
        }
    }
}

/// A device is found by its address in letters of any size: the first one with it, as long as no
/// address before it cannot be read.
pub proof fn device_is_found_by_its_address(
    objects: Seq<(Seq<char>, AddressView)>,
    address: Seq<char>,
    i: int,
)
    requires
        0 <= i <= objects.len(),
        forall|j: int|
            0 <= j < i ==> match (#[trigger] objects[j]).1 {
                AddressView::Missing => true,
                AddressView::Unreadable => false,
                AddressView::Is(a) => lower(a) != lower(address),
            },
    ensures
        path_for(objects, address) == if i == objects.len() {
            Err("BlueZ device "@ + address + " not found"@)
        } else {
            match objects[i].1 {
                AddressView::Missing => path_for(objects, address),
                AddressView::Unreadable => Err("failed to decode BlueZ device address"@),
                AddressView::Is(a) => if lower(a) == lower(address) {
                    Ok(objects[i].0)
                } else {
                    path_for(objects, address)
                },
            }
        },
    decreases i,
{
    if i > 0 {
        let rest = objects.drop_first();
        assert forall|j: int| 0 <= j < i - 1 implies match (#[trigger] rest[j]).1 {
            AddressView::Missing => true,
            AddressView::Unreadable => false,
            AddressView::Is(a) => lower(a) != lower(address),
        } by {
            assert(rest[j] == objects[j + 1]);
        }
        assert(match objects[0].1 {
            AddressView::Missing => true,
            AddressView::Unreadable => false,
            AddressView::Is(a) => lower(a) != lower(address),
        });
        device_is_found_by_its_address(rest, address, i - 1);
        if i < objects.len() {
            assert(rest[i - 1] == objects[i]);
        }
    }
}

} // verus!

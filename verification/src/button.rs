//! The pairing button: held long enough, it asks once for a new pairing code.
//! Times are nanoseconds of a clock that does not go back.

use vstd::prelude::*;

verus! {

/// How long the button has to be held.
pub const PAIRING_BUTTON_HOLD_NANOS: u64 = 1_000_000_000;

/// What is known of the button between two looks at it.
#[derive(Clone, Copy, Debug, PartialEq, Eq)]
pub struct PairingButtonState {
    pub pressed_since: Option<u64>,
    pub already_triggered: bool,
}

/// The button after a look at it, and whether it was just held long enough.
pub open spec fn polled(s: PairingButtonState, is_pressed: bool, now: u64) -> (
    PairingButtonState,
    bool,
) {
    if is_pressed {
        let since = match s.pressed_since {
            Some(t) => t,
            None => now,
        };
        let fires = !s.already_triggered && now - since >= PAIRING_BUTTON_HOLD_NANOS;
        (
            PairingButtonState {
                pressed_since: Some(since),
                already_triggered: s.already_triggered || fires,
            },
            fires,
        )
    } else {
        (PairingButtonState { pressed_since: None, already_triggered: false }, false)
    }
}

/// A pairing code for a random number.
pub open spec fn pairing_code_of(random: u32) -> int {
    100_000 + random as int % 900_000
}

/// A pairing code of six digits, by a random number.
pub fn generate_pairing_code(random: u32) -> (r: u32)
    ensures
        r == pairing_code_of(random),
        100_000 <= r <= 999_999,
{
    100_000 + random % 900_000
}

impl PairingButtonState {
    /// A button that is not pressed.
    pub fn new() -> (r: Self)
        ensures
            r == (PairingButtonState { pressed_since: None, already_triggered: false }),
    {
        PairingButtonState { pressed_since: None, already_triggered: false }
    }

    /// Takes a look at the button; says once per press that it has been held long enough.
    pub fn poll_long_press(&mut self, is_pressed: bool, now: u64) -> (r: bool)
        ensures
            (*final(self), r) == polled(*old(self), is_pressed, now),
    {
        if is_pressed {
            let since: u64 = match self.pressed_since {
                Some(t) => t,
                None => now,
            };
            self.pressed_since = Some(since);
            if !self.already_triggered && now >= since && now - since
                >= PAIRING_BUTTON_HOLD_NANOS {
                self.already_triggered = true;
                return true;
            }
        } else {
            self.pressed_since = None;
            self.already_triggered = false;
        }
        false
    }
}

/// Takes a look at the button, and gives the code of the pairing that it asks for, if it does.
pub fn poll_pairing_button(
    state: &mut PairingButtonState,
    is_pressed: bool,
    now: u64,
    random: u32,
) -> (r: Option<u32>)
    ensures
        *final(state) == polled(*old(state), is_pressed, now).0,
        match r {
            Some(code) => polled(*old(state), is_pressed, now).1 && code == pairing_code_of(random),
            None => !polled(*old(state), is_pressed, now).1,
        },
{
    if state.poll_long_press(is_pressed, now) {
        Some(generate_pairing_code(random))
    } else {
        None
    }
}

/// Which looks at a button that stays pressed say that it was held long enough.
pub open spec fn fires(s: PairingButtonState, times: Seq<u64>) -> Seq<bool>
    decreases times.len(),
{
    if times.len() == 0 {
        Seq::empty()
    } else {
        let (next, now) = polled(s, true, times[0]);
        seq![now] + fires(next, times.drop_first())
    }
}

proof fn lemma_fires(s: PairingButtonState, since: u64, times: Seq<u64>)
    requires
        s.pressed_since == Some(since),
    ensures
        fires(s, times).len() == times.len(),
        forall|i: int|
            0 <= i < times.len() ==> (#[trigger] fires(s, times)[i] <==> {
                &&& !s.already_triggered
                &&& times[i] - since >= PAIRING_BUTTON_HOLD_NANOS
                &&& forall|j: int| 0 <= j < i ==> #[trigger] times[j] - since < PAIRING_BUTTON_HOLD_NANOS
            }),
    decreases times.len(),
{
    if times.len() > 0 {
        let (next, now) = polled(s, true, times[0]);
        let rest = times.drop_first();
        lemma_fires(next, since, rest);
        assert forall|i: int| 0 <= i < times.len() implies (#[trigger] fires(s, times)[i] <==> {
            &&& !s.already_triggered
            &&& times[i] - since >= PAIRING_BUTTON_HOLD_NANOS
            &&& forall|j: int| 0 <= j < i ==> #[trigger] times[j] - since < PAIRING_BUTTON_HOLD_NANOS
        }) by {
            if i > 0 {
                assert(fires(s, times)[i] == fires(next, rest)[i - 1]);
                assert(rest[i - 1] == times[i]);
                if forall|j: int| 0 <= j < i ==> #[trigger] times[j] - since < PAIRING_BUTTON_HOLD_NANOS {
                    assert(times[0] - since < PAIRING_BUTTON_HOLD_NANOS);
                    assert forall|j: int| 0 <= j < i - 1 implies rest[j] - since
                        < PAIRING_BUTTON_HOLD_NANOS by {
                        assert(rest[j] == times[j + 1]);
                    }
                }
                if fires(next, rest)[i - 1] {
                    assert forall|j: int| 0 <= j < i implies times[j] - since
                        < PAIRING_BUTTON_HOLD_NANOS by {
                        if j > 0 {
                            assert(rest[j - 1] == times[j]);
                        }
                    }
                }
            }
        }
    }
}

/// A button that is pressed and stays pressed fires at the first look that comes at least the
/// hold time after the first one, and at no other.
pub proof fn held_button_fires_once(times: Seq<u64>)
    ensures
        ({
            let released = PairingButtonState { pressed_since: None, already_triggered: false };
            &&& fires(released, times).len() == times.len()
            &&& forall|i: int|
                0 <= i < times.len() ==> (#[trigger] fires(released, times)[i] <==> {
                    &&& times[i] - times[0] >= PAIRING_BUTTON_HOLD_NANOS
                    &&& forall|j: int|
                        0 <= j < i ==> #[trigger] times[j] - times[0] < PAIRING_BUTTON_HOLD_NANOS
                })
        }),
{
    let released = PairingButtonState { pressed_since: None, already_triggered: false };
    if times.len() > 0 {
        let pressed = PairingButtonState { pressed_since: Some(times[0]), already_triggered: false };
        lemma_fires(pressed, times[0], times);
        assert(polled(released, true, times[0]) == polled(pressed, true, times[0]));
    }
}

/// A button that is let go of starts over, whatever happened before, and a press fires when it has
/// lasted for a second.
pub proof fn press_fires_after_a_second(s: PairingButtonState, at: u64, start: u64, now: u64)
    requires
        start <= now,
    ensures
        ({
            let (released, fired) = polled(s, false, at);
            let (pressed, at_once) = polled(released, true, start);
            &&& !fired
            &&& !at_once
            &&& polled(pressed, true, now).1 <==> now - start >= 1_000_000_000
        }),
{
}

/// Codes have six digits, no first one is a zero, and random numbers that differ by less than all
/// the codes there are give different codes.
pub proof fn codes_are_spread_evenly(random: u32, other: u32)
    ensures
        100_000 <= pairing_code_of(random) < 1_000_000,
        random < 900_000 ==> pairing_code_of(random) - 100_000 == random,
        random != other && -900_000 < random - other < 900_000 ==> pairing_code_of(random)
            != pairing_code_of(other),
{
}

} // verus!

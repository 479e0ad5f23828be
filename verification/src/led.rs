//! The eight lamps: four patterns that run a number of times, and what the lamps do in between.
//! Times are nanoseconds of a clock that does not go back.

use vstd::prelude::*;
use crate::behavior::animation_ms;

verus! {

pub const NANOS_PER_MS: u64 = 1_000_000;

/// The longest time that anything here is put off.
pub const LONGEST_WAIT_NANOS: u64 = 2_000_000_000;

/// A lamp pattern that is under way, or none.
#[derive(Clone, Copy, Debug, PartialEq, Eq)]
pub struct LedRun {
    pub pattern_id: u32,
    pub repeats_left: u32,
    pub step: u32,
    pub phase: bool,
    pub next_at: Option<u64>,
}

/// How many lamp settings one round of a pattern has.
pub open spec fn steps_per_round(pattern: u32) -> nat {
    if pattern == 1 {
        8
    } else if pattern == 3 {
        4
    } else {
        2
    }
}

/// How long each setting of a pattern stays, in milliseconds.
pub open spec fn step_ms(pattern: u32) -> nat {
    if pattern == 1 {
        60
    } else if pattern == 2 {
        70
    } else if pattern == 3 {
        65
    } else {
        80
    }
}

/// The lamps at a position in the round of a pattern: one lamp after the other, every second
/// lamp in turn, two lamps from the ends to the middle, or all and none.
pub open spec fn lamps_at(pattern: u32, position: nat) -> u8 {
    let i = position as u32;
    if pattern == 1 {
        1u8 << i
    } else if pattern == 2 {
        if position == 1 {
            0b0101_0101
        } else {
            0b1010_1010
        }
    } else if pattern == 3 {
        (1u8 << i) | (1u8 << (7 - i))
    } else {
        if position == 1 {
            0x00
        } else {
            0xFF
        }
    }
}

impl LedRun {
    /// Where in its round the pattern is.
    pub open spec fn position(self) -> nat {
        if self.pattern_id == 1 || self.pattern_id == 3 {
            self.step as nat
        } else if self.phase {
            1
        } else {
            0
        }
    }

    /// The position lies in the round, and a pattern under way has a time for its next setting.
    pub open spec fn wf(self) -> bool {
        &&& self.position() < steps_per_round(self.pattern_id)
        &&& self.repeats_left > 0 <==> self.next_at is Some
    }

    /// Whether a setting is due.
    pub open spec fn due(self, now: u64) -> bool {
        &&& self.repeats_left > 0
        &&& self.next_at matches Some(next)
        &&& next <= now
    }

    /// Whether a pattern is under way whose next setting is not due yet.
    pub open spec fn early(self, now: u64) -> bool {
        self.next_at matches Some(next) && now < next
    }

    /// Whether the setting that is due is the last one.
    pub open spec fn at_last(self) -> bool {
        self.repeats_left == 1 && self.position() + 1 == steps_per_round(self.pattern_id)
    }

    /// How many settings are still to come.
    pub open spec fn settings_left(self) -> int {
        self.repeats_left * steps_per_round(self.pattern_id) - self.position()
    }

    /// The pattern after the setting that was due at `now`.
    pub open spec fn advanced(self, now: u64) -> LedRun {
        let last_of_round = self.position() + 1 == steps_per_round(self.pattern_id);
        let by_step = self.pattern_id == 1 || self.pattern_id == 3;
        LedRun {
            pattern_id: self.pattern_id,
            repeats_left: if last_of_round {
                (self.repeats_left - 1) as u32
            } else {
                self.repeats_left
            },
            step: if !by_step {
                self.step
            } else if last_of_round {
                0
            } else {
                (self.step + 1) as u32
            },
            phase: if by_step {
                self.phase
            } else {
                !self.phase
            },
            next_at: if self.at_last() {
                None
            } else {
                Some((now + step_ms(self.pattern_id) * NANOS_PER_MS) as u64)
            },
        }
    }

    /// A pattern that begins at `now`; it runs at least once.
    pub open spec fn scheduled(pattern_id: u32, repeats: u32, now: u64) -> LedRun {
        LedRun {
            pattern_id,
            repeats_left: if repeats == 0 {
                1
            } else {
                repeats
            },
            step: 0,
            phase: false,
            next_at: Some(now),
        }
    }

    /// No pattern.
    pub open spec fn idle() -> LedRun {
        LedRun { pattern_id: 0, repeats_left: 0, step: 0, phase: false, next_at: None }
    }

    /// No pattern.
    pub fn new() -> (r: Self)
        ensures
            r.wf(),
            r == LedRun::idle(),
    {
        LedRun { pattern_id: 0, repeats_left: 0, step: 0, phase: false, next_at: None }
    }

    /// Begins a pattern at `now`, whatever was under way.
    pub fn schedule(&mut self, pattern_id: u32, repeats: u32, now: u64)
        ensures
            final(self).wf(),
            *final(self) == LedRun::scheduled(pattern_id, repeats, now),
    {
        self.pattern_id = pattern_id;
        self.repeats_left = if repeats == 0 {
            1
        } else {
            repeats
        };
        self.step = 0;
        self.phase = false;
        self.next_at = Some(now);
    }

    /// The lamps to set now, if a setting is due, and whether it was the last one.
    fn advance(&mut self, now: u64) -> (r: Option<(u8, bool)>)
        requires
            old(self).wf(),
            now <= u64::MAX - LONGEST_WAIT_NANOS,
        ensures
            final(self).wf(),
            if old(self).due(now) {
                &&& r == Some(
                    (
                        lamps_at(old(self).pattern_id, old(self).position()),
                        old(self).at_last(),
                    ),
                )
                &&& *final(self) == old(self).advanced(now)
            } else {
                r is None && *final(self) == *old(self)
            },
    {
        if self.repeats_left == 0 {
            return None;
        }
        let next: u64 = match self.next_at {
            Some(next) => next,
            None => {
                return None;
            },
        };
        if now < next {
            return None;
        }
        let wait_ms: u64;
        let mask: u8;
        if self.pattern_id == 1 {
            mask = 1u8 << self.step;
            self.step = self.step + 1;
            if self.step >= 8 {
                self.step = 0;
                self.repeats_left = self.repeats_left - 1;
            }
            wait_ms = 60;
        } else if self.pattern_id == 2 {
            if self.phase {
                mask = 0b0101_0101;
                self.repeats_left = self.repeats_left - 1;
            } else {
                mask = 0b1010_1010;
            }
            self.phase = !self.phase;
            wait_ms = 70;
        } else if self.pattern_id == 3 {
            let i: u32 = self.step;
            mask = (1u8 << i) | (1u8 << (7 - i));
            self.step = self.step + 1;
            if self.step >= 4 {
                self.step = 0;
                self.repeats_left = self.repeats_left - 1;
            }
            wait_ms = 65;
        } else {
            if self.phase {
                mask = 0x00;
                self.repeats_left = self.repeats_left - 1;
            } else {
                mask = 0xFF;
            }
            self.phase = !self.phase;
            wait_ms = 80;
        }
        if self.repeats_left == 0 {
            self.next_at = None;
            Some((mask, true))
        } else {
            self.next_at = Some(now + wait_ms * NANOS_PER_MS);
            Some((mask, false))
        }
    }

    /// The pattern after a tick at `now`, and the lamp settings of the tick in order, on a board
    /// that goes dark after a pattern.
    pub open spec fn ticked(self, now: u64) -> (LedRun, Seq<u8>) {
        if !self.due(now) {
            (self, Seq::empty())
        } else {
            let lamps = lamps_at(self.pattern_id, self.position());
            (
                self.advanced(now),
                if self.at_last() {
                    seq![lamps, 0x00u8]
                } else {
                    seq![lamps]
                },
            )
        }
    }

    /// The lamp settings that are due at `now`, in order, on a board that goes dark after a
    /// pattern.
    pub fn tick(&mut self, now: u64) -> (r: Vec<u8>)
        requires
            old(self).wf(),
            now <= u64::MAX - LONGEST_WAIT_NANOS,
        ensures
            final(self).wf(),
            (*final(self), r@) == old(self).ticked(now),
    {
        let mut out: Vec<u8> = Vec::new();
        if let Some((mask, last)) = self.advance(now) {
            out.push(mask);
            if last {
                out.push(0x00);
                assert(out@ =~= seq![mask, 0x00u8]);
            } else {
                assert(out@ =~= seq![mask]);
            }
        }
        out
    }
}

/// The lamps of the board that blinks by itself while no pattern is under way.
#[derive(Clone, Copy, Debug, PartialEq, Eq)]
pub struct LedAnimator {
    pub run: LedRun,
    pub idle_led4_on: bool,
    pub idle_next_toggle_at: u64,
}

/// The lamps between patterns: the second one always, the fifth one in turn.
pub open spec fn idle_lamps(led4_on: bool) -> u8 {
    if led4_on {
        0b0001_0010
    } else {
        0b0000_0010
    }
}

/// How long the blinking lamp stays as it is, in milliseconds: from 100 to 2000, by a random
/// number.
pub open spec fn idle_interval_ms(random: u32) -> int {
    100 + random as int % 1901
}

/// How long the blinking lamp stays as it is, in milliseconds.
pub fn next_idle_interval_ms(random: u32) -> (r: u64)
    ensures
        r == idle_interval_ms(random),
        100 <= r <= 2000,
{
    100 + (random as u64) % 1901
}

impl LedAnimator {
    pub open spec fn wf(self) -> bool {
        self.run.wf()
    }

    /// The animator after the idle lamps were set at `now`.
    pub open spec fn idled(self, now: u64, random: u32) -> LedAnimator {
        if now >= self.idle_next_toggle_at {
            LedAnimator {
                idle_led4_on: !self.idle_led4_on,
                idle_next_toggle_at: (now + idle_interval_ms(random) * NANOS_PER_MS) as u64,
                ..self
            }
        } else {
            self
        }
    }

    /// The animator after a tick at `now`, and the lamp settings of the tick in order.
    pub open spec fn ticked(self, now: u64, random: u32) -> (LedAnimator, Seq<u8>) {
        if self.run.repeats_left == 0 {
            let next = self.idled(now, random);
            (next, seq![idle_lamps(next.idle_led4_on)])
        } else if !self.run.due(now) {
            (self, Seq::empty())
        } else {
            let lamps = lamps_at(self.run.pattern_id, self.run.position());
            let moved = LedAnimator { run: self.run.advanced(now), ..self };
            if self.run.at_last() {
                let next = moved.idled(now, random);
                (next, seq![lamps, idle_lamps(next.idle_led4_on)])
            } else {
                (moved, seq![lamps])
            }
        }
    }

    /// No pattern, and the fifth lamp off until the first tick at or after `now`.
    pub open spec fn idle_from(now: u64) -> LedAnimator {
        LedAnimator { run: LedRun::idle(), idle_led4_on: false, idle_next_toggle_at: now }
    }

    /// Idle lamps from `now` on.
    pub fn new(now: u64) -> (r: Self)
        ensures
            r.wf(),
            r == LedAnimator::idle_from(now),
    {
        LedAnimator { run: LedRun::new(), idle_led4_on: false, idle_next_toggle_at: now }
    }

    /// The lamps between patterns.
    pub fn idle_mask(&self) -> (r: u8)
        ensures
            r == idle_lamps(self.idle_led4_on),
    {
        if self.idle_led4_on {
            0b0001_0010
        } else {
            0b0000_0010
        }
    }

    /// Begins a pattern at `now`, whatever was under way.
    pub fn schedule(&mut self, pattern_id: u32, repeats: u32, now: u64)
        ensures
            final(self).wf(),
            *final(self) == (LedAnimator {
                run: LedRun::scheduled(pattern_id, repeats, now),
                ..*old(self)
            }),
    {
        self.run.schedule(pattern_id, repeats, now);
    }

    fn tick_idle(&mut self, now: u64, random: u32) -> (r: u8)
        requires
            now <= u64::MAX - LONGEST_WAIT_NANOS,
        ensures
            *final(self) == old(self).idled(now, random),
            r == idle_lamps(final(self).idle_led4_on),
    {
        if now >= self.idle_next_toggle_at {
            self.idle_led4_on = !self.idle_led4_on;
            self.idle_next_toggle_at = now + next_idle_interval_ms(random) * NANOS_PER_MS;
        }
        self.idle_mask()
    }

    /// The lamp settings that are due at `now`, in order; `random` decides how long the idle
    /// lamp then stays as it is.
    pub fn tick(&mut self, now: u64, random: u32) -> (r: Vec<u8>)
        requires
            old(self).wf(),
            now <= u64::MAX - LONGEST_WAIT_NANOS,
        ensures
            final(self).wf(),
            (*final(self), r@) == old(self).ticked(now, random),
    {
        let mut out: Vec<u8> = Vec::new();
        if self.run.repeats_left == 0 {
            let mask: u8 = self.tick_idle(now, random);
            out.push(mask);
            assert(out@ =~= seq![mask]);
            return out;
        }
        let mut run = self.run;
        let moved = run.advance(now);
        self.run = run;
        if let Some((mask, last)) = moved {
            out.push(mask);
            if last {
                let idle: u8 = self.tick_idle(now, random);
                out.push(idle);
                assert(out@ =~= seq![mask, idle]);
            } else {
                assert(out@ =~= seq![mask]);
            }
        }
        out
    }
}

/// The pattern after `n` settings, each taken the moment it is due.
pub open spec fn after_settings(run: LedRun, n: nat) -> LedRun
    decreases n,
{
    if n == 0 {
        run
    } else {
        match run.next_at {
            Some(next) => after_settings(run.advanced(next), (n - 1) as nat),
            None => run,
        }
    }
}

proof fn lemma_settings_left(run: LedRun, now: u64)
    requires
        run.wf(),
        run.repeats_left > 0,
    ensures
        run.settings_left() >= 1,
        run.at_last() <==> run.settings_left() == 1,
        run.advanced(now).settings_left() == run.settings_left() - 1,
        run.advanced(now).wf(),
{
    let n = steps_per_round(run.pattern_id);
    let r = run.repeats_left;
    assert(r * n >= n) by (nonlinear_arith)
        requires
            r >= 1,
            n >= 1,
    ;
    assert((r - 1) * n == r * n - n) by (nonlinear_arith);
    if r > 1 {
        assert(r * n >= 2 * n) by (nonlinear_arith)
            requires
                r >= 2,
                n >= 1,
        ;
    } else {
        assert(r * n == n) by (nonlinear_arith)
            requires
                r == 1,
        ;
    }
}

proof fn lemma_runs_out(run: LedRun, n: nat, at: u64)
    requires
        run.wf(),
        run.next_at == Some(at),
        run.settings_left() == n,
        at + n * step_ms(run.pattern_id) * NANOS_PER_MS <= u64::MAX,
    ensures
        after_settings(run, n).repeats_left == 0,
        after_settings(run, n).next_at is None,
        forall|k: nat|
            k < n ==> (#[trigger] after_settings(run, k)).next_at == Some(
                (at + k * step_ms(run.pattern_id) * NANOS_PER_MS) as u64,
            ),
    decreases n,
{
    let w = step_ms(run.pattern_id);
    lemma_settings_left(run, at);
    let next = run.advanced(at);
    if n == 1 {
        assert(after_settings(run, 1) == after_settings(next, 0));
        assert forall|k: nat| k < n implies (#[trigger] after_settings(run, k)).next_at == Some(
            (at + k * w * NANOS_PER_MS) as u64,
        ) by {
            assert(k * w * NANOS_PER_MS == 0) by (nonlinear_arith)
                requires
                    k == 0,
            ;
        }
    } else {
        let m = (n - 1) as nat;
        assert(n * w * NANOS_PER_MS == w * NANOS_PER_MS + m * w * NANOS_PER_MS) by (nonlinear_arith)
            requires
                n == m + 1,
        ;
        assert(m * w * NANOS_PER_MS >= 0) by (nonlinear_arith);
        let at2 = (at + w * NANOS_PER_MS) as u64;
        lemma_runs_out(next, m, at2);
        assert forall|k: nat| k < n implies (#[trigger] after_settings(run, k)).next_at == Some(
            (at + k * w * NANOS_PER_MS) as u64,
        ) by {
            if k == 0 {
                assert(k * w * NANOS_PER_MS == 0) by (nonlinear_arith)
                    requires
                        k == 0,
                ;
            } else {
                let j = (k - 1) as nat;
                assert(after_settings(run, k) == after_settings(next, j));
                assert(k * w * NANOS_PER_MS == w * NANOS_PER_MS + j * w * NANOS_PER_MS)
                    by (nonlinear_arith)
                    requires
                        k == j + 1,
                ;
            }
        }
    }
}

/// A pattern lasts no longer than [`animation_ms`] says: with every setting taken the moment it
/// is due, the last one comes one step's time before that, and then the pattern is over.
pub proof fn pattern_lasts_as_long_as_said(pattern_id: u32, repeats: u32, now: u64)
    requires
        repeats > 0,
        now + animation_ms(pattern_id, repeats) * NANOS_PER_MS <= u64::MAX,
    ensures
        ({
            let n = (repeats * steps_per_round(pattern_id)) as nat;
            let run = LedRun::scheduled(pattern_id, repeats, now);
            &&& n * step_ms(pattern_id) == animation_ms(pattern_id, repeats)
            &&& after_settings(run, n).repeats_left == 0
            &&& after_settings(run, (n - 1) as nat).next_at == Some(
                (now + (animation_ms(pattern_id, repeats) - step_ms(pattern_id)) * NANOS_PER_MS) as u64,
            )
        }),
{
    let n = (repeats * steps_per_round(pattern_id)) as nat;
    let w = step_ms(pattern_id);
    let run = LedRun::scheduled(pattern_id, repeats, now);
    assert(n * w == animation_ms(pattern_id, repeats));
    assert(n >= 1);
    lemma_runs_out(run, n, now);
    let m = (n - 1) as nat;
    assert(m * w == n * w - w) by (nonlinear_arith)
        requires
            n == m + 1,
    ;
    assert(after_settings(run, m).next_at == Some((now + m * w * NANOS_PER_MS) as u64));
}

/// The animator after ticks, each at a time and with a random number, and what each of them
/// showed.
pub open spec fn after_ticks(a: LedAnimator, ticks: Seq<(u64, u32)>) -> (LedAnimator, Seq<Seq<u8>>)
    decreases ticks.len(),
{
    if ticks.len() == 0 {
        (a, Seq::empty())
    } else {
        let (before, shown) = after_ticks(a, ticks.drop_last());
        let (now, random) = ticks.last();
        let (after, lamps) = before.ticked(now, random);
        (after, shown.push(lamps))
    }
}

/// No tick comes before the next setting is due.
pub open spec fn on_time(a: LedAnimator, ticks: Seq<(u64, u32)>) -> bool {
    forall|i: int|
        0 <= i < ticks.len() ==> !(#[trigger] after_ticks(a, ticks.take(i))).0.run.early(ticks[i].0)
}

/// How many settings a pattern has that is asked to run so often; it runs at least once.
pub open spec fn settings_of(pattern_id: u32, repeats: u32) -> nat {
    if repeats == 0 {
        steps_per_round(pattern_id)
    } else {
        (repeats * steps_per_round(pattern_id)) as nat
    }
}

/// The settings of one round of a pattern.
pub open spec fn round_of(pattern: u32) -> Seq<u8> {
    if pattern == 1 {
        seq![0x01, 0x02, 0x04, 0x08, 0x10, 0x20, 0x40, 0x80]
    } else if pattern == 2 {
        seq![0xAA, 0x55]
    } else if pattern == 3 {
        seq![0x81, 0x42, 0x24, 0x18]
    } else {
        seq![0xFF, 0x00]
    }
}

proof fn lemma_round(pattern: u32)
    ensures
        round_of(pattern).len() == steps_per_round(pattern),
        forall|i: int|
            0 <= i < steps_per_round(pattern) ==> lamps_at(pattern, i as nat) == (
            #[trigger] round_of(pattern)[i]),
{
    assert(1u8 << 0u32 == 1 && 1u8 << 1u32 == 2 && 1u8 << 2u32 == 4 && 1u8 << 3u32 == 8 && 1u8
        << 4u32 == 16 && 1u8 << 5u32 == 32 && 1u8 << 6u32 == 64 && 1u8 << 7u32 == 128)
        by (bit_vector);
    assert((1u8 << 0u32) | (1u8 << 7u32) == 0x81 && (1u8 << 1u32) | (1u8 << 6u32) == 0x42 && (1u8
        << 2u32) | (1u8 << 5u32) == 0x24 && (1u8 << 3u32) | (1u8 << 4u32) == 0x18) by (bit_vector);
}

/// A tick before the next setting of a pattern is due shows nothing and changes nothing.
pub proof fn early_tick_shows_nothing(a: LedAnimator, now: u64, random: u32)
    requires
        a.wf(),
        a.run.early(now),
    ensures
        a.ticked(now, random) == (a, Seq::<u8>::empty()),
{
}

/// One setting moves a pattern on by one position.
proof fn lemma_one_setting(run: LedRun, now: u64, i: nat)
    requires
        run.wf(),
        run.repeats_left > 0,
        run.position() == i % steps_per_round(run.pattern_id),
    ensures
        run.advanced(now).wf(),
        run.advanced(now).pattern_id == run.pattern_id,
        run.advanced(now).position() == (i + 1) % steps_per_round(run.pattern_id),
        run.advanced(now).settings_left() == run.settings_left() - 1,
        run.at_last() <==> run.settings_left() == 1,
{
    lemma_settings_left(run, now);
    assert((i + 1) % 8 == if i % 8 == 7 {
        0
    } else {
        i % 8 + 1
    });
    assert((i + 1) % 4 == if i % 4 == 3 {
        0
    } else {
        i % 4 + 1
    });
    assert((i + 1) % 2 == 1 - i % 2);
}

proof fn lemma_after_ticks(a: LedAnimator, pattern_id: u32, n: nat, ticks: Seq<(u64, u32)>)
    requires
        a.wf(),
        a.run.pattern_id == pattern_id,
        a.run.position() == 0,
        a.run.settings_left() == n,
        ticks.len() <= n,
        on_time(a, ticks),
    ensures
        ({
            let (end, shown) = after_ticks(a, ticks);
            &&& end.wf()
            &&& end.run.pattern_id == pattern_id
            &&& end.run.position() == ticks.len() % steps_per_round(pattern_id)
            &&& end.run.settings_left() == n - ticks.len()
            &&& shown.len() == ticks.len()
            &&& forall|i: int|
                0 <= i < shown.len() ==> (#[trigger] shown[i]) == if i + 1 < n {
                    seq![lamps_at(pattern_id, i as nat % steps_per_round(pattern_id))]
                } else {
                    seq![
                        lamps_at(pattern_id, i as nat % steps_per_round(pattern_id)),
                        idle_lamps(end.idle_led4_on),
                    ]
                }
        }),
    decreases ticks.len(),
{
    if ticks.len() > 0 {
        let front = ticks.drop_last();
        let last = (ticks.len() - 1) as nat;
        assert forall|i: int| 0 <= i < front.len() implies !(#[trigger] after_ticks(
            a,
            front.take(i),
        )).0.run.early(front[i].0) by {
            assert(front.take(i) =~= ticks.take(i));
            assert(front[i] == ticks[i]);
        }
        lemma_after_ticks(a, pattern_id, n, front);
        assert(ticks.take(last as int) =~= front);
        let before = after_ticks(a, front).0;
        assert(!before.run.early(ticks[last as int].0));
        assert(before.run.repeats_left > 0);
        lemma_one_setting(before.run, ticks.last().0, last);
    }
}

/// A pattern that begins has all its settings before it.
proof fn lemma_settings_of(pattern_id: u32, repeats: u32, now: u64)
    ensures
        ({
            let run = LedRun::scheduled(pattern_id, repeats, now);
            let n = settings_of(pattern_id, repeats);
            &&& n == run.repeats_left * steps_per_round(pattern_id)
            &&& n == run.settings_left()
            &&& n > 0
        }),
{
    let run = LedRun::scheduled(pattern_id, repeats, now);
    lemma_settings_left(run, now);
    let round = steps_per_round(pattern_id);
    assert(1 * round == round);
}

/// The last setting of whole rounds is the last one of a round.
proof fn lemma_last_position(rounds: int, pattern_id: u32, n: nat)
    requires
        n == rounds * steps_per_round(pattern_id),
        n > 0,
    ensures
        (n - 1) as nat % steps_per_round(pattern_id) == steps_per_round(pattern_id) - 1,
{
    let round = steps_per_round(pattern_id);
    assert(n - 1 == round * (rounds - 1) + (round - 1)) by (nonlinear_arith)
        requires
            n == rounds * round,
    ;
    vstd::arithmetic::div_mod::lemma_mod_multiples_vanish(rounds - 1, round - 1, round as int);
    vstd::arithmetic::div_mod::lemma_small_mod((round - 1) as nat, round);
}

/// A pattern shows its settings in order, as often as it was asked to and at least once, one
/// with every tick that comes when a setting is due or later. Until the last of them it is under
/// way; the last one also shows the idle lamps, and then the pattern is over.
pub proof fn pattern_runs_to_its_end(
    a: LedAnimator,
    pattern_id: u32,
    repeats: u32,
    now: u64,
    ticks: Seq<(u64, u32)>,
)
    requires
        ticks.len() == settings_of(pattern_id, repeats),
        on_time(LedAnimator { run: LedRun::scheduled(pattern_id, repeats, now), ..a }, ticks),
    ensures
        ({
            let start = LedAnimator { run: LedRun::scheduled(pattern_id, repeats, now), ..a };
            let n = settings_of(pattern_id, repeats);
            let round = round_of(pattern_id);
            let (end, shown) = after_ticks(start, ticks);
            &&& shown.len() == n
            &&& forall|i: int|
                0 <= i < n - 1 ==> (#[trigger] shown[i]) == seq![round[i % round.len() as int]]
            &&& shown[n - 1] == seq![round.last(), idle_lamps(end.idle_led4_on)]
            &&& forall|i: int|
                0 <= i < n ==> (#[trigger] after_ticks(start, ticks.take(i))).0.run.repeats_left > 0
            &&& end.run.repeats_left == 0
            &&& end.run.next_at is None
        }),
{
    let start = LedAnimator { run: LedRun::scheduled(pattern_id, repeats, now), ..a };
    let n = settings_of(pattern_id, repeats);
    lemma_round(pattern_id);
    lemma_settings_of(pattern_id, repeats, now);
    lemma_after_ticks(start, pattern_id, n, ticks);
    let end = after_ticks(start, ticks).0;
    assert(end.run.settings_left() == 0);
    if end.run.repeats_left > 0 {
        lemma_settings_left(end.run, now);
    }
    assert(end.run.repeats_left == 0);
    lemma_last_position(start.run.repeats_left as int, pattern_id, n);
    assert forall|i: int| 0 <= i < n implies (#[trigger] after_ticks(
        start,
        ticks.take(i),
    )).0.run.repeats_left > 0 by {
        let front = ticks.take(i);
        assert forall|j: int| 0 <= j < front.len() implies !(#[trigger] after_ticks(
            start,
            front.take(j),
        )).0.run.early(front[j].0) by {
            assert(front.take(j) =~= ticks.take(j));
            assert(front[j] == ticks[j]);
        }
        lemma_after_ticks(start, pattern_id, n, front);
    }
}

/// The pattern after ticks on a board that goes dark after a pattern, and what each of them
/// showed.
pub open spec fn run_after_ticks(run: LedRun, times: Seq<u64>) -> (LedRun, Seq<Seq<u8>>)
    decreases times.len(),
{
    if times.len() == 0 {
        (run, Seq::empty())
    } else {
        let (before, shown) = run_after_ticks(run, times.drop_last());
        let (after, lamps) = before.ticked(times.last());
        (after, shown.push(lamps))
    }
}

/// No tick comes before the next setting is due, on a board that goes dark after a pattern.
pub open spec fn run_on_time(run: LedRun, times: Seq<u64>) -> bool {
    forall|i: int|
        0 <= i < times.len() ==> !(#[trigger] run_after_ticks(run, times.take(i))).0.early(times[i])
}

proof fn lemma_run_after_ticks(run: LedRun, n: nat, times: Seq<u64>)
    requires
        run.wf(),
        run.position() == 0,
        run.settings_left() == n,
        times.len() <= n,
        run_on_time(run, times),
    ensures
        ({
            let (end, shown) = run_after_ticks(run, times);
            let round = steps_per_round(run.pattern_id);
            &&& end.wf()
            &&& end.pattern_id == run.pattern_id
            &&& end.position() == times.len() % round
            &&& end.settings_left() == n - times.len()
            &&& shown.len() == times.len()
            &&& forall|i: int|
                0 <= i < shown.len() ==> (#[trigger] shown[i]) == if i + 1 < n {
                    seq![lamps_at(run.pattern_id, i as nat % round)]
                } else {
                    seq![lamps_at(run.pattern_id, i as nat % round), 0x00u8]
                }
        }),
    decreases times.len(),
{
    if times.len() > 0 {
        let front = times.drop_last();
        let last = (times.len() - 1) as nat;
        assert forall|i: int| 0 <= i < front.len() implies !(#[trigger] run_after_ticks(
            run,
            front.take(i),
        )).0.early(front[i]) by {
            assert(front.take(i) =~= times.take(i));
            assert(front[i] == times[i]);
        }
        lemma_run_after_ticks(run, n, front);
        assert(times.take(last as int) =~= front);
        let before = run_after_ticks(run, front).0;
        assert(!before.early(times[last as int]));
        assert(before.repeats_left > 0);
        lemma_one_setting(before, times.last(), last);
    }
}

/// On a board that goes dark after a pattern, too, a pattern shows its settings in order, as
/// often as it was asked to and at least once, one with every tick that comes when a setting is
/// due or later. The last one is followed by darkness, and then the pattern is over.
pub proof fn dark_pattern_runs_to_its_end(
    pattern_id: u32,
    repeats: u32,
    now: u64,
    times: Seq<u64>,
)
    requires
        times.len() == settings_of(pattern_id, repeats),
        run_on_time(LedRun::scheduled(pattern_id, repeats, now), times),
    ensures
        ({
            let start = LedRun::scheduled(pattern_id, repeats, now);
            let n = settings_of(pattern_id, repeats);
            let round = round_of(pattern_id);
            let (end, shown) = run_after_ticks(start, times);
            &&& shown.len() == n
            &&& forall|i: int|
                0 <= i < n - 1 ==> (#[trigger] shown[i]) == seq![round[i % round.len() as int]]
            &&& shown[n - 1] == seq![round.last(), 0x00u8]
            &&& end.repeats_left == 0
            &&& end.next_at is None
        }),
{
    let start = LedRun::scheduled(pattern_id, repeats, now);
    let n = settings_of(pattern_id, repeats);
    lemma_round(pattern_id);
    lemma_settings_of(pattern_id, repeats, now);
    lemma_run_after_ticks(start, n, times);
    lemma_last_position(start.repeats_left as int, pattern_id, n);
    let end = run_after_ticks(start, times).0;
    if end.repeats_left > 0 {
        lemma_settings_left(end, now);
    }
}

/// The first setting of a pattern comes with the tick at its beginning, and one less is left then.
pub proof fn first_setting_comes_at_once(
    begun: LedAnimator,
    pattern_id: u32,
    repeats: u32,
    now: u64,
    random: u32,
)
    requires
        begun.run == LedRun::scheduled(pattern_id, repeats, now),
    ensures
        ({
            let (after, shown) = begun.ticked(now, random);
            &&& shown.len() >= 1
            &&& shown[0] == lamps_at(pattern_id, 0)
            &&& after.run.pattern_id == pattern_id
            &&& after.run.settings_left() == settings_of(pattern_id, repeats) - 1
        }),
{
    assert(begun.run.position() == 0);
    lemma_settings_of(pattern_id, repeats, now);
    lemma_settings_left(begun.run, now);
}

/// Between patterns the second lamp shines, the fifth one blinks, and all others are dark.
pub proof fn idle_lamps_blink(led4_on: bool)
    ensures
        idle_lamps(led4_on) & 0b0000_0010 == 0b0000_0010,
        idle_lamps(led4_on) & 0b1110_1101 == 0,
        idle_lamps(true) == idle_lamps(false) | 0b0001_0000,
        idle_lamps(true) != idle_lamps(false),
{
    assert(0b0001_0010u8 & 0b0000_0010u8 == 0b0000_0010u8) by (bit_vector);
    assert(0b0000_0010u8 & 0b0000_0010u8 == 0b0000_0010u8) by (bit_vector);
    assert(0b0001_0010u8 & 0b1110_1101u8 == 0) by (bit_vector);
    assert(0b0000_0010u8 & 0b1110_1101u8 == 0) by (bit_vector);
    assert(0b0001_0010u8 == 0b0000_0010u8 | 0b0001_0000u8) by (bit_vector);
}

/// The blinking lamp changes when its time has come and not before; then it stays for a tenth of a
/// second at least and for two seconds at most. A pattern under way is not touched by it.
pub proof fn blinking_is_timed(a: LedAnimator, now: u64, random: u32)
    requires
        now <= u64::MAX - LONGEST_WAIT_NANOS,
    ensures
        ({
            let after = a.idled(now, random);
            &&& after.run == a.run
            &&& now < a.idle_next_toggle_at ==> after == a
            &&& now >= a.idle_next_toggle_at ==> {
                &&& after.idle_led4_on == !a.idle_led4_on
                &&& now + 100_000_000 <= after.idle_next_toggle_at <= now + 2_000_000_000
                &&& random <= 1900 ==> after.idle_next_toggle_at == now + (100 + random) * 1_000_000
            }
        }),
        a.run.repeats_left == 0 ==> a.ticked(now, random) == (
            a.idled(now, random),
            seq![idle_lamps(a.idled(now, random).idle_led4_on)],
        ),
{
}

/// A pattern that is asked for no times runs once, and one that is under way gives way to the next.
pub proof fn pattern_runs_once_at_least(pattern_id: u32, now: u64)
    ensures
        LedRun::scheduled(pattern_id, 0, now) == LedRun::scheduled(pattern_id, 1, now),
        forall|repeats: u32|
            repeats > 0 ==> (#[trigger] LedRun::scheduled(pattern_id, repeats, now)).repeats_left
                == repeats,
        LedRun::scheduled(pattern_id, 1, now).pattern_id == pattern_id,
        LedRun::scheduled(pattern_id, 1, now).next_at == Some(now),
{
}

} // verus!

//! The lighting engine: what color should be showing right now.
//!
//! The engine owns the current pattern and the animation cursor (frame index
//! and time origin) and decides, at each tick, what the output must show.
//! Writing to the physical output is the caller's job: `tick` returns the
//! color to apply exactly when it differs from the last one applied.

use vstd::prelude::*;
use vstd::arithmetic::div_mod::{
    lemma_add_mod_noop, lemma_add_mod_noop_right, lemma_mod_add_multiples_vanish, lemma_mod_bound,
    lemma_mod_decreases, lemma_mod_self_0, lemma_mod_sub_multiples_vanish, lemma_small_mod,
};
use crate::color::{black, Color};
use crate::pattern::{
    cycle_sum, lemma_cycle_sum_full_lap, lemma_cycle_sum_nonneg, lemma_cycle_sum_split, total_ms,
    valid_pattern, Frame, Pattern, PatternV,
};

verus! {

/// The lighting engine's state: the pattern being shown, the animation
/// cursor into it, and the color last handed to the output.
pub struct Lights {
    pattern: Pattern,
    frame: usize,
    origin_ms: u64,
    last: Color,
}

/// The mathematical model of the engine's state.
pub struct LightsV {
    pub pattern: PatternV,
    pub frame: int,
    pub origin_ms: int,
    pub last: Color,
}

impl View for Lights {
    type V = LightsV;

    closed spec fn view(&self) -> LightsV {
        LightsV {
            pattern: self.pattern@,
            frame: self.frame as int,
            origin_ms: self.origin_ms as int,
            last: self.last,
        }
    }
}

impl LightsV {
    /// Internal consistency of an engine state: the pattern's cycle length
    /// fits the millisecond arithmetic, the cursor lies inside a running
    /// animation, and the numeric fields fit their machine types.
    pub open spec fn wf(self) -> bool {
        &&& valid_pattern(self.pattern)
        &&& 0 <= self.frame <= usize::MAX
        &&& 0 <= self.origin_ms <= u64::MAX
        &&& match self.pattern {
            PatternV::Custom(frames) => frames.len() > 0 ==> self.frame < frames.len(),
            _ => true,
        }
    }
}

/// The color an engine state is showing: black for `Off` or an empty
/// animation, the solid color, or the animation's current frame.
pub open spec fn displayed_color(s: LightsV) -> Color {
    match s.pattern {
        PatternV::Off => black(),
        PatternV::Solid(c) => c,
        PatternV::Custom(frames) => if frames.len() == 0 {
            black()
        } else {
            frames[s.frame].color
        },
    }
}

/// The state after `set`: the pattern becomes solid, nothing else moves.
pub open spec fn set_t(s: LightsV, color: Color) -> LightsV {
    LightsV { pattern: PatternV::Solid(color), ..s }
}

/// The state after `set_pattern`: the new pattern, with the cursor reset to
/// frame 0 and a fresh time origin.
pub open spec fn set_pattern_t(s: LightsV, p: PatternV, now: int) -> LightsV {
    LightsV { pattern: p, frame: 0, origin_ms: now, ..s }
}

/// One greedy advancement pass over an animation: while the elapsed budget
/// `e` covers the current frame's whole duration, consume exactly that
/// duration and step to the next frame, wrapping cyclically. `fuel` bounds
/// the number of steps.
pub open spec fn walk(frames: Seq<Frame>, f: int, e: int, fuel: nat) -> (int, int)
    decreases fuel,
{
    let n = frames.len() as int;
    if fuel == 0 {
        (f, e)
    } else if 0 <= f < n && e >= frames[f].duration_ms {
        walk(frames, (f + 1) % n, e - frames[f].duration_ms, (fuel - 1) as nat)
    } else {
        (f, e)
    }
}

/// The walk stopped of its own accord: the remaining budget no longer covers
/// the current frame.
pub open spec fn walk_done(frames: Seq<Frame>, r: (int, int)) -> bool {
    !(0 <= r.0 < frames.len() && r.1 >= frames[r.0].duration_ms)
}

/// A walk neither enlarges its budget nor leaves the frame range.
proof fn lemma_walk_basic(frames: Seq<Frame>, f: int, e: int, fuel: nat)
    requires
        frames.len() > 0,
        0 <= f < frames.len(),
        0 <= e,
    ensures
        0 <= walk(frames, f, e, fuel).1 <= e,
        0 <= walk(frames, f, e, fuel).0 < frames.len(),
    decreases fuel,
{
    let n = frames.len() as int;
    if fuel > 0 && e >= frames[f].duration_ms {
        lemma_mod_bound(f + 1, n);
        lemma_walk_basic(frames, (f + 1) % n, e - frames[f].duration_ms, (fuel - 1) as nat);
    }
}

/// Once a walk stops of its own accord, giving it more fuel changes nothing.
proof fn lemma_walk_fuel_mono(frames: Seq<Frame>, f: int, e: int, fuel1: nat, fuel2: nat)
    requires
        walk_done(frames, walk(frames, f, e, fuel1)),
        fuel1 <= fuel2,
    ensures
        walk(frames, f, e, fuel2) == walk(frames, f, e, fuel1),
    decreases fuel1,
{
    let n = frames.len() as int;
    if fuel1 > 0 && 0 <= f < n && e >= frames[f].duration_ms {
        lemma_walk_fuel_mono(
            frames,
            (f + 1) % n,
            e - frames[f].duration_ms,
            (fuel1 - 1) as nat,
            (fuel2 - 1) as nat,
        );
    }
}

/// A budget smaller than the sum of the next `j` frame durations is used up
/// within `j` steps: the walk stops of its own accord.
proof fn lemma_walk_completes(frames: Seq<Frame>, f: int, e: int, j: nat)
    requires
        frames.len() > 0,
        0 <= f < frames.len(),
        0 <= e < cycle_sum(frames, f, j),
    ensures
        walk_done(frames, walk(frames, f, e, j)),
    decreases j,
{
    let n = frames.len() as int;
    if j > 0 && e >= frames[f].duration_ms {
        lemma_mod_bound(f + 1, n);
        lemma_walk_completes(frames, (f + 1) % n, e - frames[f].duration_ms, (j - 1) as nat);
    }
}

/// A budget smaller than one full cycle is used up within one lap.
proof fn lemma_walk_completes_total(frames: Seq<Frame>, f: int, e: int)
    requires
        frames.len() > 0,
        0 <= f < frames.len(),
        0 <= e < total_ms(frames),
    ensures
        walk_done(frames, walk(frames, f, e, frames.len())),
{
    lemma_cycle_sum_full_lap(frames, f);
    lemma_walk_completes(frames, f, e, frames.len());
}

/// A budget that covers the next `j` frames whole is consumed exactly: the
/// walk takes those `j` steps and continues from there with the remainder.
proof fn lemma_walk_consume(frames: Seq<Frame>, f: int, j: nat, y: int, m: nat)
    requires
        frames.len() > 0,
        0 <= f < frames.len(),
        0 <= y,
    ensures
        walk(frames, f, cycle_sum(frames, f, j) + y, j + m) == walk(
            frames,
            (f + j) % (frames.len() as int),
            y,
            m,
        ),
    decreases j,
{
    let n = frames.len() as int;
    if j == 0 {
        lemma_small_mod(f as nat, n as nat);
    } else {
        let f1 = (f + 1) % n;
        lemma_mod_bound(f + 1, n);
        lemma_cycle_sum_nonneg(frames, f1, (j - 1) as nat);
        lemma_walk_consume(frames, f1, (j - 1) as nat, y, m);
        lemma_add_mod_noop_right(j - 1, f + 1, n);
    }
}

/// Adding budget to a finished walk is the same as walking the combined
/// budget from the start: the remainder carries over exactly.
proof fn lemma_walk_shift(frames: Seq<Frame>, f: int, e: int, fuel: nat, x: int, m: nat)
    requires
        frames.len() > 0,
        0 <= f < frames.len(),
        0 <= e,
        0 <= x,
        walk_done(frames, walk(frames, f, e, fuel)),
        walk_done(frames, walk(frames, walk(frames, f, e, fuel).0, x, m)),
    ensures
        walk(frames, f, (e - walk(frames, f, e, fuel).1) + x, (fuel + m) as nat) == walk(
            frames,
            walk(frames, f, e, fuel).0,
            x,
            m,
        ),
    decreases fuel,
{
    let n = frames.len() as int;
    if fuel > 0 && e >= frames[f].duration_ms {
        let f2 = (f + 1) % n;
        let e2 = e - frames[f].duration_ms;
        lemma_mod_bound(f + 1, n);
        lemma_walk_basic(frames, f2, e2, (fuel - 1) as nat);
        lemma_walk_shift(frames, f2, e2, (fuel - 1) as nat, x, m);
    } else {
        lemma_walk_fuel_mono(frames, f, x, m, fuel + m);
    }
}

/// The animation cursor after a tick at time `now`: frame index and new time
/// origin. The origin advances by exact frame durations, so remainder time
/// carries over to the next tick instead of being discarded; only a cycle of
/// zero total length moves the origin to the tick's own time.
pub open spec fn tick_cursor(frames: Seq<Frame>, frame: int, origin: int, now: int) -> (int, int) {
    let n = frames.len() as int;
    let f0 = if frame >= n {
        0
    } else {
        frame
    };
    let t = total_ms(frames);
    // A tick dated before the origin counts as zero elapsed time.
    let m = if now >= origin {
        now
    } else {
        origin
    };
    if t > 0 {
        let w = walk(frames, f0, (m - origin) % t, frames.len());
        (w.0, m - w.1)
    } else {
        (f0, m)
    }
}

/// The engine state after `tick` at time `now`.
pub open spec fn tick_t(s: LightsV, now: int) -> LightsV {
    match s.pattern {
        PatternV::Off => LightsV { last: black(), ..s },
        PatternV::Solid(c) => LightsV { last: c, ..s },
        PatternV::Custom(frames) => {
            if frames.len() == 0 {
                LightsV { frame: 0, origin_ms: now, last: black(), ..s }
            } else {
                let w = tick_cursor(frames, s.frame, s.origin_ms, now);
                LightsV { frame: w.0, origin_ms: w.1, last: frames[w.0].color, ..s }
            }
        },
    }
}

/// The render command `tick` emits at time `now`: the newly displayed color
/// when it differs from the last rendered one, nothing otherwise.
pub open spec fn tick_emit(s: LightsV, now: int) -> Option<Color> {
    let c = tick_t(s, now).last;
    if c != s.last {
        Some(c)
    } else {
        None
    }
}

/// The length of one full animation cycle, in milliseconds.
pub fn cycle_total(frames: &Vec<Frame>) -> (t: u64)
    requires
        total_ms(frames@) <= u64::MAX,
    ensures
        t as int == total_ms(frames@),
{
    let n = frames.len();
    let mut acc: u64 = 0;
    let mut i: usize = 0;
    while i < n
        invariant
            0 <= i <= n,
            n == frames@.len(),
            total_ms(frames@) <= u64::MAX,
            acc as int == cycle_sum(frames@, 0, i as nat),
        decreases n - i,
    {
        proof {
            let fs = frames@;
            let ni = n as int;
            reveal_with_fuel(cycle_sum, 2);
            lemma_cycle_sum_split(fs, 0, (i + 1) as nat, (n - i - 1) as nat);
            if i + 1 < n {
                lemma_small_mod((i + 1) as nat, n as nat);
            } else {
                lemma_mod_self_0(ni);
            }
            lemma_cycle_sum_nonneg(fs, (0 + (i + 1)) % ni, (n - i - 1) as nat);
            lemma_cycle_sum_split(fs, 0, i as nat, 1);
            lemma_small_mod(i as nat, n as nat);
            assert(cycle_sum(fs, i as int, 1) == fs[i as int].duration_ms);
        }
        acc = acc + frames[i].duration_ms;
        i = i + 1;
    }
    acc
}

/// Can the engine run this pattern? True unless the animation's total cycle
/// length overflows the engine's millisecond arithmetic. Callers check this
/// before handing a pattern to `Lights::new` or `Lights::set_pattern`.
pub fn pattern_is_valid(p: &Pattern) -> (r: bool)
    ensures
        r == valid_pattern(p@),
{
    match p {
        Pattern::Off => true,
        Pattern::Solid(_) => true,
        Pattern::Custom(frames) => {
            let n = frames.len();
            let mut acc: u64 = 0;
            let mut i: usize = 0;
            while i < n
                invariant
                    0 <= i <= n,
                    n == frames@.len(),
                    acc as int == cycle_sum(frames@, 0, i as nat),
                    p@ == PatternV::Custom(frames@),
                decreases n - i,
            {
                proof {
                    let fs = frames@;
                    let ni = n as int;
                    reveal_with_fuel(cycle_sum, 2);
                    lemma_cycle_sum_split(fs, 0, (i + 1) as nat, (n - i - 1) as nat);
                    if i + 1 < n {
                        lemma_small_mod((i + 1) as nat, n as nat);
                    } else {
                        lemma_mod_self_0(ni);
                    }
                    lemma_cycle_sum_nonneg(fs, (0 + (i + 1)) % ni, (n - i - 1) as nat);
                    lemma_cycle_sum_split(fs, 0, i as nat, 1);
                    lemma_small_mod(i as nat, n as nat);
                    assert(cycle_sum(fs, i as int, 1) == fs[i as int].duration_ms);
                }
                let d = frames[i].duration_ms;
                if d > u64::MAX - acc {
                    proof {
                        assert(cycle_sum(frames@, 0, (i + 1) as nat) == acc + d);
                        assert(total_ms(frames@) >= cycle_sum(frames@, 0, (i + 1) as nat));
                        assert(total_ms(frames@) > u64::MAX);
                    }
                    return false;
                }
                acc = acc + d;
                i = i + 1;
            }
            true
        },
    }
}

impl Lights {
    /// Creates the engine showing `pattern`, with the cursor at frame 0 and
    /// the time origin at `now_ms`.
    ///
    /// The last rendered color starts as black: the caller is expected to
    /// force the output to black before the first tick, establishing a known
    /// starting state.
    pub fn new(pattern: Pattern, now_ms: u64) -> (r: Lights)
        requires
            valid_pattern(pattern@),
        ensures
            r@ == (LightsV {
                pattern: pattern@,
                frame: 0,
                origin_ms: now_ms as int,
                last: black(),
            }),
            r@.wf(),
    {
        Lights { pattern, frame: 0, origin_ms: now_ms, last: Color { red: 0, green: 0, blue: 0 } }
    }

    /// The color the engine should be showing now. A pure read: the cursor
    /// does not move.
    pub fn get(&self) -> (c: Color)
        requires
            self@.wf(),
        ensures
            c == displayed_color(self@),
    {
        match &self.pattern {
            Pattern::Off => Color { red: 0, green: 0, blue: 0 },
            Pattern::Solid(color) => *color,
            Pattern::Custom(frames) => {
                if frames.len() == 0 {
                    Color { red: 0, green: 0, blue: 0 }
                } else {
                    frames[self.frame].color
                }
            },
        }
    }

    /// Switches unconditionally to showing `color` steadily.
    pub fn set(&mut self, color: Color)
        ensures
            final(self)@ == set_t(old(self)@, color),
            final(self)@.wf(),
    {
        self.pattern = Pattern::Solid(color);
    }

    /// Replaces the whole pattern. The cursor resets to frame 0 with a fresh
    /// time origin, so a newly applied animation starts from its first frame.
    pub fn set_pattern(&mut self, pattern: Pattern, now_ms: u64)
        requires
            valid_pattern(pattern@),
        ensures
            final(self)@ == set_pattern_t(old(self)@, pattern@, now_ms as int),
            final(self)@.wf(),
    {
        self.pattern = pattern;
        self.frame = 0;
        self.origin_ms = now_ms;
    }

    /// The current pattern, read-only.
    pub fn get_pattern(&self) -> (p: &Pattern)
        ensures
            p@ == self@.pattern,
    {
        &self.pattern
    }

    /// Advances the animation cursor by elapsed wall-clock time and decides
    /// what to render.
    ///
    /// Returns the color the output must now be set to, or `None` when the
    /// output already shows it (redundant writes are suppressed). The time
    /// origin advances by exact frame durations, never to `now_ms` itself,
    /// so timing error does not accumulate across ticks.
    pub fn tick(&mut self, now_ms: u64) -> (render: Option<Color>)
        requires
            old(self)@.wf(),
        ensures
            final(self)@ == tick_t(old(self)@, now_ms as int),
            render == tick_emit(old(self)@, now_ms as int),
            final(self)@.wf(),
    {
        let ghost s0 = self@;
        let new_frame: usize;
        let new_origin: u64;
        let next: Color;
        match &self.pattern {
            Pattern::Off => {
                new_frame = self.frame;
                new_origin = self.origin_ms;
                next = Color { red: 0, green: 0, blue: 0 };
            },
            Pattern::Solid(color) => {
                new_frame = self.frame;
                new_origin = self.origin_ms;
                next = *color;
            },
            Pattern::Custom(frames) => {
                let n = frames.len();
                if n == 0 {
                    new_frame = 0;
                    new_origin = now_ms;
                    next = Color { red: 0, green: 0, blue: 0 };
                } else {
                    let mut f: usize = if self.frame >= n {
                        0
                    } else {
                        self.frame
                    };
                    let total = cycle_total(frames);
                    let m: u64 = if now_ms >= self.origin_ms {
                        now_ms
                    } else {
                        self.origin_ms
                    };
                    if total > 0 {
                        let e0: u64 = m - self.origin_ms;
                        let mut e: u64 = e0 % total;
                        let ghost f_start = f as int;
                        let ghost e_start = e as int;
                        let ghost mut j: nat = 0;
                        proof {
                            lemma_mod_bound(e0 as int, total as int);
                            lemma_mod_decreases(e0 as nat, total as nat);
                            lemma_small_mod(f as nat, n as nat);
                        }
                        while e >= frames[f].duration_ms
                            invariant
                                n == frames@.len(),
                                n > 0,
                                total as int == total_ms(frames@),
                                total > 0,
                                0 <= j <= n,
                                f < n,
                                f as int == (f_start + j) % (n as int),
                                0 <= f_start < n,
                                e as int == e_start - cycle_sum(frames@, f_start, j),
                                0 <= e_start < total,
                                walk(frames@, f as int, e as int, (n - j) as nat) == walk(
                                    frames@,
                                    f_start,
                                    e_start,
                                    n as nat,
                                ),
                            decreases n - j,
                        {
                            proof {
                                // A full lap would have consumed the whole
                                // cycle, more than the budget: j < n.
                                if j == n {
                                    lemma_cycle_sum_full_lap(frames@, f_start);
                                    assert(false);
                                }
                                reveal_with_fuel(cycle_sum, 2);
                                lemma_cycle_sum_split(frames@, f_start, j, 1);
                                assert(cycle_sum(frames@, (f_start + j) % (n as int), 1)
                                    == frames@[f as int].duration_ms);
                            }
                            e = e - frames[f].duration_ms;
                            f = if f + 1 == n {
                                0
                            } else {
                                f + 1
                            };
                            proof {
                                let ni = n as int;
                                lemma_add_mod_noop_right(1, f_start + j, ni);
                                if f == 0 {
                                    lemma_mod_self_0(ni);
                                } else {
                                    lemma_small_mod(f as nat, n as nat);
                                }
                                j = j + 1;
                            }
                        }
                        proof {
                            lemma_cycle_sum_nonneg(frames@, f_start, j);
                        }
                        new_frame = f;
                        new_origin = m - e;
                        next = frames[f].color;
                    } else {
                        new_frame = f;
                        new_origin = m;
                        next = frames[f].color;
                    }
                }
            },
        }
        self.frame = new_frame;
        self.origin_ms = new_origin;
        proof {
            assert(self@ == LightsV { last: s0.last, ..tick_t(s0, now_ms as int) });
            assert(next == tick_t(s0, now_ms as int).last);
        }
        if next != self.last {
            self.last = next;
            Some(next)
        } else {
            None
        }
    }
}

/// Ticking twice is ticking once: the cursor a tick computes depends only on
/// the starting origin and the final time, not on how the elapsed time was
/// chunked across ticks. This is the drift-correction guarantee.
pub proof fn lemma_cursor_compose(frames: Seq<Frame>, f0: int, o0: int, n1: int, n2: int)
    requires
        frames.len() > 0,
        0 <= f0 < frames.len(),
        0 <= o0 <= n1 <= n2,
    ensures
        0 <= tick_cursor(frames, f0, o0, n1).0 < frames.len(),
        tick_cursor(frames, f0, o0, n1).1 <= n1,
        tick_cursor(
            frames,
            tick_cursor(frames, f0, o0, n1).0,
            tick_cursor(frames, f0, o0, n1).1,
            n2,
        ) == tick_cursor(frames, f0, o0, n2),
{
    let n = frames.len() as int;
    let t = total_ms(frames);
    lemma_cycle_sum_nonneg(frames, 0, frames.len());
    if t > 0 {
        let big_e1 = n1 - o0;
        let em = big_e1 % t;
        lemma_mod_bound(big_e1, t);
        let w1 = walk(frames, f0, em, frames.len());
        let f1 = w1.0;
        let e1 = w1.1;
        lemma_walk_basic(frames, f0, em, frames.len());
        lemma_walk_completes_total(frames, f0, em);
        let oa = n1 - e1;
        let c1 = em - e1;
        assert(tick_cursor(frames, f0, o0, n1) == (f1, oa));

        let big_e2 = n2 - oa;
        let em2 = big_e2 % t;
        lemma_mod_bound(big_e2, t);
        let w2 = walk(frames, f1, em2, frames.len());
        lemma_walk_completes_total(frames, f1, em2);

        let big_et = n2 - o0;
        let emt = big_et % t;
        lemma_mod_bound(big_et, t);
        let wt = walk(frames, f0, emt, frames.len());

        // The two target budgets agree modulo the cycle length.
        assert(emt == (em2 + c1) % t) by {
            lemma_add_mod_noop_right(n2 - n1, big_e1, t);
            assert(((n2 - n1) + em) % t == big_et % t);
            lemma_add_mod_noop(big_e2, c1, t);
            lemma_small_mod(c1 as nat, t as nat);
            assert((em2 + c1) % t == (big_e2 + c1) % t);
            assert(big_e2 + c1 == (n2 - n1) + em);
        }

        if em2 + c1 < t {
            lemma_small_mod((em2 + c1) as nat, t as nat);
            assert(emt == em2 + c1);
            lemma_walk_shift(frames, f0, em, frames.len(), em2, frames.len());
            assert(walk(frames, f0, c1 + em2, (frames.len() + frames.len()) as nat) == w2);
            lemma_walk_completes_total(frames, f0, emt);
            lemma_walk_fuel_mono(
                frames,
                f0,
                emt,
                frames.len(),
                (frames.len() + frames.len()) as nat,
            );
            assert(wt == w2);
        } else {
            assert(emt == em2 + c1 - t) by {
                lemma_mod_sub_multiples_vanish(em2 + c1, t);
                lemma_small_mod((em2 + c1 - t) as nat, t as nat);
            }
            lemma_cycle_sum_full_lap(frames, f0);
            lemma_walk_consume(frames, f0, frames.len(), emt, frames.len());
            assert((f0 + frames.len()) % n == f0) by {
                lemma_mod_add_multiples_vanish(f0, n);
                lemma_small_mod(f0 as nat, n as nat);
            }
            assert(walk(frames, f0, t + emt, (frames.len() + frames.len()) as nat) == wt);
            lemma_walk_shift(frames, f0, em, frames.len(), em2, frames.len());
            assert(walk(frames, f0, c1 + em2, (frames.len() + frames.len()) as nat) == w2);
            assert(t + emt == c1 + em2);
            assert(wt == w2);
        }
        assert(tick_cursor(frames, f1, oa, n2) == (w2.0, n2 - w2.1));
        assert(tick_cursor(frames, f0, o0, n2) == (wt.0, n2 - wt.1));
    }
}

/// Drift correction: however irregular the tick times, the state after
/// ticking at `n1` and then at `n2` is exactly the state after a single tick
/// at `n2`. Elapsed time is never lost or double-counted between ticks.
pub proof fn lemma_tick_drift(s: LightsV, n1: int, n2: int)
    requires
        s.wf(),
        s.origin_ms <= n1 <= n2,
    ensures
        tick_t(tick_t(s, n1), n2) == tick_t(s, n2),
{
    match s.pattern {
        PatternV::Off => {},
        PatternV::Solid(c) => {},
        PatternV::Custom(frames) => {
            if frames.len() > 0 {
                lemma_cursor_compose(frames, s.frame, s.origin_ms, n1, n2);
            }
        },
    }
}

/// After a tick the engine shows exactly what was last rendered: `get`
/// agrees with the color `tick` decided on.
pub proof fn lemma_tick_shows_rendered(s: LightsV, now: int)
    requires
        s.wf(),
    ensures
        displayed_color(tick_t(s, now)) == tick_t(s, now).last,
{
}

/// A full cycle later the animation is at the same frame, with the time
/// origin advanced by exactly one cycle: the animation cycles forever and
/// never terminates.
pub proof fn lemma_animation_cycles(frames: Seq<Frame>, f0: int, o0: int, now: int)
    requires
        frames.len() > 0,
        0 <= o0 <= now,
    ensures
        tick_cursor(frames, f0, o0, now + total_ms(frames)).0 == tick_cursor(
            frames,
            f0,
            o0,
            now,
        ).0,
        tick_cursor(frames, f0, o0, now + total_ms(frames)).1 == tick_cursor(
            frames,
            f0,
            o0,
            now,
        ).1 + total_ms(frames),
{
    let t = total_ms(frames);
    lemma_cycle_sum_nonneg(frames, 0, frames.len());
    if t > 0 {
        lemma_mod_add_multiples_vanish(now - o0, t);
    }
}

/// Setting the same color twice changes nothing the second time: after
/// `set(c)` and a tick, the engine shows `c`; a second `set(c)` and tick
/// emit no render command at all.
pub proof fn lemma_set_idempotent(s: LightsV, c: Color, n1: int, n2: int)
    ensures
        displayed_color(set_t(s, c)) == c,
        tick_t(set_t(s, c), n1).last == c,
        tick_emit(set_t(s, c), n1) == (if c != s.last {
            Some(c)
        } else {
            None::<Color>
        }),
        tick_emit(set_t(tick_t(set_t(s, c), n1), c), n2) == None::<Color>,
        displayed_color(set_t(tick_t(set_t(s, c), n1), c)) == c,
{
}

/// An empty `Custom` pattern renders black and never advances a cursor: a
/// tick parks the cursor at frame 0 and emits at most the switch to black.
pub proof fn lemma_empty_custom_black(s: LightsV, now: int)
    requires
        s.pattern == PatternV::Custom(Seq::<Frame>::empty()),
    ensures
        displayed_color(s) == black(),
        tick_t(s, now).frame == 0,
        tick_t(s, now).last == black(),
        tick_t(s, now).pattern == s.pattern,
        displayed_color(tick_t(s, now)) == black(),
{
}

} // verus!

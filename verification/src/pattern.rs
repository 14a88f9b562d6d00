//! Lighting patterns: off, a solid color, or a cyclic timed animation.

use vstd::prelude::*;
use vstd::arithmetic::div_mod::{lemma_add_mod_noop_right, lemma_mod_self_0, lemma_small_mod};
use crate::color::Color;

verus! {

/// One step of a `Custom` animation: a color shown for a duration, in
/// milliseconds.
#[derive(Clone, Copy, PartialEq, Eq, Structural, Debug)]
pub struct Frame {
    pub color: Color,
    pub duration_ms: u64,
}

/// What the fixture should show: nothing, one color, or a cyclic animation.
///
/// A `Custom` pattern with no frames is degenerate and renders black, like
/// `Off`. A pattern is replaced whole, never edited in place.
#[derive(Clone, PartialEq, Debug)]
pub enum Pattern {
    Off,
    Solid(Color),
    Custom(Vec<Frame>),
}

/// The mathematical model of a `Pattern`: frames as a sequence.
pub enum PatternV {
    Off,
    Solid(Color),
    Custom(Seq<Frame>),
}

impl View for Pattern {
    type V = PatternV;

    open spec fn view(&self) -> PatternV {
        match self {
            Pattern::Off => PatternV::Off,
            Pattern::Solid(c) => PatternV::Solid(*c),
            Pattern::Custom(frames) => PatternV::Custom(frames@),
        }
    }
}

/// The sum of the durations of `count` consecutive frames starting at index
/// `start`, wrapping around the end of the sequence.
pub open spec fn cycle_sum(frames: Seq<Frame>, start: int, count: nat) -> int
    decreases count,
{
    if count == 0 {
        0
    } else {
        frames[start].duration_ms + cycle_sum(
            frames,
            (start + 1) % (frames.len() as int),
            (count - 1) as nat,
        )
    }
}

/// The duration of one full cycle of an animation, in milliseconds.
pub open spec fn total_ms(frames: Seq<Frame>) -> int {
    cycle_sum(frames, 0, frames.len())
}

/// A pattern the engine can run: the total animation cycle length fits the
/// engine's millisecond arithmetic.
pub open spec fn valid_pattern(p: PatternV) -> bool {
    match p {
        PatternV::Custom(frames) => total_ms(frames) <= u64::MAX,
        _ => true,
    }
}

/// A cycle sum is never negative.
pub proof fn lemma_cycle_sum_nonneg(frames: Seq<Frame>, start: int, count: nat)
    ensures
        cycle_sum(frames, start, count) >= 0,
    decreases count,
{
    if count > 0 {
        lemma_cycle_sum_nonneg(frames, (start + 1) % (frames.len() as int), (count - 1) as nat);
    }
}

/// Summing `c1 + c2` frames is summing `c1`, then `c2` more from where the
/// first run stopped.
pub proof fn lemma_cycle_sum_split(frames: Seq<Frame>, start: int, c1: nat, c2: nat)
    requires
        frames.len() > 0,
        0 <= start < frames.len(),
    ensures
        cycle_sum(frames, start, (c1 + c2) as nat) == cycle_sum(frames, start, c1) + cycle_sum(
            frames,
            (start + c1) % (frames.len() as int),
            c2,
        ),
    decreases c1,
{
    let n = frames.len() as int;
    if c1 == 0 {
        lemma_small_mod(start as nat, n as nat);
    } else {
        let next = (start + 1) % n;
        lemma_cycle_sum_split(frames, next, (c1 - 1) as nat, c2);
        assert((next + (c1 - 1)) % n == (start + c1) % n) by {
            lemma_add_mod_noop_right(c1 - 1, start + 1, n);
        }
    }
}

/// Wherever in the cycle the sum starts, one full lap sums every frame once.
pub proof fn lemma_cycle_sum_full_lap(frames: Seq<Frame>, start: int)
    requires
        frames.len() > 0,
        0 <= start < frames.len(),
    ensures
        cycle_sum(frames, start, frames.len()) == total_ms(frames),
{
    let n = frames.len() as int;
    let k = (n - start) as nat;
    lemma_cycle_sum_split(frames, 0, start as nat, k);
    lemma_small_mod(start as nat, n as nat);
    lemma_cycle_sum_split(frames, start, k, start as nat);
    assert((start + k) % n == 0) by {
        lemma_mod_self_0(n);
    }
}

} // verus!

//! How a light path goes on and ends.

use vstd::prelude::*;
use vstd::arithmetic::power2::{lemma2_to64_rest, lemma_pow2_adds, lemma_pow2_pos, pow2};
use crate::scalar::Scalar;

verus! {

/// The parameter above which a hit counts: one thousandth, so that a
/// scattered ray does not meet the surface that it leaves. The number is the
/// binary64 nearest to one thousandth: a thousand times it misses one by 96
/// units of 2^-62, less than half of its own last place.
pub fn bias() -> (r: Scalar)
    ensures
        r.bits == 0x3f50_624d_d2f1_a9fc,
        r.is_positive(),
        1000 * r.value() == pow2(1074) + 96 * pow2(1012),
{
    let r = Scalar { bits: 0x3f50_624d_d2f1_a9fc };
    proof {
        assert(r.exponent() == 1013 && r.fraction() == 0x0_624d_d2f1_a9fc);
        let unit: int = pow2(1012) as int;
        lemma_pow2_pos(1012);
        lemma2_to64_rest();
        lemma_pow2_adds(62, 1012);
        assert(1000 * (0x10_624d_d2f1_a9fc * unit) == 0x4000_0000_0000_0000 * unit + 96 * unit)
            by (nonlinear_arith);
    }
    r
}

/// What happened to a ray that was traced.
#[derive(Clone, Copy, Debug, PartialEq, Eq, Structural)]
pub enum Event {
    /// It met no surface.
    Miss,
    /// It met a surface that absorbed it.
    Absorbed,
    /// It met a surface that scattered it: the path goes on with the
    /// scattered ray.
    Scattered,
}

/// How a path ends.
#[derive(Clone, Copy, Debug, PartialEq, Eq, Structural)]
pub enum Fate {
    /// Its last ray left the scene: the path carries the background's light,
    /// attenuated by every surface on the way.
    Background,
    /// It was absorbed, or ran out of depth: the path carries no light.
    Black,
}

/// What to do next for a path.
#[derive(Clone, Copy, Debug, PartialEq, Eq, Structural)]
pub enum Step {
    /// Trace the current ray; `depth` rays may still be traced, this one
    /// included.
    Trace { depth: i32 },
    /// The path has ended.
    Done(Fate),
}

/// The first step of a path that may trace `depth` rays: with no depth there
/// is nothing to trace and the path is black.
pub open spec fn first_step(depth: int) -> Step {
    if depth <= 0 {
        Step::Done(Fate::Black)
    } else {
        Step::Trace { depth: depth as i32 }
    }
}

/// The step after a ray was traced with `depth` rays left, it included.
pub open spec fn next_step(depth: int, event: Event) -> Step {
    if depth <= 0 {
        Step::Done(Fate::Black)
    } else {
        match event {
            Event::Miss => Step::Done(Fate::Background),
            Event::Absorbed => Step::Done(Fate::Black),
            Event::Scattered => first_step(depth - 1),
        }
    }
}

/// The end of a path of depth `depth` whose rays meet with `events`, one
/// after the other; `None` while the events do not reach the path's end.
pub open spec fn fate(depth: int, events: Seq<Event>) -> Option<Fate>
    decreases events.len(),
{
    if depth <= 0 {
        Some(Fate::Black)
    } else if events.len() == 0 {
        None
    } else {
        match next_step(depth, events[0]) {
            Step::Done(end) => Some(end),
            Step::Trace { .. } => fate(depth - 1, events.skip(1)),
        }
    }
}

/// The number of rays that a path of depth `depth` traces when its rays meet
/// with `events`.
pub open spec fn traced(depth: int, events: Seq<Event>) -> nat
    decreases events.len(),
{
    if depth <= 0 || events.len() == 0 {
        0
    } else if events[0] == Event::Scattered {
        1 + traced(depth - 1, events.skip(1))
    } else {
        1
    }
}

/// The first step for a ray whose path may trace `depth` rays.
pub fn start(depth: i32) -> (step: Step)
    ensures
        step == first_step(depth as int),
{
    if depth <= 0 {
        Step::Done(Fate::Black)
    } else {
        Step::Trace { depth }
    }
}

/// The step that follows `event`, which the ray traced at `depth` met with.
pub fn advance(depth: i32, event: Event) -> (step: Step)
    ensures
        step == next_step(depth as int, event),
{
    if depth <= 0 {
        Step::Done(Fate::Black)
    } else {
        match event {
            Event::Miss => Step::Done(Fate::Background),
            Event::Absorbed => Step::Done(Fate::Black),
            Event::Scattered => start(depth - 1),
        }
    }
}

/// A path traces no more rays than its depth, whatever its rays meet with.
pub proof fn lemma_depth_bounds_path(depth: int, events: Seq<Event>)
    ensures
        traced(depth, events) <= if depth > 0 {
            depth
        } else {
            0
        },
        traced(depth, events) <= events.len(),
    decreases events.len(),
{
    if depth > 0 && events.len() > 0 && events[0] == Event::Scattered {
        lemma_depth_bounds_path(depth - 1, events.skip(1));
    }
}

/// A path has ended once as many rays were traced as its depth allows: a
/// path whose every ray is scattered ends black.
pub proof fn lemma_path_ends(depth: int, events: Seq<Event>)
    requires
        events.len() >= depth,
    ensures
        fate(depth, events) is Some,
        (forall|k: int| 0 <= k < events.len() ==> events[k] == Event::Scattered) ==> fate(
            depth,
            events,
        ) == Some(Fate::Black),
    decreases events.len(),
{
    if depth > 0 {
        let rest = events.skip(1);
        assert forall|k: int| 0 <= k < rest.len() implies rest[k] == events[k + 1] by {
        }
        lemma_path_ends(depth - 1, rest);
    }
}

} // verus!

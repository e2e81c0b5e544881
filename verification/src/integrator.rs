//! Control flow of the recursive shading integrator.
//!
//! Per trace, the renderer alternates numeric work with decisions: it
//! intersects the ray against the scene, asks the struck material to
//! scatter, and either recurses on the scattered ray or stops. The numeric
//! work runs outside this library; what each round reports is one
//! [`BounceEvent`]. This module holds the decisions: with a remaining
//! recursion budget and the round's event, [`trace_step`] says whether the
//! trace emits the sky gradient, emits black, or bounces with the budget
//! decremented; [`trace_outcome`] runs the whole decision loop over a
//! sequence of events.

use vstd::prelude::*;

verus! {

/// What one round of numeric work reports back to the integrator.
#[derive(Clone, Copy, PartialEq, Eq, Structural, Debug)]
pub enum BounceEvent {
    /// The ray struck nothing: the background gradient is the light source.
    Miss,
    /// The ray struck a surface and the material absorbed it.
    Absorbed,
    /// The ray struck a surface and the material scattered a new ray.
    Scattered,
}

/// The integrator's decision for one round.
#[derive(Clone, Copy, PartialEq, Eq, Structural, Debug)]
pub enum TraceStep {
    /// Terminal: evaluate the sky gradient for this ray.
    Sky,
    /// Terminal: no light returns along this path.
    Black,
    /// Continue: trace the scattered ray with the remaining budget.
    Bounce { remaining: i32 },
}

/// How a finished trace terminated.
#[derive(Clone, Copy, PartialEq, Eq, Structural, Debug)]
pub enum TraceEnd {
    /// The last ray missed the scene: the sky gradient is emitted.
    Sky,
    /// The budget ran out, or a material absorbed the ray: black is emitted.
    Black,
}

/// A finished trace: its terminal, and how many rays were scattered (how
/// many attenuation factors the radiance estimate multiplies) on the way.
#[derive(Clone, Copy, PartialEq, Eq, Structural, Debug)]
pub struct TraceOutcome {
    pub end: TraceEnd,
    pub bounces: usize,
}

/// The integrator's decision: with no budget left the trace is black
/// whatever happened; otherwise a miss emits the sky, absorption emits
/// black, and a scatter bounces with one unit of budget spent.
pub open spec fn spec_trace_step(depth: i32, ev: BounceEvent) -> TraceStep {
    if depth <= 0 {
        TraceStep::Black
    } else {
        match ev {
            BounceEvent::Miss => TraceStep::Sky,
            BounceEvent::Absorbed => TraceStep::Black,
            BounceEvent::Scattered => TraceStep::Bounce { remaining: (depth - 1) as i32 },
        }
    }
}

/// One round of the integrator's control flow.
pub fn trace_step(depth: i32, ev: BounceEvent) -> (step: TraceStep)
    ensures
        step == spec_trace_step(depth, ev),
{
    if depth <= 0 {
        TraceStep::Black
    } else {
        match ev {
            BounceEvent::Miss => TraceStep::Sky,
            BounceEvent::Absorbed => TraceStep::Black,
            BounceEvent::Scattered => TraceStep::Bounce { remaining: depth - 1 },
        }
    }
}

/// The terminal a trace reaches from budget `depth` when successive rounds
/// report `events`, or `None` when `events` ends before a terminal.
pub open spec fn spec_trace_end(depth: i32, events: Seq<BounceEvent>) -> Option<TraceEnd>
    decreases events.len(),
{
    if depth <= 0 {
        Some(TraceEnd::Black)
    } else if events.len() == 0 {
        None
    } else {
        match events[0] {
            BounceEvent::Miss => Some(TraceEnd::Sky),
            BounceEvent::Absorbed => Some(TraceEnd::Black),
            BounceEvent::Scattered => spec_trace_end((depth - 1) as i32, events.drop_first()),
        }
    }
}

/// How many rays the same trace scatters before its terminal.
pub open spec fn spec_trace_bounces(depth: i32, events: Seq<BounceEvent>) -> int
    decreases events.len(),
{
    if depth <= 0 {
        0
    } else if events.len() == 0 {
        0
    } else {
        match events[0] {
            BounceEvent::Miss => 0,
            BounceEvent::Absorbed => 0,
            BounceEvent::Scattered => 1 + spec_trace_bounces(
                (depth - 1) as i32,
                events.drop_first(),
            ),
        }
    }
}

/// Runs the integrator's decision loop over a whole event sequence:
/// `events[k]` is what the numeric work reports at the trace's `k`-th
/// round. Returns `None` when the sequence ends before a terminal is
/// reached — which cannot happen once `events` holds at least `depth`
/// rounds.
pub fn trace_outcome(depth: i32, events: &Vec<BounceEvent>) -> (r: Option<TraceOutcome>)
    ensures
        match r {
            Some(o) => Some(o.end) == spec_trace_end(depth, events@) && o.bounces
                == spec_trace_bounces(depth, events@),
            None => spec_trace_end(depth, events@) is None,
        },
        events@.len() >= depth ==> r is Some,
{
    let mut remaining: i32 = depth;
    let mut i: usize = 0;
    proof {
        assert(events@.skip(0) =~= events@);
    }
    loop
        invariant
            0 <= i <= events@.len(),
            remaining == depth - i,
            spec_trace_end(depth, events@) == spec_trace_end(remaining, events@.skip(i as int)),
            spec_trace_bounces(depth, events@) == i + spec_trace_bounces(
                remaining,
                events@.skip(i as int),
            ),
        decreases events@.len() - i,
    {
        if remaining <= 0 {
            return Some(TraceOutcome { end: TraceEnd::Black, bounces: i });
        }
        if i == events.len() {
            return None;
        }
        match events[i] {
            BounceEvent::Miss => {
                return Some(TraceOutcome { end: TraceEnd::Sky, bounces: i });
            },
            BounceEvent::Absorbed => {
                return Some(TraceOutcome { end: TraceEnd::Black, bounces: i });
            },
            BounceEvent::Scattered => {
                proof {
                    assert(events@.skip(i as int).drop_first() =~= events@.skip(i + 1));
                    assert(events@.skip(i as int)[0] == events@[i as int]);
                }
                remaining = remaining - 1;
                i = i + 1;
            },
        }
    }
}

/// An exhausted recursion budget is terminal: whatever the rounds would
/// report, a trace whose budget is spent emits black at once, and scatters
/// no ray.
pub proof fn lemma_depth_exhausted(depth: i32, events: Seq<BounceEvent>)
    requires
        depth <= 0,
    ensures
        spec_trace_end(depth, events) == Some(TraceEnd::Black),
        spec_trace_bounces(depth, events) == 0,
{
}

/// The recursion budget bounds the trace: no trace scatters more than
/// `depth` rays, whatever the rounds report.
pub proof fn lemma_bounces_bounded(depth: i32, events: Seq<BounceEvent>)
    ensures
        0 <= spec_trace_bounces(depth, events),
        spec_trace_bounces(depth, events) <= if depth >= 0 {
            depth as int
        } else {
            0
        },
    decreases events.len(),
{
    if depth <= 0 || events.len() == 0 {
    } else {
        match events[0] {
            BounceEvent::Scattered => {
                lemma_bounces_bounded((depth - 1) as i32, events.drop_first());
            },
            _ => {},
        }
    }
}

/// A trace always reaches a terminal once the rounds outnumber the budget:
/// each bounce spends one unit, and a spent budget is terminal.
pub proof fn lemma_trace_total(depth: i32, events: Seq<BounceEvent>)
    requires
        events.len() >= depth,
    ensures
        spec_trace_end(depth, events) is Some,
    decreases events.len(),
{
    if depth <= 0 || events.len() == 0 {
    } else {
        match events[0] {
            BounceEvent::Scattered => {
                lemma_trace_total((depth - 1) as i32, events.drop_first());
            },
            _ => {},
        }
    }
}

} // verus!

//! The decisions of the path-tracing integrator, apart from the arithmetic on
//! radiance. A path starts with a bounce budget; each traced segment either
//! ends the path (black, or lit by the environment) or continues it with one
//! bounce less. The budget is a hard cutoff: there is no Russian roulette.
use vstd::prelude::*;

verus! {

/// What tracing one segment of a path found.
#[derive(Clone, Copy, Debug, PartialEq, Eq)]
pub enum SegmentEvent {
    /// The ray hit nothing and escapes to the environment.
    Miss,
    /// The ray hit the back side of a surface: the direction has a
    /// non-negative dot product with the shading normal.
    BackFace,
    /// The ray hit the front side of a surface and a continuation direction
    /// was sampled; says whether its cosine with the normal exceeds epsilon.
    FrontFace { cosine_above_epsilon: bool },
}

/// How a path ended.
#[derive(Clone, Copy, Debug, PartialEq, Eq)]
pub enum Termination {
    /// The path carries no radiance.
    Black,
    /// The path carries the environment's radiance along its last direction.
    Environment,
}

/// The state of one path.
#[derive(Clone, Copy, Debug, PartialEq, Eq)]
pub enum PathState {
    /// A segment is still to be traced, with this many bounces left (never 0).
    Active { bounces_left: u32 },
    /// The path is finished.
    Done(Termination),
}

impl PathState {
    /// An active path has a positive budget.
    pub open spec fn wf(self) -> bool {
        match self {
            PathState::Active { bounces_left } => bounces_left > 0,
            PathState::Done(_) => true,
        }
    }
}

/// The state that a path with budget `max_bounces` starts in.
pub open spec fn start_spec(max_bounces: u32) -> PathState {
    if max_bounces == 0 {
        PathState::Done(Termination::Black)
    } else {
        PathState::Active { bounces_left: max_bounces }
    }
}

/// The state after one segment, traced from an active state.
pub open spec fn advance_spec(bounces_left: u32, event: SegmentEvent) -> PathState {
    match event {
        SegmentEvent::Miss => PathState::Done(Termination::Environment),
        SegmentEvent::BackFace => PathState::Done(Termination::Black),
        SegmentEvent::FrontFace { cosine_above_epsilon } => {
            if !cosine_above_epsilon {
                PathState::Done(Termination::Black)
            } else {
                start_spec((bounces_left - 1) as u32)
            }
        },
    }
}

/// The state after feeding `events` in order to a path in state `s`; a
/// finished path ignores further events.
pub open spec fn run(s: PathState, events: Seq<SegmentEvent>) -> PathState
    decreases events.len(),
{
    if events.len() == 0 {
        s
    } else {
        match s {
            PathState::Active { bounces_left } => run(
                advance_spec(bounces_left, events[0]),
                events.drop_first(),
            ),
            PathState::Done(_) => s,
        }
    }
}

/// Starts a path with a budget of `max_bounces`: with no budget it is black
/// at once.
pub fn start(max_bounces: u32) -> (r: PathState)
    ensures
        r == start_spec(max_bounces),
        r.wf(),
{
    if max_bounces == 0 {
        PathState::Done(Termination::Black)
    } else {
        PathState::Active { bounces_left: max_bounces }
    }
}

/// Moves an active path past one traced segment: a miss ends it lit by the
/// environment; a back-face hit, or a continuation at a grazing angle, ends
/// it black; otherwise it continues with one bounce less, and is black if
/// that leaves none.
pub fn advance(bounces_left: u32, event: SegmentEvent) -> (r: PathState)
    requires
        bounces_left > 0,
    ensures
        r == advance_spec(bounces_left, event),
        r.wf(),
{
    match event {
        SegmentEvent::Miss => PathState::Done(Termination::Environment),
        SegmentEvent::BackFace => PathState::Done(Termination::Black),
        SegmentEvent::FrontFace { cosine_above_epsilon } => {
            if !cosine_above_epsilon {
                PathState::Done(Termination::Black)
            } else {
                start(bounces_left - 1)
            }
        },
    }
}

/// How the radiance carried back along a bounce is weighted.
#[derive(Clone, Copy, Debug, PartialEq, Eq)]
pub enum BounceWeight {
    /// Weight 1: the reflectance is a Dirac delta (a mirror), whose value and
    /// density both read as zero.
    Unit,
    /// Weight `cosine * value / pdf`.
    CosineValueOverPdf,
}

/// Chooses the weight of a bounce from whether the reflectance's value and
/// density are indistinguishable from zero: only when both are is the bounce a
/// delta reflection.
pub fn bounce_weight(value_near_zero: bool, pdf_near_zero: bool) -> (r: BounceWeight)
    ensures
        r == (if value_near_zero && pdf_near_zero {
            BounceWeight::Unit
        } else {
            BounceWeight::CosineValueOverPdf
        }),
{
    if value_near_zero && pdf_near_zero {
        BounceWeight::Unit
    } else {
        BounceWeight::CosineValueOverPdf
    }
}

/// From an active state with `b` bounces left, a path is finished after at
/// most `b` segments.
proof fn lemma_run_bounded(b: u32, events: Seq<SegmentEvent>)
    requires
        b > 0,
        events.len() >= b,
    ensures
        run(PathState::Active { bounces_left: b }, events) is Done,
    decreases b,
{
    let next = advance_spec(b, events[0]);
    lemma_run_done(next, events.drop_first());
    if next is Active {
        lemma_run_bounded((b - 1) as u32, events.drop_first());
    }
}

/// A finished path stays finished.
proof fn lemma_run_done(s: PathState, events: Seq<SegmentEvent>)
    ensures
        s is Done ==> run(s, events) == s,
    decreases events.len(),
{
}

/// The bounce budget is a hard cutoff: whatever the segments find, a path
/// started with `max_bounces` is finished after at most `max_bounces` traced
/// segments, and stays finished.
pub proof fn lemma_path_length_bounded(max_bounces: u32, events: Seq<SegmentEvent>)
    requires
        events.len() >= max_bounces,
    ensures
        run(start_spec(max_bounces), events) is Done,
{
    if max_bounces > 0 {
        lemma_run_bounded(max_bounces, events);
    } else {
        lemma_run_done(start_spec(max_bounces), events);
    }
}

} // verus!

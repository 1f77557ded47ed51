use pathtracer::integrator::{
    advance, bounce_weight, start, BounceWeight, PathState, SegmentEvent, Termination,
};

#[test]
fn zero_budget_is_black() {
    assert_eq!(start(0), PathState::Done(Termination::Black));
    assert_eq!(start(4), PathState::Active { bounces_left: 4 });
}

#[test]
fn miss_sees_environment() {
    assert_eq!(advance(4, SegmentEvent::Miss), PathState::Done(Termination::Environment));
}

#[test]
fn back_face_is_black() {
    assert_eq!(advance(4, SegmentEvent::BackFace), PathState::Done(Termination::Black));
}

#[test]
fn grazing_continuation_is_black() {
    let ev = SegmentEvent::FrontFace { cosine_above_epsilon: false };
    assert_eq!(advance(4, ev), PathState::Done(Termination::Black));
}

#[test]
fn bounce_spends_budget() {
    let ev = SegmentEvent::FrontFace { cosine_above_epsilon: true };
    assert_eq!(advance(4, ev), PathState::Active { bounces_left: 3 });
    assert_eq!(advance(1, ev), PathState::Done(Termination::Black));
}

#[test]
fn closed_scene_path_ends_within_budget() {
    // Inside a closed surface every segment bounces; the budget still ends it.
    let ev = SegmentEvent::FrontFace { cosine_above_epsilon: true };
    let mut state = start(16);
    let mut segments = 0;
    while let PathState::Active { bounces_left } = state {
        state = advance(bounces_left, ev);
        segments += 1;
    }
    assert_eq!(segments, 16);
    assert_eq!(state, PathState::Done(Termination::Black));
}

#[test]
fn delta_reflection_has_unit_weight() {
    assert_eq!(bounce_weight(true, true), BounceWeight::Unit);
    assert_eq!(bounce_weight(true, false), BounceWeight::CosineValueOverPdf);
    assert_eq!(bounce_weight(false, true), BounceWeight::CosineValueOverPdf);
    assert_eq!(bounce_weight(false, false), BounceWeight::CosineValueOverPdf);
}

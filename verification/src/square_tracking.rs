//! Decisions of the autonomous square-tracking (payload placement) pipeline.
//!
//! The pipeline first moves the robot above the target, then lowers it onto the
//! target, then opens the claw; it ends once the claw is open. The geometric
//! tests that drive the transitions are measured on the camera image and passed
//! in as booleans.

use vstd::prelude::*;

verus! {

/// Phase of the placement.
#[derive(Clone, Copy, Debug, PartialEq, Eq, Structural)]
pub enum TrackingState {
    MoveAboveTarget,
    LowerDepth,
    ReleasePayload,
}

/// What the pipeline asks of the robot in a phase (besides keeping the target
/// centred and the robot above it, which it always does).
#[derive(Clone, Copy, Debug, PartialEq, Eq, Structural)]
pub enum TrackingAction {
    /// Hold the starting depth.
    HoldStartDepth,
    /// Lower the depth target towards the target.
    Descend,
    /// Open the claw.
    OpenClaw,
}

/// The outcome of one processed frame.
#[derive(Clone, Copy, Debug, PartialEq, Eq, Structural)]
pub struct TrackingStep {
    pub action: TrackingAction,
    pub next: TrackingState,
    /// The pipeline has finished.
    pub end: bool,
}

/// One frame of the placement: the action of the current phase, and the move
/// to the next phase once its goal (`above_target`, `at_depth`, `claw_open`) is
/// reached.
pub open spec fn spec_tracking_step(
    state: TrackingState,
    above_target: bool,
    at_depth: bool,
    claw_open: bool,
) -> TrackingStep {
    match state {
        TrackingState::MoveAboveTarget => TrackingStep {
            action: TrackingAction::HoldStartDepth,
            next: if above_target {
                TrackingState::LowerDepth
            } else {
                TrackingState::MoveAboveTarget
            },
            end: false,
        },
        TrackingState::LowerDepth => TrackingStep {
            action: TrackingAction::Descend,
            next: if at_depth {
                TrackingState::ReleasePayload
            } else {
                TrackingState::LowerDepth
            },
            end: false,
        },
        TrackingState::ReleasePayload => TrackingStep {
            action: TrackingAction::OpenClaw,
            next: TrackingState::ReleasePayload,
            end: claw_open,
        },
    }
}

/// One frame of the placement.
pub fn tracking_step(state: TrackingState, above_target: bool, at_depth: bool, claw_open: bool) -> (s:
    TrackingStep)
    ensures
        s == spec_tracking_step(state, above_target, at_depth, claw_open),
{
    match state {
        TrackingState::MoveAboveTarget => TrackingStep {
            action: TrackingAction::HoldStartDepth,
            next: if above_target {
                TrackingState::LowerDepth
            } else {
                TrackingState::MoveAboveTarget
            },
            end: false,
        },
        TrackingState::LowerDepth => TrackingStep {
            action: TrackingAction::Descend,
            next: if at_depth {
                TrackingState::ReleasePayload
            } else {
                TrackingState::LowerDepth
            },
            end: false,
        },
        TrackingState::ReleasePayload => TrackingStep {
            action: TrackingAction::OpenClaw,
            next: TrackingState::ReleasePayload,
            end: claw_open,
        },
    }
}

/// Position of a phase in the placement.
pub open spec fn phase_index(s: TrackingState) -> int {
    match s {
        TrackingState::MoveAboveTarget => 0,
        TrackingState::LowerDepth => 1,
        TrackingState::ReleasePayload => 2,
    }
}

/// The placement only moves forward, one phase at a time, and it ends only
/// while releasing the payload once the claw is open.
pub proof fn law_tracking_progress(
    state: TrackingState,
    above_target: bool,
    at_depth: bool,
    claw_open: bool,
)
    ensures
        ({
            let s = spec_tracking_step(state, above_target, at_depth, claw_open);
            &&& phase_index(state) <= phase_index(s.next) <= phase_index(state) + 1
            &&& s.end <==> (state == TrackingState::ReleasePayload && claw_open)
        }),
{
}

/// Each phase asks for its own action and is left exactly when its goal is
/// reached: above the target the robot starts to descend, at depth it releases
/// the payload, and once the claw is open the placement ends. Goals of other
/// phases play no part.
pub proof fn law_phase_goals(state: TrackingState, above_target: bool, at_depth: bool, claw_open: bool)
    ensures
        ({
            let s = spec_tracking_step(state, above_target, at_depth, claw_open);
            &&& state == TrackingState::MoveAboveTarget ==> s.action
                == TrackingAction::HoldStartDepth && (s.next == TrackingState::LowerDepth
                <==> above_target) && (s.next != TrackingState::LowerDepth ==> s.next == state)
                && !s.end
            &&& state == TrackingState::LowerDepth ==> s.action == TrackingAction::Descend && (s.next
                == TrackingState::ReleasePayload <==> at_depth) && (s.next
                != TrackingState::ReleasePayload ==> s.next == state) && !s.end
            &&& state == TrackingState::ReleasePayload ==> s.action == TrackingAction::OpenClaw
                && s.next == state && (s.end <==> claw_open)
        }),
{
}

} // verus!

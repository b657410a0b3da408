//! The robot's connection and arming state.

use vstd::prelude::*;

verus! {

/// Whether the robot may drive its actuators.
#[derive(Clone, Copy, Debug, PartialEq, Eq, Hash, Structural)]
pub enum Armed {
    Armed,
    Disarmed,
}

/// What the robot reports about itself.
#[derive(Clone, Copy, Debug, PartialEq, Eq, Hash, Structural)]
pub enum RobotStatus {
    /// No surface station is connected.
    NoPeer,
    /// Connected, actuators off.
    Disarmed,
    /// Connected, actuators live.
    Armed,
}

/// The status the robot should report: without a peer it has none; with one it
/// reports whether it is armed (a missing arming state counts as disarmed).
pub open spec fn target_status(has_peers: bool, armed: Option<Armed>) -> RobotStatus {
    if !has_peers {
        RobotStatus::NoPeer
    } else if armed == Some(Armed::Armed) {
        RobotStatus::Armed
    } else {
        RobotStatus::Disarmed
    }
}

/// The changes to make to the robot's state.
#[derive(Clone, Copy, Debug, PartialEq, Eq, Structural)]
pub struct StateUpdate {
    /// The status to store, when it differs from the current one.
    pub new_status: Option<RobotStatus>,
    /// Whether the robot must be disarmed.
    pub disarm: bool,
}

/// The changes that bring a robot's status in line with its peers and arming
/// state.
pub open spec fn spec_update_state(
    has_peers: bool,
    status: Option<RobotStatus>,
    armed: Option<Armed>,
) -> StateUpdate {
    let target = target_status(has_peers, armed);
    StateUpdate {
        new_status: if status == Some(target) {
            None
        } else {
            Some(target)
        },
        disarm: !has_peers && armed == Some(Armed::Armed),
    }
}

/// Brings the robot's status in line with its peers and arming state. A robot
/// that nobody controls is disarmed.
pub fn update_state(has_peers: bool, status: Option<RobotStatus>, armed: Option<Armed>) -> (u:
    StateUpdate)
    ensures
        u == spec_update_state(has_peers, status, armed),
{
    if has_peers {
        let target = match armed {
            Some(Armed::Armed) => RobotStatus::Armed,
            _ => RobotStatus::Disarmed,
        };
        let new_status = if status == Some(target) {
            None
        } else {
            Some(target)
        };
        StateUpdate { new_status, disarm: false }
    } else {
        let new_status = if status == Some(RobotStatus::NoPeer) {
            None
        } else {
            Some(RobotStatus::NoPeer)
        };
        let disarm = match armed {
            Some(Armed::Armed) => true,
            _ => false,
        };
        StateUpdate { new_status, disarm }
    }
}

/// The status a robot holds after an update is applied.
pub open spec fn status_after(status: Option<RobotStatus>, u: StateUpdate) -> Option<RobotStatus> {
    match u.new_status {
        Some(s) => Some(s),
        None => status,
    }
}

/// The arming state a robot holds after an update is applied.
pub open spec fn armed_after(armed: Option<Armed>, u: StateUpdate) -> Option<Armed> {
    if u.disarm {
        Some(Armed::Disarmed)
    } else {
        armed
    }
}

/// After an update the robot reports its target status; a robot without peers
/// is never left armed; and a second update changes nothing.
pub proof fn law_update_state_settles(
    has_peers: bool,
    status: Option<RobotStatus>,
    armed: Option<Armed>,
)
    ensures
        ({
            let u = spec_update_state(has_peers, status, armed);
            let u2 = spec_update_state(has_peers, status_after(status, u), armed_after(armed, u));
            &&& status_after(status, u) == Some(target_status(has_peers, armed))
            &&& (!has_peers ==> armed_after(armed, u) != Some(Armed::Armed))
            &&& u2.new_status.is_none()
            &&& !u2.disarm
        }),
{
}

} // verus!

//! What the surface station's top bar shows for each robot.

use vstd::prelude::*;
use crate::robot_state::RobotStatus;

verus! {

/// Colour of a label in the top bar.
#[derive(Clone, Copy, Debug, PartialEq, Eq, Structural)]
pub enum LabelColor {
    /// The theme's text colour.
    Text,
    Red,
    Green,
    /// RGB (66, 145, 247).
    Blue,
    /// RGB (216, 123, 2).
    Orange,
}

/// One word of a robot's status in the top bar.
#[derive(Clone, Copy, Debug, PartialEq, Eq, Structural)]
pub enum StatusLabel {
    Unknown,
    Disarmed,
    Armed,
    OrientationHold,
    DepthHold,
}

/// The colour each status label is drawn in.
pub open spec fn spec_label_color(l: StatusLabel) -> LabelColor {
    match l {
        StatusLabel::Unknown => LabelColor::Text,
        StatusLabel::Disarmed => LabelColor::Red,
        StatusLabel::Armed => LabelColor::Green,
        StatusLabel::OrientationHold => LabelColor::Blue,
        StatusLabel::DepthHold => LabelColor::Orange,
    }
}

impl StatusLabel {
    /// The text of the label.
    pub fn text(&self) -> (t: &'static str)
        ensures
            t@ == match *self {
                StatusLabel::Unknown => "Unknown"@,
                StatusLabel::Disarmed => "Disarmed"@,
                StatusLabel::Armed => "Armed"@,
                StatusLabel::OrientationHold => "Orientation Hold"@,
                StatusLabel::DepthHold => "Depth Hold"@,
            },
    {
        match *self {
            StatusLabel::Unknown => "Unknown",
            StatusLabel::Disarmed => "Disarmed",
            StatusLabel::Armed => "Armed",
            StatusLabel::OrientationHold => "Orientation Hold",
            StatusLabel::DepthHold => "Depth Hold",
        }
    }

    /// The colour of the label.
    pub fn color(&self) -> (c: LabelColor)
        ensures
            c == spec_label_color(*self),
    {
        match *self {
            StatusLabel::Unknown => LabelColor::Text,
            StatusLabel::Disarmed => LabelColor::Red,
            StatusLabel::Armed => LabelColor::Green,
            StatusLabel::OrientationHold => LabelColor::Blue,
            StatusLabel::DepthHold => LabelColor::Orange,
        }
    }
}

/// The status words of a robot: its connection and arming state, then, while it
/// is armed, the holds it keeps (orientation first, then depth).
pub open spec fn spec_status_labels(
    status: RobotStatus,
    orientation_hold: bool,
    depth_hold: bool,
) -> Seq<StatusLabel> {
    match status {
        RobotStatus::NoPeer => seq![StatusLabel::Unknown],
        RobotStatus::Disarmed => seq![StatusLabel::Disarmed],
        RobotStatus::Armed => seq![StatusLabel::Armed] + (if orientation_hold {
            seq![StatusLabel::OrientationHold]
        } else {
            Seq::empty()
        }) + (if depth_hold {
            seq![StatusLabel::DepthHold]
        } else {
            Seq::empty()
        }),
    }
}

/// The status words the top bar shows for a robot.
pub fn status_labels(status: RobotStatus, orientation_hold: bool, depth_hold: bool) -> (labels: Vec<
    StatusLabel,
>)
    ensures
        labels@ == spec_status_labels(status, orientation_hold, depth_hold),
{
    let mut labels: Vec<StatusLabel> = Vec::new();
    match status {
        RobotStatus::NoPeer => {
            labels.push(StatusLabel::Unknown);
        },
        RobotStatus::Disarmed => {
            labels.push(StatusLabel::Disarmed);
        },
        RobotStatus::Armed => {
            labels.push(StatusLabel::Armed);
            if orientation_hold {
                labels.push(StatusLabel::OrientationHold);
            }
            if depth_hold {
                labels.push(StatusLabel::DepthHold);
            }
        },
    }
    assert(labels@ =~= spec_status_labels(status, orientation_hold, depth_hold));
    labels
}

/// What the top bar says of a robot: one word for its connection and arming
/// state (Unknown without a peer, Disarmed, Armed); an armed robot adds
/// Orientation Hold exactly when it holds its orientation and Depth Hold
/// exactly when it holds its depth, each independently of the other, and
/// nothing else; a robot that is not armed shows no hold.
pub proof fn law_status_labels_meaning(status: RobotStatus, orientation_hold: bool, depth_hold: bool)
    ensures
        ({
            let l = spec_status_labels(status, orientation_hold, depth_hold);
            &&& l.len() >= 1
            &&& l[0] == match status {
                RobotStatus::NoPeer => StatusLabel::Unknown,
                RobotStatus::Disarmed => StatusLabel::Disarmed,
                RobotStatus::Armed => StatusLabel::Armed,
            }
            &&& l.contains(StatusLabel::OrientationHold) == (status == RobotStatus::Armed
                && orientation_hold)
            &&& l.contains(StatusLabel::DepthHold) == (status == RobotStatus::Armed && depth_hold)
            &&& l.len() == 1 + (if status == RobotStatus::Armed && orientation_hold {
                1int
            } else {
                0int
            }) + (if status == RobotStatus::Armed && depth_hold {
                1int
            } else {
                0int
            })
            &&& forall|i: int| 1 <= i < l.len() ==> #[trigger] l[i] == StatusLabel::OrientationHold
                || l[i] == StatusLabel::DepthHold
        }),
{
    let l = spec_status_labels(status, orientation_hold, depth_hold);
    if status == RobotStatus::Armed {
        if orientation_hold {
            assert(l[1] == StatusLabel::OrientationHold);
        }
        if depth_hold {
            assert(l[l.len() - 1] == StatusLabel::DepthHold);
        }
    }
}

} // verus!

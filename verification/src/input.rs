//! Decisions the surface station takes on operator input.

use vstd::prelude::*;
use crate::robot_state::Armed;
use crate::names::{names, opt_name, position_of, contains_name};

verus! {

/// The arming request of one input frame: disarming wins over arming.
pub open spec fn spec_arm_request(disarm: bool, arm: bool) -> Option<Armed> {
    if disarm {
        Some(Armed::Disarmed)
    } else if arm {
        Some(Armed::Armed)
    } else {
        None
    }
}

/// The arming request of one input frame, if any.
pub fn arm_request(disarm: bool, arm: bool) -> (r: Option<Armed>)
    ensures
        r == spec_arm_request(disarm, arm),
{
    if disarm {
        Some(Armed::Disarmed)
    } else if arm {
        Some(Armed::Armed)
    } else {
        None
    }
}

/// What to do with the depth hold target.
#[derive(Clone, Copy, Debug, PartialEq, Eq, Structural)]
pub enum DepthHoldAction {
    /// Leave it as it is.
    Keep,
    /// Drop the target.
    Clear,
    /// Hold the current depth.
    HoldCurrentDepth,
}

/// The depth hold toggle: pressing it drops an existing target, or holds the
/// current depth when there is none.
pub fn depth_hold_action(toggle: bool, has_target: bool) -> (a: DepthHoldAction)
    ensures
        a == (if !toggle {
            DepthHoldAction::Keep
        } else if has_target {
            DepthHoldAction::Clear
        } else {
            DepthHoldAction::HoldCurrentDepth
        }),
{
    if !toggle {
        DepthHoldAction::Keep
    } else if has_target {
        DepthHoldAction::Clear
    } else {
        DepthHoldAction::HoldCurrentDepth
    }
}

/// What to do with the orientation (leveling) target.
#[derive(Clone, Copy, Debug, PartialEq, Eq, Structural)]
pub enum LevelingAction {
    /// Leave it as it is.
    Keep,
    /// Drop the target.
    Clear,
    /// Level out, keeping the current heading, upright or upside down.
    Level { inverted: bool },
}

/// The leveling toggles: either drops an existing target; without a target,
/// the upright toggle levels upright and otherwise the inverted one levels
/// upside down.
pub fn leveling_action(toggle_upright: bool, toggle_inverted: bool, has_target: bool) -> (a:
    LevelingAction)
    ensures
        a == (if !(toggle_upright || toggle_inverted) {
            LevelingAction::Keep
        } else if has_target {
            LevelingAction::Clear
        } else {
            LevelingAction::Level { inverted: !toggle_upright }
        }),
{
    if !(toggle_upright || toggle_inverted) {
        LevelingAction::Keep
    } else if has_target {
        LevelingAction::Clear
    } else {
        LevelingAction::Level { inverted: !toggle_upright }
    }
}

// ---------------------------------------------------------------------------
// Servo selection
// ---------------------------------------------------------------------------

/// The servo that the "important servo" button selects first.
pub open spec fn important_servo() -> Seq<char> {
    "Claw1"@
}

/// The servo that the "important servo" button selects second.
pub open spec fn second_important_servo() -> Seq<char> {
    "FrontCameraRotate"@
}

/// The servo selected after one input frame, by name.
///
/// The important-servo button selects `Claw1` when another servo is selected,
/// and `FrontCameraRotate` when `Claw1` is; it does nothing when the servo it
/// would select does not exist. Otherwise, when a switch button is pressed or
/// nothing is selected yet, the selection moves to the next servo in the list
/// (previous one for the inverted switch, wrapping around), or to the first
/// servo when the selected one is not in the list.
pub open spec fn spec_select_servo(
    servos: Seq<Seq<char>>,
    selected: Option<Seq<char>>,
    switch: bool,
    switch_inverted: bool,
    select_important: bool,
) -> Option<Seq<char>> {
    if select_important {
        if selected != Some(important_servo()) {
            if servos.contains(important_servo()) {
                Some(important_servo())
            } else {
                selected
            }
        } else if servos.contains(second_important_servo()) {
            Some(second_important_servo())
        } else {
            selected
        }
    } else if (switch || switch_inverted || selected.is_none()) && servos.len() > 0 {
        let offset = if switch {
            1
        } else {
            servos.len() - 1
        };
        let idx = match selected {
            Some(name) => match servos.index_of_first(name) {
                Some(p) => (p + offset) % (servos.len() as int),
                None => 0,
            },
            None => 0,
        };
        Some(servos[idx])
    } else {
        selected
    }
}

/// The servo selected after one input frame (see [`spec_select_servo`]).
pub fn select_servo(
    servos: &Vec<String>,
    selected: Option<String>,
    switch: bool,
    switch_inverted: bool,
    select_important: bool,
) -> (r: Option<String>)
    requires
        servos@.len() < usize::MAX / 2,
    ensures
        opt_name(r) == spec_select_servo(
            names(servos@),
            opt_name(selected),
            switch,
            switch_inverted,
            select_important,
        ),
{
    let ghost ns = names(servos@);
    let claw = "Claw1".to_owned();
    let camera = "FrontCameraRotate".to_owned();
    proof {
        reveal_strlit("Claw1");
        reveal_strlit("FrontCameraRotate");
        assert(ns.len() == servos@.len());
        assert(claw@ == important_servo());
        assert(camera@ == second_important_servo());
    }
    if select_important {
        let is_claw = match &selected {
            Some(s) => *s == claw,
            None => false,
        };
        if !is_claw {
            if contains_name(servos, &claw) {
                Some(claw)
            } else {
                selected
            }
        } else if contains_name(servos, &camera) {
            Some(camera)
        } else {
            selected
        }
    } else if (switch || switch_inverted || selected.is_none()) && servos.len() > 0 {
        let len = servos.len();
        let offset = if switch {
            1
        } else {
            len - 1
        };
        let idx = match &selected {
            Some(s) => match position_of(servos, s) {
                Some(p) => {
                    proof {
                        ns.index_of_first_ensures(s@);
                    }
                    (p + offset) % len
                },
                None => 0,
            },
            None => 0,
        };
        proof {
            assert(ns[idx as int] == servos@[idx as int]@);
        }
        Some(servos[idx].clone())
    } else {
        selected
    }
}


/// Disarming wins: a frame with the disarm button disarms whatever else is
/// pressed; the arm button alone arms; neither asks for nothing.
pub proof fn law_disarm_wins(disarm: bool, arm: bool)
    ensures
        disarm ==> spec_arm_request(disarm, arm) == Some(Armed::Disarmed),
        !disarm && arm ==> spec_arm_request(disarm, arm) == Some(Armed::Armed),
        !disarm && !arm ==> spec_arm_request(disarm, arm) is None,
{
}

/// The switch buttons walk the servo list: from the servo at position `p` (of
/// distinct names) the switch selects the next one and the inverted switch the
/// previous one, wrapping around at either end; with no selection, or one that
/// is not in the list, the first servo is selected; an empty list keeps the
/// selection. Without any button the selection stays, unless there is none.
pub proof fn law_switch_walks_list(servos: Seq<Seq<char>>, p: int, other: Seq<char>)
    requires
        servos.no_duplicates(),
    ensures
        0 <= p < servos.len() ==> spec_select_servo(servos, Some(servos[p]), true, false, false)
            == Some(servos[(p + 1) % (servos.len() as int)]),
        0 <= p < servos.len() ==> spec_select_servo(servos, Some(servos[p]), false, true, false)
            == Some(servos[(p + servos.len() - 1) % (servos.len() as int)]),
        servos.len() > 0 ==> spec_select_servo(servos, None, false, false, false) == Some(servos[0]),
        servos.len() > 0 && !servos.contains(other) ==> spec_select_servo(
            servos,
            Some(other),
            true,
            false,
            false,
        ) == Some(servos[0]),
        servos.len() == 0 ==> spec_select_servo(servos, Some(other), true, true, false) == Some(
            other,
        ),
        spec_select_servo(servos, Some(other), false, false, false) == Some(other),
{
    if 0 <= p < servos.len() {
        servos.index_of_first_ensures(servos[p]);
        let q = servos.index_of_first(servos[p]).unwrap();
        assert(q == p);
    }
    if !servos.contains(other) {
        servos.index_of_first_ensures(other);
    }
}

/// The important-servo button: from any selection other than `Claw1`, no
/// selection included, it selects `Claw1` when that servo exists; from `Claw1`
/// it selects `FrontCameraRotate` when that servo exists; otherwise the
/// selection stays. The switch buttons play no part while it is pressed.
pub proof fn law_important_servo_button(
    servos: Seq<Seq<char>>,
    selected: Option<Seq<char>>,
    switch: bool,
    switch_inverted: bool,
)
    ensures
        ({
            let r = spec_select_servo(servos, selected, switch, switch_inverted, true);
            &&& selected != Some("Claw1"@) && servos.contains("Claw1"@) ==> r == Some("Claw1"@)
            &&& selected != Some("Claw1"@) && !servos.contains("Claw1"@) ==> r == selected
            &&& selected == Some("Claw1"@) && servos.contains("FrontCameraRotate"@) ==> r == Some(
                "FrontCameraRotate"@,
            )
            &&& selected == Some("Claw1"@) && !servos.contains("FrontCameraRotate"@) ==> r
                == selected
        }),
{
}

/// Switching to the next servo and then back to the previous one returns to the
/// servo selected at first, when the servo names are distinct.
pub proof fn law_switch_then_back(servos: Seq<Seq<char>>, name: Seq<char>)
    requires
        servos.no_duplicates(),
        servos.contains(name),
    ensures
        spec_select_servo(
            servos,
            spec_select_servo(servos, Some(name), true, false, false),
            false,
            true,
            false,
        ) == Some(name),
{
    servos.index_of_first_ensures(name);
    let p = servos.index_of_first(name).unwrap();
    let len = servos.len() as int;
    let q = (p + 1) % len;
    let next = servos[q];
    assert(0 <= q < len);
    servos.index_of_first_ensures(next);
    let r = servos.index_of_first(next).unwrap();
    assert(r == q);
    assert((q + (len - 1)) % len == p) by (nonlinear_arith)
        requires
            0 <= p < len,
            q == (p + 1) % len,
    ;
}

/// The selection is either the previous one or a servo of the list.
pub proof fn law_selection_in_list(
    servos: Seq<Seq<char>>,
    selected: Option<Seq<char>>,
    switch: bool,
    switch_inverted: bool,
    select_important: bool,
)
    ensures
        ({
            let r = spec_select_servo(servos, selected, switch, switch_inverted, select_important);
            r == selected || (r is Some && servos.contains(r->0))
        }),
{
    if !select_important && (switch || switch_inverted || selected.is_none()) && servos.len() > 0 {
        let len = servos.len() as int;
        let offset = if switch {
            1
        } else {
            len - 1
        };
        match selected {
            Some(name) => {
                servos.index_of_first_ensures(name);
                match servos.index_of_first(name) {
                    Some(p) => {
                        assert(0 <= (p + offset) % len < len) by (nonlinear_arith)
                            requires
                                len > 0,
                        ;
                        assert(servos.contains(servos[(p + offset) % len]));
                    },
                    None => {
                        assert(servos.contains(servos[0]));
                    },
                }
            },
            None => {
                assert(servos.contains(servos[0]));
            },
        }
    }
}


// ---------------------------------------------------------------------------
// Operator actions
// ---------------------------------------------------------------------------

/// Which way up the leveling target keeps the robot.
#[derive(Clone, Copy, Debug, PartialEq, Eq, Hash, Structural)]
pub enum LevelingType {
    Upright,
    Inverted,
}

/// An operator action that gamepad or keyboard inputs are bound to.
#[derive(Clone, Copy, Debug, PartialEq, Eq, Hash, Structural)]
pub enum Action {
    Arm,
    Disarm,
    ToggleDepthHold,
    ToggleLeveling(LevelingType),
    ToggleRobotMode,
    Surge,
    SurgeInverted,
    Heave,
    HeaveInverted,
    Sway,
    SwayInverted,
    Pitch,
    PitchInverted,
    Roll,
    RollInverted,
    Yaw,
    YawInverted,
    Servo,
    ServoCenter,
    ServoInverted,
    SwitchServo,
    SwitchServoInverted,
    SelectImportantServo,
    SwitchPitchRoll,
}

/// The action whose inputs an action's inputs move to when pitch and roll are
/// switched: pitch and roll trade places, in both directions; every other
/// action keeps its inputs.
pub open spec fn spec_pitch_roll_swapped(a: Action) -> Action {
    match a {
        Action::Pitch => Action::Roll,
        Action::PitchInverted => Action::RollInverted,
        Action::Roll => Action::Pitch,
        Action::RollInverted => Action::PitchInverted,
        _ => a,
    }
}

/// The action an action's inputs are bound to after pitch and roll are
/// switched.
pub fn pitch_roll_swapped(a: Action) -> (b: Action)
    ensures
        b == spec_pitch_roll_swapped(a),
{
    match a {
        Action::Pitch => Action::Roll,
        Action::PitchInverted => Action::RollInverted,
        Action::Roll => Action::Pitch,
        Action::RollInverted => Action::PitchInverted,
        _ => a,
    }
}

/// Switching pitch and roll twice restores every binding, and the switch never
/// moves inputs between unrelated actions.
pub proof fn law_pitch_roll_switch_involution(a: Action)
    ensures
        spec_pitch_roll_swapped(spec_pitch_roll_swapped(a)) == a,
        (spec_pitch_roll_swapped(a) != a) <==> (a == Action::Pitch || a == Action::PitchInverted
            || a == Action::Roll || a == Action::RollInverted),
{
}

// ---------------------------------------------------------------------------
// Input bindings
// ---------------------------------------------------------------------------

/// A gamepad button.
#[derive(Clone, Copy, Debug, PartialEq, Eq, Hash, Structural)]
pub enum GamepadButton {
    South,
    East,
    North,
    West,
    LeftTrigger,
    LeftTrigger2,
    RightTrigger,
    RightTrigger2,
    Select,
    Start,
    Mode,
    DPadUp,
    DPadDown,
    DPadLeft,
    DPadRight,
}

/// A gamepad stick axis.
#[derive(Clone, Copy, Debug, PartialEq, Eq, Hash, Structural)]
pub enum GamepadStick {
    LeftStickX,
    LeftStickY,
    RightStickX,
    RightStickY,
}

/// A keyboard key.
#[derive(Clone, Copy, Debug, PartialEq, Eq, Hash, Structural)]
pub enum KeyboardKey {
    Space,
    Enter,
}

/// An input that an action is bound to.
#[derive(Clone, Copy, Debug, PartialEq, Eq, Hash, Structural)]
pub enum InputBinding {
    Button(GamepadButton),
    Key(KeyboardKey),
    /// A stick axis read in both directions; deflections below the dead zone,
    /// in thousandths of full deflection, read as zero.
    Axis(GamepadStick, u16),
}

/// Dead zone of the sticks, in thousandths of full deflection.
pub const STICK_DEAD_ZONE: u16 = 50;

/// The bindings each operator input set starts with, as (action, input) pairs.
pub open spec fn spec_default_bindings() -> Seq<(Action, InputBinding)> {
    seq![
        (Action::Disarm, InputBinding::Button(GamepadButton::Select)),
        (Action::Arm, InputBinding::Button(GamepadButton::Start)),
        (Action::Disarm, InputBinding::Key(KeyboardKey::Space)),
        (Action::Arm, InputBinding::Key(KeyboardKey::Enter)),
        (Action::ToggleLeveling(LevelingType::Upright), InputBinding::Button(GamepadButton::North)),
        (Action::ToggleLeveling(LevelingType::Inverted), InputBinding::Button(GamepadButton::South)),
        (Action::ToggleDepthHold, InputBinding::Button(GamepadButton::East)),
        (Action::SwitchPitchRoll, InputBinding::Button(GamepadButton::West)),
        (Action::Yaw, InputBinding::Axis(GamepadStick::LeftStickX, STICK_DEAD_ZONE)),
        (Action::Surge, InputBinding::Axis(GamepadStick::LeftStickY, STICK_DEAD_ZONE)),
        (Action::Sway, InputBinding::Axis(GamepadStick::RightStickX, STICK_DEAD_ZONE)),
        (Action::Heave, InputBinding::Axis(GamepadStick::RightStickY, STICK_DEAD_ZONE)),
        (Action::Servo, InputBinding::Button(GamepadButton::RightTrigger)),
        (Action::ServoInverted, InputBinding::Button(GamepadButton::LeftTrigger)),
        (Action::Pitch, InputBinding::Button(GamepadButton::RightTrigger2)),
        (Action::PitchInverted, InputBinding::Button(GamepadButton::LeftTrigger2)),
        (Action::ServoCenter, InputBinding::Button(GamepadButton::DPadUp)),
        (Action::SwitchServo, InputBinding::Button(GamepadButton::DPadRight)),
        (Action::SwitchServoInverted, InputBinding::Button(GamepadButton::DPadLeft)),
        (Action::SelectImportantServo, InputBinding::Button(GamepadButton::DPadDown)),
        (Action::ToggleRobotMode, InputBinding::Button(GamepadButton::Mode)),
        (Action::ToggleRobotMode, InputBinding::Button(GamepadButton::West)),
    ]
}

/// The bindings a new operator input set starts with.
pub fn default_bindings() -> (bindings: Vec<(Action, InputBinding)>)
    ensures
        bindings@ == spec_default_bindings(),
{
    let bindings: Vec<(Action, InputBinding)> = vec![
        (Action::Disarm, InputBinding::Button(GamepadButton::Select)),
        (Action::Arm, InputBinding::Button(GamepadButton::Start)),
        (Action::Disarm, InputBinding::Key(KeyboardKey::Space)),
        (Action::Arm, InputBinding::Key(KeyboardKey::Enter)),
        (Action::ToggleLeveling(LevelingType::Upright), InputBinding::Button(GamepadButton::North)),
        (Action::ToggleLeveling(LevelingType::Inverted), InputBinding::Button(GamepadButton::South)),
        (Action::ToggleDepthHold, InputBinding::Button(GamepadButton::East)),
        (Action::SwitchPitchRoll, InputBinding::Button(GamepadButton::West)),
        (Action::Yaw, InputBinding::Axis(GamepadStick::LeftStickX, STICK_DEAD_ZONE)),
        (Action::Surge, InputBinding::Axis(GamepadStick::LeftStickY, STICK_DEAD_ZONE)),
        (Action::Sway, InputBinding::Axis(GamepadStick::RightStickX, STICK_DEAD_ZONE)),
        (Action::Heave, InputBinding::Axis(GamepadStick::RightStickY, STICK_DEAD_ZONE)),
        (Action::Servo, InputBinding::Button(GamepadButton::RightTrigger)),
        (Action::ServoInverted, InputBinding::Button(GamepadButton::LeftTrigger)),
        (Action::Pitch, InputBinding::Button(GamepadButton::RightTrigger2)),
        (Action::PitchInverted, InputBinding::Button(GamepadButton::LeftTrigger2)),
        (Action::ServoCenter, InputBinding::Button(GamepadButton::DPadUp)),
        (Action::SwitchServo, InputBinding::Button(GamepadButton::DPadRight)),
        (Action::SwitchServoInverted, InputBinding::Button(GamepadButton::DPadLeft)),
        (Action::SelectImportantServo, InputBinding::Button(GamepadButton::DPadDown)),
        (Action::ToggleRobotMode, InputBinding::Button(GamepadButton::Mode)),
        (Action::ToggleRobotMode, InputBinding::Button(GamepadButton::West)),
    ];
    assert(bindings@ =~= spec_default_bindings());
    bindings
}

/// A binding after pitch and roll are switched: its input now drives the
/// action that trades places with the one it drove.
pub open spec fn switched_binding(b: (Action, InputBinding)) -> (Action, InputBinding) {
    (spec_pitch_roll_swapped(b.0), b.1)
}

/// Switches pitch and roll: every input bound to pitch (inverted pitch) is bound
/// to roll (inverted roll) instead, and the other way round; all other bindings
/// stay, in order.
pub fn switch_pitch_roll(bindings: &mut Vec<(Action, InputBinding)>)
    ensures
        final(bindings)@ == old(bindings)@.map_values(|b: (Action, InputBinding)| switched_binding(b)),
{
    let ghost before = bindings@;
    let mut i: usize = 0;
    while i < bindings.len()
        invariant
            i <= bindings@.len(),
            bindings@.len() == before.len(),
            forall|k: int| 0 <= k < i ==> #[trigger] bindings@[k] == switched_binding(before[k]),
            forall|k: int| i <= k < bindings@.len() ==> #[trigger] bindings@[k] == before[k],
        decreases bindings@.len() - i,
    {
        let (action, input) = bindings[i];
        bindings.set(i, (pitch_roll_swapped(action), input));
        i = i + 1;
    }
    assert(bindings@ =~= before.map_values(|b: (Action, InputBinding)| switched_binding(b)));
}

/// Switching pitch and roll twice gives back the bindings it started from.
pub proof fn law_switch_pitch_roll_twice(bindings: Seq<(Action, InputBinding)>)
    ensures
        bindings.map_values(|b: (Action, InputBinding)| switched_binding(b)).map_values(
            |b: (Action, InputBinding)| switched_binding(b),
        ) == bindings,
{
    let once = bindings.map_values(|b: (Action, InputBinding)| switched_binding(b));
    let twice = once.map_values(|b: (Action, InputBinding)| switched_binding(b));
    assert forall|k: int| 0 <= k < bindings.len() implies #[trigger] twice[k] == bindings[k] by {
        law_pitch_roll_switch_involution(bindings[k].0);
    }
    assert(twice =~= bindings);
}

} // verus!

use mate_rov::input::{
    arm_request, default_bindings, depth_hold_action, leveling_action, pitch_roll_swapped,
    select_servo, switch_pitch_roll, Action, DepthHoldAction, GamepadButton, GamepadStick,
    InputBinding, KeyboardKey, LevelingAction, LevelingType, STICK_DEAD_ZONE,
};
use mate_rov::plugins::{
    CorePlugins, EdgesPipelinePlugin, MarkerPipelinePlugin, MeasurePipelinePlugin,
    MonitorPlugins, MovementPlugins, PluginKind, SavePipelinePlugin, ScalePipelinePlugin,
    SensorPlugins, SerialPipelinePlugin, SquarePipelinePlugin, UndistortPipelinePlugin,
    VideoPipelinePlugins,
};
use mate_rov::robot_state::{Armed, RobotStatus};
use mate_rov::status_bar::{status_labels, LabelColor, StatusLabel};
use mate_rov::video_processing::{
    frame_action, hand_over, pipeline_after_click, FrameAction, HandOver,
};
use mate_rov::square_tracking::{tracking_step, TrackingAction, TrackingState};

fn servos(names: &[&str]) -> Vec<String> {
    names.iter().map(|s| s.to_string()).collect()
}

#[test]
fn disarm_wins_over_arm() {
    assert_eq!(arm_request(true, true), Some(Armed::Disarmed));
    assert_eq!(arm_request(false, true), Some(Armed::Armed));
    assert_eq!(arm_request(true, false), Some(Armed::Disarmed));
    assert_eq!(arm_request(false, false), None);
}

#[test]
fn depth_hold_toggle() {
    assert_eq!(depth_hold_action(false, true), DepthHoldAction::Keep);
    assert_eq!(depth_hold_action(true, true), DepthHoldAction::Clear);
    assert_eq!(depth_hold_action(true, false), DepthHoldAction::HoldCurrentDepth);
}

#[test]
fn leveling_toggle() {
    assert_eq!(leveling_action(false, false, false), LevelingAction::Keep);
    assert_eq!(leveling_action(true, false, true), LevelingAction::Clear);
    assert_eq!(leveling_action(false, true, true), LevelingAction::Clear);
    assert_eq!(leveling_action(true, false, false), LevelingAction::Level { inverted: false });
    assert_eq!(leveling_action(false, true, false), LevelingAction::Level { inverted: true });
    assert_eq!(leveling_action(true, true, false), LevelingAction::Level { inverted: false });
}

#[test]
fn servo_selection_starts_at_first_servo() {
    let list = servos(&["Pan", "Tilt", "Claw1"]);
    assert_eq!(select_servo(&list, None, false, false, false), Some("Pan".to_string()));
    assert_eq!(select_servo(&servos(&[]), None, false, false, false), None);
}

#[test]
fn servo_selection_cycles_both_ways() {
    let list = servos(&["Pan", "Tilt", "Claw1"]);
    let sel = Some("Tilt".to_string());
    assert_eq!(select_servo(&list, sel.clone(), true, false, false), Some("Claw1".to_string()));
    assert_eq!(select_servo(&list, sel.clone(), false, true, false), Some("Pan".to_string()));
    let last = Some("Claw1".to_string());
    assert_eq!(select_servo(&list, last, true, false, false), Some("Pan".to_string()));
    let first = Some("Pan".to_string());
    assert_eq!(select_servo(&list, first, false, true, false), Some("Claw1".to_string()));
    // No button: the selection stays.
    assert_eq!(select_servo(&list, sel.clone(), false, false, false), sel);
    // An unknown selection moves to the first servo.
    assert_eq!(
        select_servo(&list, Some("Gone".to_string()), true, false, false),
        Some("Pan".to_string())
    );
}

#[test]
fn switch_then_back_returns() {
    let list = servos(&["A", "B", "C", "D"]);
    for name in ["A", "B", "C", "D"] {
        let next = select_servo(&list, Some(name.to_string()), true, false, false);
        let back = select_servo(&list, next, false, true, false);
        assert_eq!(back, Some(name.to_string()));
    }
}

#[test]
fn important_servo_button() {
    let list = servos(&["Pan", "FrontCameraRotate", "Claw1"]);
    assert_eq!(
        select_servo(&list, Some("Pan".to_string()), false, false, true),
        Some("Claw1".to_string())
    );
    assert_eq!(
        select_servo(&list, Some("Claw1".to_string()), false, false, true),
        Some("FrontCameraRotate".to_string())
    );
    let no_claw = servos(&["Pan", "Tilt"]);
    assert_eq!(
        select_servo(&no_claw, Some("Pan".to_string()), false, false, true),
        Some("Pan".to_string())
    );
    let claw_only = servos(&["Claw1"]);
    assert_eq!(
        select_servo(&claw_only, Some("Claw1".to_string()), false, false, true),
        Some("Claw1".to_string())
    );
}

#[test]
fn placement_moves_forward() {
    let s = tracking_step(TrackingState::MoveAboveTarget, false, true, true);
    assert_eq!(s.action, TrackingAction::HoldStartDepth);
    assert_eq!(s.next, TrackingState::MoveAboveTarget);
    assert!(!s.end);
    let s = tracking_step(TrackingState::MoveAboveTarget, true, false, false);
    assert_eq!(s.next, TrackingState::LowerDepth);
    let s = tracking_step(TrackingState::LowerDepth, true, false, true);
    assert_eq!(s.action, TrackingAction::Descend);
    assert_eq!(s.next, TrackingState::LowerDepth);
    let s = tracking_step(TrackingState::LowerDepth, false, true, false);
    assert_eq!(s.next, TrackingState::ReleasePayload);
    let s = tracking_step(TrackingState::ReleasePayload, false, false, false);
    assert_eq!(s.action, TrackingAction::OpenClaw);
    assert!(!s.end);
    let s = tracking_step(TrackingState::ReleasePayload, false, false, true);
    assert!(s.end);
    assert_eq!(s.next, TrackingState::ReleasePayload);
}

#[test]
fn plugin_groups() {
    assert_eq!(CorePlugins::members(), vec![PluginKind::Robot, PluginKind::State]);
    assert_eq!(
        MovementPlugins::members(false),
        vec![PluginKind::Servo, PluginKind::Thruster, PluginKind::Stabilize, PluginKind::DepthHold]
    );
    assert_eq!(
        MovementPlugins::members(true),
        vec![
            PluginKind::Servo,
            PluginKind::Thruster,
            PluginKind::Stabilize,
            PluginKind::DepthHold,
            PluginKind::PwmOutput,
            PluginKind::Led,
        ]
    );
    assert_eq!(
        SensorPlugins::members(),
        vec![PluginKind::Camera, PluginKind::Orientation, PluginKind::Depth, PluginKind::Leak]
    );
    assert_eq!(MonitorPlugins::members(), vec![PluginKind::HwStat, PluginKind::Voltage]);
    assert_eq!(
        VideoPipelinePlugins::members(),
        vec![PluginKind::VideoCallbacks, PluginKind::EdgesPipeline, PluginKind::MarkerPipeline]
    );
}

#[test]
fn pipeline_names() {
    assert_eq!(EdgesPipelinePlugin::pipeline_name(), "Edge Detection Pipeline");
    assert_eq!(MarkerPipelinePlugin::pipeline_name(), "Marker Pipeline");
    assert_eq!(MeasurePipelinePlugin::pipeline_name(), "Measure Pipeline");
    assert_eq!(SavePipelinePlugin::pipeline_name(), "Save Pipeline");
    assert_eq!(ScalePipelinePlugin::pipeline_name(), "1/4 Scale Pipeline");
    assert_eq!(SerialPipelinePlugin::pipeline_name(), "Marker -> Edge Pipeline");
    assert_eq!(SquarePipelinePlugin::pipeline_name(), "Square Tracking Pipeline");
    assert_eq!(UndistortPipelinePlugin::pipeline_name(), "Undistort Pipeline");
}

#[test]
fn pitch_and_roll_trade_bindings() {
    assert_eq!(pitch_roll_swapped(Action::Pitch), Action::Roll);
    assert_eq!(pitch_roll_swapped(Action::Roll), Action::Pitch);
    assert_eq!(pitch_roll_swapped(Action::PitchInverted), Action::RollInverted);
    assert_eq!(pitch_roll_swapped(Action::RollInverted), Action::PitchInverted);
    for other in [
        Action::Surge,
        Action::Heave,
        Action::SwitchPitchRoll,
        Action::ToggleLeveling(LevelingType::Inverted),
    ] {
        assert_eq!(pitch_roll_swapped(other), other);
    }
    for a in [Action::Pitch, Action::RollInverted, Action::Sway] {
        assert_eq!(pitch_roll_swapped(pitch_roll_swapped(a)), a);
    }
}

fn bound_to(bindings: &[(Action, InputBinding)], action: Action) -> Vec<InputBinding> {
    bindings.iter().filter(|(a, _)| *a == action).map(|(_, b)| *b).collect()
}

#[test]
fn default_bindings_table() {
    let bindings = default_bindings();
    assert_eq!(bindings.len(), 22);
    assert_eq!(
        bound_to(&bindings, Action::Arm),
        vec![InputBinding::Button(GamepadButton::Start), InputBinding::Key(KeyboardKey::Enter)]
    );
    assert_eq!(
        bound_to(&bindings, Action::Disarm),
        vec![InputBinding::Button(GamepadButton::Select), InputBinding::Key(KeyboardKey::Space)]
    );
    assert_eq!(
        bound_to(&bindings, Action::Yaw),
        vec![InputBinding::Axis(GamepadStick::LeftStickX, STICK_DEAD_ZONE)]
    );
    assert_eq!(STICK_DEAD_ZONE, 50);
    assert_eq!(
        bound_to(&bindings, Action::Pitch),
        vec![InputBinding::Button(GamepadButton::RightTrigger2)]
    );
    assert!(bound_to(&bindings, Action::Roll).is_empty());
    assert_eq!(
        bound_to(&bindings, Action::ToggleRobotMode),
        vec![InputBinding::Button(GamepadButton::Mode), InputBinding::Button(GamepadButton::West)]
    );
}

#[test]
fn switching_pitch_and_roll_moves_their_inputs() {
    let original = default_bindings();
    let mut bindings = original.clone();
    switch_pitch_roll(&mut bindings);
    assert!(bound_to(&bindings, Action::Pitch).is_empty());
    assert!(bound_to(&bindings, Action::PitchInverted).is_empty());
    assert_eq!(
        bound_to(&bindings, Action::Roll),
        vec![InputBinding::Button(GamepadButton::RightTrigger2)]
    );
    assert_eq!(
        bound_to(&bindings, Action::RollInverted),
        vec![InputBinding::Button(GamepadButton::LeftTrigger2)]
    );
    assert_eq!(bound_to(&bindings, Action::Surge), bound_to(&original, Action::Surge));
    switch_pitch_roll(&mut bindings);
    assert_eq!(bindings, original);
}

#[test]
fn top_bar_status_words() {
    assert_eq!(status_labels(RobotStatus::NoPeer, true, true), vec![StatusLabel::Unknown]);
    assert_eq!(status_labels(RobotStatus::Disarmed, true, false), vec![StatusLabel::Disarmed]);
    assert_eq!(
        status_labels(RobotStatus::Armed, true, true),
        vec![StatusLabel::Armed, StatusLabel::OrientationHold, StatusLabel::DepthHold]
    );
    assert_eq!(
        status_labels(RobotStatus::Armed, false, true),
        vec![StatusLabel::Armed, StatusLabel::DepthHold]
    );
    assert_eq!(StatusLabel::Unknown.text(), "Unknown");
    assert_eq!(StatusLabel::OrientationHold.text(), "Orientation Hold");
    assert_eq!(StatusLabel::DepthHold.text(), "Depth Hold");
    assert_eq!(StatusLabel::Disarmed.color(), LabelColor::Red);
    assert_eq!(StatusLabel::Armed.color(), LabelColor::Green);
    assert_eq!(StatusLabel::Unknown.color(), LabelColor::Text);
}

#[test]
fn pipeline_clicks_toggle() {
    let edges = "Edges".to_string();
    let marker = "Marker".to_string();
    assert_eq!(pipeline_after_click(None, &edges), Some(edges.clone()));
    assert_eq!(pipeline_after_click(Some(&edges), &edges), None);
    assert_eq!(pipeline_after_click(Some(&marker), &edges), Some(edges.clone()));
}

#[test]
fn processor_hand_over_and_frames() {
    assert_eq!(hand_over(Some(1), &vec![]), HandOver { end: None, begin: None, active: Some(1) });
    assert_eq!(
        hand_over(Some(1), &vec![Some(2), None, Some(3)]),
        HandOver { end: Some(1), begin: Some(3), active: Some(3) }
    );
    assert_eq!(hand_over(Some(1), &vec![None]), HandOver { end: Some(1), begin: None, active: None });
    assert_eq!(frame_action(false, Some(4), true), (FrameAction::Skip, Some(4)));
    assert_eq!(frame_action(true, None, true), (FrameAction::Show, None));
    assert_eq!(frame_action(true, Some(4), false), (FrameAction::Process, Some(4)));
    assert_eq!(frame_action(true, Some(4), true), (FrameAction::EndProcessor, None));
}

#[test]
fn each_processor_that_ran_is_ended_once() {
    // (picks, new frame, the running processor asks to end)
    let run: Vec<(Vec<Option<u64>>, bool, bool)> = vec![
        (vec![Some(1)], true, false),
        (vec![], true, false),
        (vec![Some(2), Some(3)], true, false),
        (vec![], false, false),
        (vec![], true, true),
        (vec![Some(4)], true, false),
    ];
    let mut active = None;
    let mut begins: Vec<u64> = Vec::new();
    let mut ends: Vec<u64> = Vec::new();
    let mut processed: Vec<u64> = Vec::new();
    for (picks, new_frame, should_end) in run {
        let h = hand_over(active, &picks);
        ends.extend(h.end);
        begins.extend(h.begin);
        let (action, next) = frame_action(new_frame, h.active, should_end);
        match action {
            FrameAction::Process => processed.push(h.active.unwrap()),
            FrameAction::EndProcessor => ends.push(h.active.unwrap()),
            _ => {}
        }
        active = next;
    }
    ends.extend(active);
    assert_eq!(begins, vec![1, 3, 4]);
    assert_eq!(ends, vec![1, 3, 4]);
    assert_eq!(processed, vec![1, 1, 3, 4]);
}

use std::collections::HashMap;

use mate_rov::leds::{
    led_frame, neopixels, pin_drive, status_lights, thruster_color, thruster_led_color, LedState,
    LedType, PinDrive,
};
use mate_rov::motor::{pulse_micros, PulseRange};
use mate_rov::neopixel::Rgb8;
use mate_rov::pwm::{batch_events, PwmEvent, PwmOutputState, STOP_PULSE_MICROS};
use mate_rov::robot_state::{update_state, Armed, RobotStatus};

#[test]
fn complete_batch_reaches_outputs() {
    let mut pwm = PwmOutputState::new();
    assert!(!pwm.handle_event(PwmEvent::Arm(Armed::Armed)));
    assert!(!pwm.handle_event(PwmEvent::UpdateChannel(0, 1600)));
    assert!(!pwm.handle_event(PwmEvent::UpdateChannel(3, 1400)));
    assert!(!pwm.handle_event(PwmEvent::UpdateChannel(0, 1700)));
    assert!(pwm.handle_event(PwmEvent::BatchComplete));
    let tick = pwm.tick(false);
    assert!(tick.output_enabled);
    assert!(!tick.disarmed_for_inactivity);
    let mut expected = [STOP_PULSE_MICROS; 16];
    expected[0] = 1700;
    expected[3] = 1400;
    assert_eq!(tick.pwms, expected);
    assert_eq!(pwm.armed(), Armed::Armed);
}

#[test]
fn updates_outside_a_batch_are_ignored() {
    let mut pwm = PwmOutputState::new();
    pwm.handle_event(PwmEvent::UpdateChannel(1, 1900));
    assert!(!pwm.handle_event(PwmEvent::BatchComplete));
    let tick = pwm.tick(false);
    assert!(!tick.output_enabled);
    assert_eq!(tick.pwms, [STOP_PULSE_MICROS; 16]);
}

#[test]
fn channels_beyond_sixteen_are_ignored() {
    let mut pwm = PwmOutputState::new();
    pwm.handle_event(PwmEvent::Arm(Armed::Armed));
    pwm.handle_event(PwmEvent::UpdateChannel(20, 1900));
    pwm.handle_event(PwmEvent::UpdateChannel(15, 1200));
    pwm.handle_event(PwmEvent::BatchComplete);
    let tick = pwm.tick(false);
    let mut expected = [STOP_PULSE_MICROS; 16];
    expected[15] = 1200;
    assert_eq!(tick.pwms, expected);
}

#[test]
fn inactivity_disarms_and_stops() {
    let mut pwm = PwmOutputState::new();
    pwm.handle_event(PwmEvent::Arm(Armed::Armed));
    pwm.handle_event(PwmEvent::UpdateChannel(2, 1800));
    pwm.handle_event(PwmEvent::BatchComplete);
    let tick = pwm.tick(true);
    assert!(tick.disarmed_for_inactivity);
    assert!(!tick.output_enabled);
    assert_eq!(tick.pwms, [STOP_PULSE_MICROS; 16]);
    assert_eq!(pwm.armed(), Armed::Disarmed);
    // The old batch stays cleared.
    assert_eq!(pwm.tick(false).pwms, [STOP_PULSE_MICROS; 16]);
}

#[test]
fn disarm_abandons_batch_and_shutdown_stops() {
    let mut pwm = PwmOutputState::new();
    pwm.handle_event(PwmEvent::Arm(Armed::Armed));
    pwm.handle_event(PwmEvent::UpdateChannel(2, 1800));
    pwm.handle_event(PwmEvent::Arm(Armed::Disarmed));
    assert!(!pwm.handle_event(PwmEvent::BatchComplete));
    assert_eq!(pwm.tick(false).pwms, [STOP_PULSE_MICROS; 16]);

    pwm.handle_event(PwmEvent::Arm(Armed::Armed));
    pwm.handle_event(PwmEvent::UpdateChannel(5, 1650));
    pwm.handle_event(PwmEvent::BatchComplete);
    assert!(!pwm.is_shutdown());
    pwm.handle_event(PwmEvent::Shutdown);
    assert!(pwm.is_shutdown());
    let tick = pwm.tick(false);
    assert!(!tick.output_enabled);
    assert_eq!(tick.pwms, [STOP_PULSE_MICROS; 16]);
}

#[test]
fn strip_layout() {
    let leds = neopixels();
    assert_eq!(leds.len(), 80);
    assert_eq!(leds[0], LedType::Status);
    assert_eq!(leds[1], LedType::Circle(0));
    assert_eq!(leds[11], LedType::Circle(10));
    assert_eq!(leds[12], LedType::Side(0));
    assert_eq!(leds[23], LedType::Side(11));
    assert_eq!(leds[24], LedType::Thruster(3));
    assert_eq!(leds[27], LedType::Thruster(0));
    assert_eq!(leds[28], LedType::Side(11));
    assert_eq!(leds[39], LedType::Side(0));
    assert_eq!(leds[40], LedType::Status);
    assert_eq!(leds[64], LedType::Thruster(7));
    assert_eq!(leds[67], LedType::Thruster(4));
    for t in 0..8u8 {
        assert_eq!(leds.iter().filter(|l| **l == LedType::Thruster(t)).count(), 1);
    }
}

#[test]
fn thruster_colors() {
    assert_eq!(thruster_color(1900), Rgb8::new(0, 255, 0));
    assert_eq!(thruster_color(1700), Rgb8::new(0, 127, 0));
    assert_eq!(thruster_color(1500), Rgb8::new(0, 0, 0));
    assert_eq!(thruster_color(1300), Rgb8::new(127, 0, 0));
    assert_eq!(thruster_color(1100), Rgb8::new(255, 0, 0));
    // Out of the ESC range the channel value wraps on narrowing.
    assert_eq!(thruster_color(0), Rgb8::new(188, 0, 0));
    assert_eq!(thruster_color(2000), Rgb8::new(0, 62, 0));
    assert_eq!(thruster_led_color(None), Rgb8::new(0, 0, 127));
    assert_eq!(thruster_led_color(Some(1900)), Rgb8::new(0, 255, 0));
}

#[test]
fn status_light_patterns() {
    assert_eq!(status_lights(RobotStatus::NoPeer, false), [LedState::Dim, LedState::Dim, LedState::Dim]);
    assert_eq!(status_lights(RobotStatus::Disarmed, false), [LedState::Dim, LedState::On, LedState::Dim]);
    assert_eq!(status_lights(RobotStatus::Armed, false), [LedState::On, LedState::On, LedState::Dim]);
    assert_eq!(status_lights(RobotStatus::NoPeer, true), [LedState::Dim, LedState::Dim, LedState::On]);
}

#[test]
fn robot_state_updates() {
    let u = update_state(false, Some(RobotStatus::Armed), Some(Armed::Armed));
    assert_eq!(u.new_status, Some(RobotStatus::NoPeer));
    assert!(u.disarm);
    let u = update_state(false, Some(RobotStatus::NoPeer), Some(Armed::Disarmed));
    assert_eq!(u.new_status, None);
    assert!(!u.disarm);
    let u = update_state(true, Some(RobotStatus::NoPeer), Some(Armed::Armed));
    assert_eq!(u.new_status, Some(RobotStatus::Armed));
    let u = update_state(true, None, None);
    assert_eq!(u.new_status, Some(RobotStatus::Disarmed));
    assert!(!u.disarm);
    let u = update_state(true, Some(RobotStatus::Disarmed), Some(Armed::Disarmed));
    assert_eq!(u.new_status, None);
}

#[test]
fn motor_pulse_blend() {
    let esc = PulseRange { reverse: 1100, forward: 1900, center: 1500 };
    assert_eq!(pulse_micros(esc, true, 0), 1500);
    assert_eq!(pulse_micros(esc, true, 1000), 1900);
    assert_eq!(pulse_micros(esc, false, 1000), 1100);
    assert_eq!(pulse_micros(esc, true, 450), 1680);
    assert_eq!(pulse_micros(esc, false, 450), 1320);
    assert_eq!(pulse_micros(esc, true, 1), 1500);
}

#[test]
fn status_pins_are_active_low() {
    assert_eq!(pin_drive(LedState::On), PinDrive::OutputLow);
    assert_eq!(pin_drive(LedState::Dim), PinDrive::InputPullDown);
    assert_eq!(pin_drive(LedState::Off), PinDrive::OutputHigh);
}

#[test]
fn frame_colors_follow_pixel_roles() {
    let leds = neopixels();
    let mut thrusters = HashMap::new();
    thrusters.insert(3u8, 1900u64);
    thrusters.insert(7u8, 1100u64);
    let animated = vec![Rgb8::new(1, 2, 3); leds.len()];
    let frame = led_frame(&leds, &thrusters, &animated);
    assert_eq!(frame.len(), 80);
    assert_eq!(frame[0], Rgb8::new(0, 0, 0));
    assert_eq!(frame[1], Rgb8::new(1, 2, 3));
    assert_eq!(frame[12], Rgb8::new(1, 2, 3));
    assert_eq!(frame[24], Rgb8::new(0, 255, 0));
    assert_eq!(frame[25], Rgb8::new(0, 0, 127));
    assert_eq!(frame[64], Rgb8::new(255, 0, 0));
    assert_eq!(frame[40], Rgb8::new(0, 0, 0));
}

#[test]
fn control_loop_batch_keeps_the_robot_signals_in_order() {
    let signals: Vec<(u64, u8, u64)> = vec![(1, 0, 1600), (2, 1, 1700), (1, 5, 1400)];
    let events = batch_events(Armed::Armed, 1, &signals);
    assert_eq!(
        events,
        vec![
            PwmEvent::Arm(Armed::Armed),
            PwmEvent::UpdateChannel(0, 1600),
            PwmEvent::UpdateChannel(5, 1400),
            PwmEvent::BatchComplete,
        ]
    );
    let empty = batch_events(Armed::Disarmed, 3, &signals);
    assert_eq!(empty, vec![PwmEvent::Arm(Armed::Disarmed), PwmEvent::BatchComplete]);
}

#[test]
fn control_loop_batch_drives_the_outputs() {
    let signals: Vec<(u64, u8, u64)> = vec![(1, 2, 1650), (1, 3, 1350)];
    let mut state = PwmOutputState::new();
    for event in batch_events(Armed::Armed, 1, &signals) {
        state.handle_event(event);
    }
    let tick = state.tick(false);
    assert!(tick.output_enabled);
    assert_eq!(tick.pwms[2], 1650);
    assert_eq!(tick.pwms[3], 1350);
    assert_eq!(tick.pwms[0], STOP_PULSE_MICROS);
}

#[test]
fn events_after_shutdown_are_not_read() {
    let mut pwm = PwmOutputState::new();
    pwm.handle_event(PwmEvent::Arm(Armed::Armed));
    pwm.handle_event(PwmEvent::UpdateChannel(1, 1700));
    pwm.handle_event(PwmEvent::Shutdown);
    assert!(pwm.is_shutdown());
    assert!(!pwm.handle_event(PwmEvent::BatchComplete));
    assert!(!pwm.handle_event(PwmEvent::Arm(Armed::Armed)));
    assert_eq!(pwm.armed(), Armed::Disarmed);
    let tick = pwm.tick(false);
    assert!(!tick.output_enabled);
    assert_eq!(tick.pwms, [STOP_PULSE_MICROS; 16]);
}

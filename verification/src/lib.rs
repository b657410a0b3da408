//! Verified core logic of an ROV control stack: sensor decoding, LED frame
//! encoding, PWM output scheduling, video layout and operator input decisions.

pub mod ms5837;
pub mod neopixel;
pub mod ads1115;
pub mod icm20602;
pub mod video_tree;
pub mod robot_state;
pub mod pwm;
pub mod leds;
pub mod input;
pub mod plugins;
pub mod config;
pub mod motor;
pub mod inertial_schedule;
pub mod square_tracking;
pub mod names;
pub mod camera_sync;
pub mod events;
pub mod status_bar;
pub mod video_processing;

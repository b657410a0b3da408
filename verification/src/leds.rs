//! What the robot's lights show: the layout of the neopixel strip, thruster
//! colours, and the three status LEDs.

use vstd::prelude::*;
use crate::neopixel::Rgb8;
use crate::robot_state::RobotStatus;
use std::collections::HashMap;

verus! {

/// Number of neopixels on the robot (two identical boards).
pub const STRIP_LEN: usize = 80;

/// Neopixels on one board.
pub const BOARD_LEN: usize = 40;

/// What one neopixel of the strip shows.
#[derive(Clone, Copy, Debug, PartialEq, Eq, Structural)]
pub enum LedType {
    /// The robot's status.
    Status,
    /// The speed of a thruster.
    Thruster(u8),
    /// A position on the animated ring.
    Circle(u8),
    /// A position on the animated side bar.
    Side(u8),
}

/// The role of neopixel `i`. Each board has, in strip order: a status pixel,
/// eleven ring pixels, twelve side pixels, its four thrusters in descending
/// order, and the twelve side pixels again in reverse.
pub open spec fn led_at(i: int) -> LedType {
    let board = i / 40;
    let k = i % 40;
    if k == 0 {
        LedType::Status
    } else if k <= 11 {
        LedType::Circle((k - 1) as u8)
    } else if k <= 23 {
        LedType::Side((k - 12) as u8)
    } else if k <= 27 {
        LedType::Thruster((3 - (k - 24) + 4 * board) as u8)
    } else {
        LedType::Side((11 - (k - 28)) as u8)
    }
}

/// The roles of all the neopixels of the strip, in strip order.
pub fn neopixels() -> (leds: Vec<LedType>)
    ensures
        leds@ == Seq::new(STRIP_LEN as nat, |i: int| led_at(i)),
{
    let mut leds: Vec<LedType> = Vec::new();
    let mut board: u8 = 0;
    while board < 2
        invariant
            board <= 2,
            leds@.len() == 40 * board,
            forall|i: int| 0 <= i < leds@.len() ==> #[trigger] leds@[i] == led_at(i),
        decreases 2 - board,
    {
        let ghost base = 40 * board as int;
        let mut k: u8 = 0;
        while k < 40
            invariant
                board < 2,
                base == 40 * board,
                k <= 40,
                leds@.len() == base + k,
                forall|i: int| 0 <= i < leds@.len() ==> #[trigger] leds@[i] == led_at(i),
            decreases 40 - k,
        {
            let led = if k == 0 {
                LedType::Status
            } else if k <= 11 {
                LedType::Circle(k - 1)
            } else if k <= 23 {
                LedType::Side(k - 12)
            } else if k <= 27 {
                LedType::Thruster(3 - (k - 24) + board * 4)
            } else {
                LedType::Side(11 - (k - 28))
            };
            proof {
                let i = base + k;
                assert(i / 40 == board && i % 40 == k) by (nonlinear_arith)
                    requires
                        i == 40 * board + k,
                        0 <= k < 40,
                ;
            }
            leds.push(led);
            k = k + 1;
        }
        board = board + 1;
    }
    assert(leds@ =~= Seq::new(STRIP_LEN as nat, |i: int| led_at(i)));
    leds
}

/// The pulse width (microseconds) at which a thruster is stopped.
pub const THRUSTER_STOP_MICROS: u32 = 1500;

/// The colour of a thruster running at pulse width `micros`: green, growing with
/// forward speed, or red, growing with reverse speed. The pulse width is narrowed
/// to 32 bits and the channel value to 8 bits, so both wrap outside the range
/// of the speed controllers.
pub open spec fn spec_thruster_color(micros: u64) -> Rgb8 {
    let m = micros as u32;
    if micros >= 1500 {
        Rgb8 { r: 0, g: ((m - 1500) * 255 / 400) as u8, b: 0 }
    } else {
        Rgb8 { r: ((1500 - m) * 255 / 400) as u8, g: 0, b: 0 }
    }
}

/// The inputs on which the colour computation stays within 32 bits.
pub open spec fn thruster_color_in_range(micros: u64) -> bool {
    micros >= 1500 ==> (micros as u32) >= 1500 && ((micros as u32) - 1500) * 255 <= u32::MAX
}

/// The colour of a thruster running at pulse width `micros`.
pub fn thruster_color(micros: u64) -> (c: Rgb8)
    requires
        thruster_color_in_range(micros),
    ensures
        c == spec_thruster_color(micros),
{
    let m: u32 = #[verifier::truncate] (micros as u32);
    if micros >= 1500 {
        let green: u32 = (m - THRUSTER_STOP_MICROS) * 255 / 400;
        Rgb8 { r: 0, g: #[verifier::truncate] (green as u8), b: 0 }
    } else {
        let red: u32 = (THRUSTER_STOP_MICROS - m) * 255 / 400;
        Rgb8 { r: #[verifier::truncate] (red as u8), g: 0, b: 0 }
    }
}

/// The colour of a thruster pixel: the thruster's speed colour when the thruster
/// has a pulse width, dim blue when there is no such thruster.
pub fn thruster_led_color(signal: Option<u64>) -> (c: Rgb8)
    requires
        signal matches Some(m) ==> thruster_color_in_range(m),
    ensures
        c == match signal {
            Some(m) => spec_thruster_color(m),
            None => Rgb8 { r: 0, g: 0, b: 127 },
        },
{
    match signal {
        Some(micros) => thruster_color(micros),
        None => Rgb8 { r: 0, g: 0, b: 127 },
    }
}

/// The colour of the status pixel (always off).
pub fn status_led_color() -> (c: Rgb8)
    ensures
        c == (Rgb8 { r: 0, g: 0, b: 0 }),
{
    Rgb8 { r: 0, g: 0, b: 0 }
}

/// How a status LED is driven.
#[derive(Clone, Copy, Debug, PartialEq, Eq, Structural)]
pub enum LedState {
    On,
    Dim,
    Off,
}

/// The three status LEDs (green, blue, red): blue when a peer is connected,
/// green as well when armed, red when an error was reported since the last
/// update; LEDs that are not lit glow dim.
pub open spec fn spec_status_lights(status: RobotStatus, has_errors: bool) -> Seq<LedState> {
    seq![
        if status == RobotStatus::Armed {
            LedState::On
        } else {
            LedState::Dim
        },
        if status != RobotStatus::NoPeer {
            LedState::On
        } else {
            LedState::Dim
        },
        if has_errors {
            LedState::On
        } else {
            LedState::Dim
        },
    ]
}

/// The states of the three status LEDs (green, blue, red).
pub fn status_lights(status: RobotStatus, has_errors: bool) -> (lights: [LedState; 3])
    ensures
        lights@ == spec_status_lights(status, has_errors),
{
    let mut lights = [LedState::Dim; 3];
    match status {
        RobotStatus::NoPeer => {},
        RobotStatus::Disarmed => {
            lights[1] = LedState::On;
        },
        RobotStatus::Armed => {
            lights[0] = LedState::On;
            lights[1] = LedState::On;
        },
    }
    if has_errors {
        lights[2] = LedState::On;
    }
    assert(lights@ =~= spec_status_lights(status, has_errors));
    lights
}


/// The thruster colour scale: a stopped thruster is dark; forward speed shows
/// in green only and reverse speed in red only, each growing with the speed,
/// full green at the full forward pulse (1900 µs) and full red at the full
/// reverse pulse (1100 µs).
pub proof fn law_thruster_color_scale(m1: u64, m2: u64)
    ensures
        spec_thruster_color(1500) == (Rgb8 { r: 0, g: 0, b: 0 }),
        spec_thruster_color(1900) == (Rgb8 { r: 0, g: 255, b: 0 }),
        spec_thruster_color(1100) == (Rgb8 { r: 255, g: 0, b: 0 }),
        1500 <= m1 <= 1900 ==> spec_thruster_color(m1).r == 0 && spec_thruster_color(m1).b == 0,
        1100 <= m1 <= 1500 ==> spec_thruster_color(m1).g == 0 && spec_thruster_color(m1).b == 0,
        1500 <= m1 <= m2 <= 1900 ==> spec_thruster_color(m1).g <= spec_thruster_color(m2).g,
        1100 <= m1 <= m2 <= 1500 ==> spec_thruster_color(m1).r >= spec_thruster_color(m2).r,
{
    assert((1500u64 as u32) == 1500u32 && (1900u64 as u32) == 1900u32 && (1100u64 as u32)
        == 1100u32);
    if 1100 <= m1 <= 1900 {
        assert((m1 as u32) as int == m1 as int);
    }
    if 1100 <= m2 <= 1900 {
        assert((m2 as u32) as int == m2 as int);
    }
    if 1500 <= m1 <= m2 <= 1900 {
        let (a, b) = ((m1 - 1500) * 255, (m2 - 1500) * 255);
        assert(a / 400 <= b / 400 <= 255) by (nonlinear_arith)
            requires
                0 <= a <= b <= 400 * 255,
        ;
    }
    if 1100 <= m1 <= m2 <= 1500 {
        let (a, b) = ((1500 - m1) * 255, (1500 - m2) * 255);
        assert(b / 400 <= a / 400 <= 255) by (nonlinear_arith)
            requires
                0 <= b <= a <= 400 * 255,
        ;
    }
    if 1500 <= m1 <= 1900 {
        assert((m1 - 1500) * 255 / 400 <= 255) by (nonlinear_arith)
            requires
                0 <= m1 - 1500 <= 400,
        ;
    }
    if 1100 <= m1 <= 1500 {
        assert((1500 - m1) * 255 / 400 <= 255) by (nonlinear_arith)
            requires
                0 <= 1500 - m1 <= 400,
        ;
    }
}

/// What each pixel of a frame shows, by its role: the status pixel is dark; a
/// thruster pixel shows its thruster's colour, or dim blue when that thruster
/// has no pulse width; ring and side pixels show the animation colour given.
pub proof fn law_frame_color_roles(thrusters: Map<u8, u64>, animated: Rgb8, id: u8)
    ensures
        spec_frame_color(LedType::Status, thrusters, animated) == (Rgb8 { r: 0, g: 0, b: 0 }),
        spec_frame_color(LedType::Circle(id), thrusters, animated) == animated,
        spec_frame_color(LedType::Side(id), thrusters, animated) == animated,
        !thrusters.contains_key(id) ==> spec_frame_color(LedType::Thruster(id), thrusters, animated)
            == (Rgb8 { r: 0, g: 0, b: 127 }),
        thrusters.contains_key(id) ==> spec_frame_color(LedType::Thruster(id), thrusters, animated)
            == spec_thruster_color(thrusters[id]),
{
}

/// Each status LED has one meaning, independent of the others: green is lit
/// exactly when the robot is armed, blue exactly when a surface station is
/// connected, red exactly when an error was reported, whatever the status; an
/// LED that is not lit glows dim.
pub proof fn law_status_lights_meaning(status: RobotStatus, has_errors: bool)
    ensures
        spec_status_lights(status, has_errors).len() == 3,
        spec_status_lights(status, has_errors)[0] == (if status == RobotStatus::Armed {
            LedState::On
        } else {
            LedState::Dim
        }),
        spec_status_lights(status, has_errors)[1] == (if status == RobotStatus::NoPeer {
            LedState::Dim
        } else {
            LedState::On
        }),
        spec_status_lights(status, has_errors)[2] == (if has_errors {
            LedState::On
        } else {
            LedState::Dim
        }),
        forall|other: RobotStatus|
            #![trigger spec_status_lights(other, has_errors)]
            spec_status_lights(other, has_errors)[2] == spec_status_lights(status, has_errors)[2],
{
}

/// How a status LED pin is driven: the LEDs are wired to light when the pin is
/// pulled low.
#[derive(Clone, Copy, Debug, PartialEq, Eq, Structural)]
pub enum PinDrive {
    /// Output, driven low: fully lit.
    OutputLow,
    /// Input with the pull-down enabled: dimly lit.
    InputPullDown,
    /// Output, driven high: dark.
    OutputHigh,
}

/// The pin drive for a status LED state.
pub fn pin_drive(state: LedState) -> (d: PinDrive)
    ensures
        d == match state {
            LedState::On => PinDrive::OutputLow,
            LedState::Dim => PinDrive::InputPullDown,
            LedState::Off => PinDrive::OutputHigh,
        },
{
    match state {
        LedState::On => PinDrive::OutputLow,
        LedState::Dim => PinDrive::InputPullDown,
        LedState::Off => PinDrive::OutputHigh,
    }
}

/// The colour of pixel `i` of a frame: off for the status pixel, the thruster
/// colour (or dim blue) for a thruster pixel, and the animation colour supplied
/// for ring and side pixels.
pub open spec fn spec_frame_color(
    led: LedType,
    thrusters: Map<u8, u64>,
    animated: Rgb8,
) -> Rgb8 {
    match led {
        LedType::Status => Rgb8 { r: 0, g: 0, b: 0 },
        LedType::Thruster(id) => if thrusters.contains_key(id) {
            spec_thruster_color(thrusters[id])
        } else {
            Rgb8 { r: 0, g: 0, b: 127 }
        },
        LedType::Circle(_) => animated,
        LedType::Side(_) => animated,
    }
}

/// The colours of one frame of the strip, pixel by pixel. `thrusters` holds the
/// pulse width of each thruster channel; `animated` the animation colour of
/// each pixel (used for ring and side pixels only).
pub fn led_frame(leds: &Vec<LedType>, thrusters: &HashMap<u8, u64>, animated: &Vec<Rgb8>) -> (frame:
    Vec<Rgb8>)
    requires
        animated@.len() == leds@.len(),
        forall|id: u8| #[trigger] thrusters@.contains_key(id) ==> thruster_color_in_range(
            thrusters@[id],
        ),
    ensures
        frame@.len() == leds@.len(),
        forall|i: int|
            0 <= i < leds@.len() ==> #[trigger] frame@[i] == spec_frame_color(
                leds@[i],
                thrusters@,
                animated@[i],
            ),
{
    broadcast use vstd::std_specs::hash::group_hash_axioms;

    let mut frame: Vec<Rgb8> = Vec::new();
    let mut i: usize = 0;
    while i < leds.len()
        invariant
            i <= leds@.len(),
            animated@.len() == leds@.len(),
            forall|id: u8| #[trigger] thrusters@.contains_key(id) ==> thruster_color_in_range(
                thrusters@[id],
            ),
            frame@.len() == i,
            forall|k: int|
                0 <= k < i ==> #[trigger] frame@[k] == spec_frame_color(
                    leds@[k],
                    thrusters@,
                    animated@[k],
                ),
        decreases leds@.len() - i,
    {
        let color = match leds[i] {
            LedType::Status => status_led_color(),
            LedType::Thruster(id) => {
                let signal = match thrusters.get(&id) {
                    Some(micros) => Some(*micros),
                    None => None,
                };
                thruster_led_color(signal)
            },
            LedType::Circle(_) => animated[i],
            LedType::Side(_) => animated[i],
        };
        frame.push(color);
        i = i + 1;
    }
    frame
}

/// Every thruster of the two boards has exactly one pixel.
pub proof fn law_each_thruster_has_one_pixel(t: int, i: int)
    requires
        0 <= t < 8,
        0 <= i < STRIP_LEN,
    ensures
        ({
            let p = 40 * (t / 4) + 24 + (3 - t % 4);
            &&& 0 <= p < STRIP_LEN
            &&& led_at(p) == LedType::Thruster(t as u8)
            &&& led_at(i) == LedType::Thruster(t as u8) ==> i == p
        }),
{
    let p = 40 * (t / 4) + 24 + (3 - t % 4);
    assert(p / 40 == t / 4 && p % 40 == 24 + (3 - t % 4)) by (nonlinear_arith)
        requires
            p == 40 * (t / 4) + 24 + (3 - t % 4),
            0 <= t < 8,
    ;
    assert(t == 4 * (t / 4) + t % 4) by (nonlinear_arith)
        requires
            0 <= t,
    ;
    if led_at(i) == LedType::Thruster(t as u8) {
        let k = i % 40;
        let b = i / 40;
        assert(0 <= b < 2 && 0 <= k < 40 && i == 40 * b + k) by (nonlinear_arith)
            requires
                0 <= i < 80,
                k == i % 40,
                b == i / 40,
        ;
        assert(24 <= k <= 27);
        assert((3 - (k - 24) + 4 * b) as u8 == t as u8);
        assert(3 - (k - 24) + 4 * b == t);
    }
}

} // verus!

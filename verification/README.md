# mate_rov

Core logic of an underwater ROV (robot and surface station), written in Verus
with its behaviour stated as contracts and proved.

## Layout

- `src/` — the verified library, one module per concern:
  - sensors: `ms5837` (pressure sensor CRC and compensation), `ads1115`
    (ADC registers), `icm20602` (IMU protocol and frame decoding),
    `inertial_schedule` (sampling schedule of the inertial thread);
  - actuators: `pwm` (output thread decisions and control-loop batches),
    `motor` (pulse widths), `neopixel` (SPI frame buffer of the LED strip,
    one 24-byte frame per LED),
    `leds` (strip layout, thruster colours, status LEDs);
  - robot state and messaging: `robot_state`, `events`, `camera_sync`,
    `config`, `names`;
  - surface station: `input` (operator decisions and input bindings),
    `video_tree` (camera display layout), `video_processing` (pipeline picks
    and processor hand-over), `status_bar`, `square_tracking`, `plugins`.
- `tests/` — tests on concrete values, run against the compiled library.
- `app/` — the robot's hardware runtime: bus drivers on `rppal`, sensor
  threads and the status/LED loop, which hand plain values to the library.
  Floating-point unit conversions live here.

Laws of the library (properties over all inputs or over several calls) are
public proof functions named `law_*` next to the functions they speak of.

use mate_rov::neopixel::{
    byte_to_data, color_to_data, correct_color, NeopixelBuffer, Rgb8, LED_T0, LED_T1,
};

const T0: u8 = LED_T0;
const T1: u8 = LED_T1;

#[test]
fn byte_encoding_msb_first() {
    assert_eq!(byte_to_data(0xA5), vec![T1, T0, T1, T0, T0, T1, T0, T1]);
    assert_eq!(byte_to_data(0x00), vec![T0; 8]);
    assert_eq!(byte_to_data(0xFF), vec![T1; 8]);
}

#[test]
fn color_encoding_is_green_red_blue() {
    let data = color_to_data(Rgb8::new(0xFF, 0x00, 0x80));
    assert_eq!(data.len(), 24);
    assert_eq!(&data[0..8], &[T0; 8]);
    assert_eq!(&data[8..16], &[T1; 8]);
    assert_eq!(&data[16..24], &[T1, T0, T0, T0, T0, T0, T0, T0]);
}

#[test]
fn distinct_colors_encode_differently() {
    assert_ne!(color_to_data(Rgb8::new(1, 2, 3)), color_to_data(Rgb8::new(1, 2, 4)));
    assert_ne!(color_to_data(Rgb8::new(2, 1, 3)), color_to_data(Rgb8::new(1, 2, 3)));
}

#[test]
fn gamma_correction_table() {
    assert_eq!(correct_color(Rgb8::new(0, 128, 255)), Rgb8::new(0, 37, 255));
    assert_eq!(correct_color(Rgb8::new(64, 200, 27)), Rgb8::new(5, 129, 0));
}

#[test]
fn new_buffer_is_zeroed() {
    let buf = NeopixelBuffer::new(80);
    assert_eq!(buf.len(), 80);
    assert_eq!(buf.to_slice().len(), 80 * 24);
    assert!(buf.to_slice().iter().all(|&b| b == 0));
    assert_eq!(NeopixelBuffer::new(0).len(), 0);
    assert_eq!(NeopixelBuffer::new(1).to_slice().len(), 24);
}

#[test]
fn one_led_set_to_red() {
    let mut buf = NeopixelBuffer::new(1);
    buf.set(0, 1, &[Rgb8::new(255, 0, 0)], false);
    assert_eq!(buf.to_slice(), &[[T0; 8], [T1; 8], [T0; 8]].concat()[..]);
}

#[test]
fn set_writes_one_frame_per_led_in_range() {
    let mut buf = NeopixelBuffer::new(6);
    let colors = [Rgb8::new(0xFF, 0, 0), Rgb8::new(0, 0xFF, 0)];
    buf.set(1, 5, &colors, false);
    let s = buf.to_slice();
    assert!(s[..24].iter().all(|&b| b == 0));
    assert_eq!(s[24..48].to_vec(), color_to_data(colors[0]));
    assert_eq!(s[48..72].to_vec(), color_to_data(colors[1]));
    assert!(s[72..].iter().all(|&b| b == 0));
    assert_eq!(buf.len(), 6);
}

#[test]
fn set_stops_at_end_of_range() {
    let mut buf = NeopixelBuffer::new(4);
    let colors = [Rgb8::new(0xFF, 0xFF, 0xFF); 4];
    buf.set(0, 2, &colors, false);
    let s = buf.to_slice();
    assert!(s[..48].iter().all(|&b| b == T1));
    assert!(s[48..].iter().all(|&b| b == 0));
}

#[test]
fn set_without_colors_changes_nothing() {
    let mut buf = NeopixelBuffer::new(4);
    buf.set(0, 4, &[], true);
    assert!(buf.to_slice().iter().all(|&b| b == 0));
}

#[test]
fn set_applies_gamma_correction() {
    let mut buf = NeopixelBuffer::new(8);
    buf.set(0, 1, &[Rgb8::new(0, 128, 0)], true);
    assert_eq!(buf.to_slice()[..24].to_vec(), color_to_data(Rgb8::new(0, 37, 0)));
}

#[test]
fn fill_sets_every_led_of_the_range() {
    let mut buf = NeopixelBuffer::new(5);
    buf.fill(1, 4, Rgb8::new(0, 0, 0xFF), false);
    let s = buf.to_slice();
    let data = color_to_data(Rgb8::new(0, 0, 0xFF));
    for led in 1..4 {
        assert_eq!(s[24 * led..24 * led + 24].to_vec(), data);
    }
    assert!(s[..24].iter().all(|&b| b == 0));
    assert!(s[96..].iter().all(|&b| b == 0));
}

#[test]
fn duplicate_keeps_the_frames() {
    let mut buf = NeopixelBuffer::new(3);
    buf.fill(0, 3, Rgb8::new(1, 2, 3), true);
    let copy = buf.duplicate();
    assert_eq!(copy.len(), buf.len());
    assert_eq!(copy.to_slice(), buf.to_slice());
}

#[test]
fn byte_encoding_decodes_back() {
    for x in 0..=255u8 {
        let data = byte_to_data(x);
        assert_eq!(data.len(), 8);
        assert!(data.iter().all(|&b| b == T0 || b == T1));
        let back = data.iter().fold(0u8, |acc, &b| (acc << 1) | (b == T1) as u8);
        assert_eq!(back, x);
    }
}

#[test]
fn clone_keeps_the_frames() {
    let mut buf = NeopixelBuffer::new(2);
    buf.set(1, 2, &[Rgb8::new(9, 8, 7)], false);
    let copy = buf.clone();
    assert_eq!(copy.len(), 2);
    assert_eq!(copy.to_slice(), buf.to_slice());
    assert_eq!(copy.to_slice().len(), 24 * copy.len());
}

//! Frame buffer of a neopixel (WS2812-style) strip driven over SPI.
//!
//! Every colour channel bit becomes one SPI byte: a long high pulse for a one
//! and a short one for a zero. Colours go out green first, then red, then blue,
//! most significant bit first.

use vstd::prelude::*;

verus! {

/// An 8 bit RGB colour.
#[derive(Clone, Copy, Debug, PartialEq, Eq, Structural)]
pub struct Rgb8 {
    pub r: u8,
    pub g: u8,
    pub b: u8,
}

impl Rgb8 {
    pub fn new(r: u8, g: u8, b: u8) -> (c: Rgb8)
        ensures
            c == (Rgb8 { r, g, b }),
    {
        Rgb8 { r, g, b }
    }

    /// The colour with every channel off.
    pub fn black() -> (c: Rgb8)
        ensures
            c == (Rgb8 { r: 0, g: 0, b: 0 }),
    {
        Rgb8 { r: 0, g: 0, b: 0 }
    }
}

/// SPI byte that encodes a zero bit.
pub const LED_T0: u8 = 0b1100_0000;
/// SPI byte that encodes a one bit.
pub const LED_T1: u8 = 0b1111_1000;

/// SPI bytes that encode one colour (eight bits for each of three channels).
pub const BYTES_PER_COLOR: usize = 24;

/// Gamma correction table for 8 bit channels.
pub const GAMMA8: [u8; 256] = [
    0, 0, 0, 0, 0, 0, 0, 0, 0, 0, 0, 0, 0, 0, 0, 0, 0, 0, 0, 0, 0, 0, 0, 0, 0, 0, 0, 0, 1, 1, 1, 1,
    1, 1, 1, 1, 1, 1, 1, 1, 1, 2, 2, 2, 2, 2, 2, 2, 2, 3, 3, 3, 3, 3, 3, 3, 4, 4, 4, 4, 4, 5, 5, 5,
    5, 6, 6, 6, 6, 7, 7, 7, 7, 8, 8, 8, 9, 9, 9, 10, 10, 10, 11, 11, 11, 12, 12, 13, 13, 13, 14,
    14, 15, 15, 16, 16, 17, 17, 18, 18, 19, 19, 20, 20, 21, 21, 22, 22, 23, 24, 24, 25, 25, 26, 27,
    27, 28, 29, 29, 30, 31, 32, 32, 33, 34, 35, 35, 36, 37, 38, 39, 39, 40, 41, 42, 43, 44, 45, 46,
    47, 48, 49, 50, 50, 51, 52, 54, 55, 56, 57, 58, 59, 60, 61, 62, 63, 64, 66, 67, 68, 69, 70, 72,
    73, 74, 75, 77, 78, 79, 81, 82, 83, 85, 86, 87, 89, 90, 92, 93, 95, 96, 98, 99, 101, 102, 104,
    105, 107, 109, 110, 112, 114, 115, 117, 119, 120, 122, 124, 126, 127, 129, 131, 133, 135, 137,
    138, 140, 142, 144, 146, 148, 150, 152, 154, 156, 158, 160, 162, 164, 167, 169, 171, 173, 175,
    177, 180, 182, 184, 186, 189, 191, 193, 196, 198, 200, 203, 205, 208, 210, 213, 215, 218, 220,
    223, 225, 228, 231, 233, 236, 239, 241, 244, 247, 249, 252, 255,
];

/// The gamma corrected colour: every channel looked up in [`GAMMA8`].
pub open spec fn spec_correct_color(c: Rgb8) -> Rgb8 {
    Rgb8 { r: GAMMA8@[c.r as int], g: GAMMA8@[c.g as int], b: GAMMA8@[c.b as int] }
}

/// Gamma-corrects a colour, channel by channel.
pub fn correct_color(color: Rgb8) -> (c: Rgb8)
    ensures
        c == spec_correct_color(color),
{
    Rgb8 {
        r: GAMMA8[color.r as usize],
        g: GAMMA8[color.g as usize],
        b: GAMMA8[color.b as usize],
    }
}

/// The SPI byte for bit `bit` (0 is the most significant) of `byte`.
pub open spec fn bit_data(byte: u8, bit: int) -> u8 {
    if byte & (0x80u8 >> (bit as u8)) != 0 {
        LED_T1
    } else {
        LED_T0
    }
}

/// The eight SPI bytes of one channel, most significant bit first.
pub open spec fn spec_byte_to_data(byte: u8) -> Seq<u8> {
    Seq::new(8, |bit: int| bit_data(byte, bit))
}

/// The 24 SPI bytes of one colour: green, red, then blue.
pub open spec fn spec_color_to_data(c: Rgb8) -> Seq<u8> {
    spec_byte_to_data(c.g) + spec_byte_to_data(c.r) + spec_byte_to_data(c.b)
}

/// The colour that goes out for `c`, corrected or not.
pub open spec fn shade(c: Rgb8, gamma_correction: bool) -> Rgb8 {
    if gamma_correction {
        spec_correct_color(c)
    } else {
        c
    }
}

/// Byte `i` of the SPI stream for a sequence of colours: byte `i % 24` of the
/// encoding of colour `i / 24`.
pub open spec fn stream_byte(colors: Seq<Rgb8>, gamma_correction: bool, i: int) -> u8 {
    spec_color_to_data(shade(colors[i / 24], gamma_correction))[i % 24]
}

/// Encodes one channel as eight SPI bytes, most significant bit first.
pub fn byte_to_data(byte: u8) -> (data: Vec<u8>)
    ensures
        data@ == spec_byte_to_data(byte),
{
    let mut data: Vec<u8> = Vec::new();
    let mut bit: u8 = 0;
    while bit < 8
        invariant
            bit <= 8,
            data@.len() == bit,
            forall|k: int| 0 <= k < bit ==> data@[k] == bit_data(byte, k),
        decreases 8 - bit,
    {
        if byte & (0x80 >> bit) != 0 {
            data.push(LED_T1);
        } else {
            data.push(LED_T0);
        }
        bit = bit + 1;
    }
    assert(data@ =~= spec_byte_to_data(byte));
    data
}

/// Encodes one colour as 24 SPI bytes: green, red, then blue.
pub fn color_to_data(color: Rgb8) -> (data: Vec<u8>)
    ensures
        data@ == spec_color_to_data(color),
        data@.len() == 24,
{
    let mut data = byte_to_data(color.g);
    let mut red = byte_to_data(color.r);
    let mut blue = byte_to_data(color.b);
    data.append(&mut red);
    data.append(&mut blue);
    data
}

/// The 24 SPI bytes of LED `i` in a buffer.
pub open spec fn frame(bytes: Seq<u8>, i: int) -> Seq<u8> {
    bytes.subrange(24 * i, 24 * i + 24)
}

proof fn lemma_frame_byte(j: int, b: int)
    requires
        0 <= b < 24,
    ensures
        (24 * j + b) / 24 == j,
        (24 * j + b) % 24 == b,
{
    assert((24 * j + b) / 24 == j && (24 * j + b) % 24 == b) by (nonlinear_arith)
        requires
            0 <= b < 24,
    ;
}

proof fn lemma_frame_end(n: int, len: int)
    requires
        0 <= n <= len / 24,
        0 <= len,
    ensures
        24 * n <= len,
{
    assert(24 * n <= len) by (nonlinear_arith)
        requires
            0 <= n <= len / 24,
            0 <= len,
    ;
}

/// The SPI frame buffer of a strip: one frame of [`BYTES_PER_COLOR`] bytes per
/// LED, in strip order.
pub struct NeopixelBuffer {
    buffer: Vec<u8>,
}

impl Clone for NeopixelBuffer {
    /// A copy of the buffer (see [`NeopixelBuffer::duplicate`]).
    fn clone(&self) -> (copy: Self)
        ensures
            copy@ == self@,
    {
        self.duplicate()
    }
}

impl View for NeopixelBuffer {
    type V = Seq<u8>;

    closed spec fn view(&self) -> Seq<u8> {
        self.buffer@
    }
}

impl NeopixelBuffer {
    /// The buffer holds whole frames.
    #[verifier::type_invariant]
    spec fn whole_frames(self) -> bool {
        self.buffer@.len() % 24 == 0
    }

    /// A buffer for `len` LEDs, all bytes zero.
    pub fn new(len: usize) -> (buf: NeopixelBuffer)
        requires
            len * 24 <= usize::MAX,
        ensures
            buf@ == Seq::new((len * 24) as nat, |i: int| 0u8),
    {
        let buffer = vec![0u8; len * BYTES_PER_COLOR];
        let buf = NeopixelBuffer { buffer };
        assert(buf@ =~= Seq::new((len * 24) as nat, |i: int| 0u8));
        buf
    }

    /// Number of LEDs the buffer holds.
    pub fn len(&self) -> (n: usize)
        ensures
            n == self@.len() / 24,
            24 * n == self@.len(),
    {
        proof {
            use_type_invariant(self);
        }
        self.buffer.len() / BYTES_PER_COLOR
    }

    /// A copy of the buffer.
    pub fn duplicate(&self) -> (copy: NeopixelBuffer)
        ensures
            copy@ == self@,
    {
        proof {
            use_type_invariant(self);
        }
        NeopixelBuffer { buffer: self.buffer.clone() }
    }

    /// The bytes that go out over SPI.
    pub fn to_slice(&self) -> (s: &[u8])
        ensures
            s@ == self@,
            s@.len() == 24 * (self@.len() / 24),
    {
        proof {
            use_type_invariant(self);
        }
        self.buffer.as_slice()
    }

    /// Writes the SPI encoding of `colors` into the bytes `start..end`. When the
    /// colours run out before the end of the range, the rest of the range is left
    /// as it was; encoding that does not fit in the range is dropped.
    fn set_bytes(bytes: &mut Vec<u8>, start: usize, end: usize, colors: &[Rgb8], gamma_correction: bool)
        requires
            start <= end <= old(bytes)@.len(),
        ensures
            final(bytes)@.len() == old(bytes)@.len(),
            forall|k: int|
                #![trigger final(bytes)@[k]]
                0 <= k < final(bytes)@.len() ==> final(bytes)@[k] == if start <= k < end && k
                    - start < 24 * colors@.len() {
                    stream_byte(colors@, gamma_correction, k - start)
                } else {
                    old(bytes)@[k]
                },
    {
        let ghost old_buf = bytes@;
        let mut pos: usize = start;
        let mut ci: usize = 0;
        while ci < colors.len()
            invariant_except_break
                pos == start + 24 * ci,
            invariant
                start <= pos <= end,
                end <= old_buf.len(),
                ci <= colors@.len(),
                bytes@.len() == old_buf.len(),
                forall|k: int|
                    0 <= k < old_buf.len() && !(start <= k < pos) ==> #[trigger] bytes@[k]
                        == old_buf[k],
                forall|k: int|
                    start <= k < pos ==> #[trigger] bytes@[k] == stream_byte(
                        colors@,
                        gamma_correction,
                        k - start,
                    ),
            ensures
                pos == end || pos == start + 24 * colors@.len(),
                start <= pos <= end,
                pos - start <= 24 * colors@.len(),
                bytes@.len() == old_buf.len(),
                forall|k: int|
                    0 <= k < old_buf.len() && !(start <= k < pos) ==> #[trigger] bytes@[k]
                        == old_buf[k],
                forall|k: int|
                    start <= k < pos ==> #[trigger] bytes@[k] == stream_byte(
                        colors@,
                        gamma_correction,
                        k - start,
                    ),
            decreases colors@.len() - ci,
        {
            if pos >= end {
                break;
            }
            let color = if gamma_correction {
                correct_color(colors[ci])
            } else {
                colors[ci]
            };
            let data = color_to_data(color);
            let mut j: usize = 0;
            while j < 24
                invariant_except_break
                    pos == start + 24 * ci + j,
                invariant
                    j <= 24,
                    start <= pos <= end,
                    end <= old_buf.len(),
                    ci < colors@.len(),
                    pos - start <= 24 * ci + j,
                    data@ == spec_color_to_data(shade(colors@[ci as int], gamma_correction)),
                    bytes@.len() == old_buf.len(),
                    forall|k: int|
                        0 <= k < old_buf.len() && !(start <= k < pos) ==> #[trigger] bytes@[k]
                            == old_buf[k],
                    forall|k: int|
                        start <= k < pos ==> #[trigger] bytes@[k] == stream_byte(
                            colors@,
                            gamma_correction,
                            k - start,
                        ),
                ensures
                    pos == end || pos == start + 24 * ci + 24,
                    start <= pos <= end,
                    pos - start <= 24 * ci + 24,
                    bytes@.len() == old_buf.len(),
                    forall|k: int|
                        0 <= k < old_buf.len() && !(start <= k < pos) ==> #[trigger] bytes@[k]
                            == old_buf[k],
                    forall|k: int|
                        start <= k < pos ==> #[trigger] bytes@[k] == stream_byte(
                            colors@,
                            gamma_correction,
                            k - start,
                        ),
                decreases 24 - j,
            {
                if pos >= end {
                    break;
                }
                proof {
                    let i = 24 * ci + j;
                    assert(i / 24 == ci && i % 24 == j) by (nonlinear_arith)
                        requires
                            i == 24 * ci + j,
                            0 <= j < 24,
                            ci >= 0,
                    ;
                }
                bytes.set(pos, data[j]);
                pos = pos + 1;
                j = j + 1;
            }
            if pos >= end {
                break;
            }
            ci = ci + 1;
        }
    }

    /// Writes the SPI encoding of `color`, repeated, into the bytes `start..end`.
    fn fill_bytes(bytes: &mut Vec<u8>, start: usize, end: usize, color: Rgb8, gamma_correction: bool)
        requires
            start <= end <= old(bytes)@.len(),
        ensures
            final(bytes)@.len() == old(bytes)@.len(),
            forall|k: int|
                #![trigger final(bytes)@[k]]
                0 <= k < final(bytes)@.len() ==> final(bytes)@[k] == if start <= k < end {
                    spec_color_to_data(shade(color, gamma_correction))[(k - start) % 24]
                } else {
                    old(bytes)@[k]
                },
    {
        let ghost old_buf = bytes@;
        let shaded = if gamma_correction {
            correct_color(color)
        } else {
            color
        };
        let data = color_to_data(shaded);
        let mut pos: usize = start;
        while pos < end
            invariant
                start <= pos <= end,
                end <= old_buf.len(),
                data@ == spec_color_to_data(shade(color, gamma_correction)),
                bytes@.len() == old_buf.len(),
                forall|k: int|
                    0 <= k < old_buf.len() && !(start <= k < pos) ==> #[trigger] bytes@[k]
                        == old_buf[k],
                forall|k: int|
                    start <= k < pos ==> #[trigger] bytes@[k] == data@[(k - start) % 24],
            decreases end - pos,
        {
            let idx = (pos - start) % 24;
            bytes.set(pos, data[idx]);
            pos = pos + 1;
        }
    }

    /// Sets the LEDs `start..end` to `colors`, in order, gamma corrected when
    /// asked. When the colours run out before the end of the range, the rest of
    /// the range keeps its frames; colours beyond the range are not used.
    pub fn set(&mut self, start: usize, end: usize, colors: &[Rgb8], gamma_correction: bool)
        requires
            start <= end <= old(self)@.len() / 24,
        ensures
            final(self)@.len() == old(self)@.len(),
            forall|i: int|
                #![trigger frame(final(self)@, i)]
                0 <= i < final(self)@.len() / 24 ==> frame(final(self)@, i) == if start <= i < end
                    && i - start < colors@.len() {
                    spec_color_to_data(shade(colors@[i - start], gamma_correction))
                } else {
                    frame(old(self)@, i)
                },
            forall|k: int|
                #![trigger final(self)@[k]]
                0 <= k < final(self)@.len() ==> final(self)@[k] == if 24 * start <= k < 24 * end
                    && k - 24 * start < 24 * colors@.len() {
                    stream_byte(colors@, gamma_correction, k - 24 * start)
                } else {
                    old(self)@[k]
                },
    {
        proof {
            use_type_invariant(&*self);
        }
        let ghost old_buf = self.buffer@;
        let byte_len = self.buffer.len();
        proof {
            lemma_frame_end(end as int, byte_len as int);
            lemma_frame_end(start as int, byte_len as int);
        }
        let mut bytes: Vec<u8> = Vec::new();
        std::mem::swap(&mut bytes, &mut self.buffer);
        Self::set_bytes(&mut bytes, start * BYTES_PER_COLOR, end * BYTES_PER_COLOR, colors, gamma_correction);
        let ghost new_buf = bytes@;
        proof {
            lemma_frame_end(byte_len as int / 24, byte_len as int);
        }
        self.buffer = bytes;
        assert forall|i: int| 0 <= i < new_buf.len() / 24 implies #[trigger] frame(new_buf, i) == if start
            <= i < end && i - start < colors@.len() {
            spec_color_to_data(shade(colors@[i - start], gamma_correction))
        } else {
            frame(old_buf, i)
        } by {
            lemma_frame_end(i + 1, new_buf.len() as int);
            let expected = if start <= i < end && i - start < colors@.len() {
                spec_color_to_data(shade(colors@[i - start], gamma_correction))
            } else {
                frame(old_buf, i)
            };
            assert forall|b: int| 0 <= b < 24 implies #[trigger] frame(new_buf, i)[b] == expected[b] by {
                let k = 24 * i + b;
                lemma_frame_byte(i - start, b);
                lemma_frame_byte(i, b);
                assert(new_buf[k] == frame(new_buf, i)[b]);
                if start <= i < end && i - start < colors@.len() {
                    assert(24 * start <= k < 24 * end) by (nonlinear_arith)
                        requires
                            k == 24 * i + b,
                            start <= i < end,
                            0 <= b < 24,
                    ;
                    assert(k - 24 * start < 24 * colors@.len()) by (nonlinear_arith)
                        requires
                            k == 24 * i + b,
                            i - start < colors@.len(),
                            0 <= b < 24,
                    ;
                    assert(k - 24 * start == 24 * (i - start) + b) by (nonlinear_arith)
                        requires
                            k == 24 * i + b,
                    ;
                } else {
                    assert(!(24 * start <= k < 24 * end && k - 24 * start < 24 * colors@.len()))
                        by (nonlinear_arith)
                        requires
                            k == 24 * i + b,
                            0 <= b < 24,
                            !(start <= i < end && i - start < colors@.len()),
                    ;
                }
            }
            assert(frame(new_buf, i) =~= expected);
        }
    }

    /// Sets every LED of `start..end` to `color`, gamma corrected when asked.
    pub fn fill(&mut self, start: usize, end: usize, color: Rgb8, gamma_correction: bool)
        requires
            start <= end <= old(self)@.len() / 24,
        ensures
            final(self)@.len() == old(self)@.len(),
            forall|i: int|
                #![trigger frame(final(self)@, i)]
                0 <= i < final(self)@.len() / 24 ==> frame(final(self)@, i) == if start <= i < end {
                    spec_color_to_data(shade(color, gamma_correction))
                } else {
                    frame(old(self)@, i)
                },
            forall|k: int|
                #![trigger final(self)@[k]]
                0 <= k < final(self)@.len() ==> final(self)@[k] == if 24 * start <= k < 24 * end {
                    spec_color_to_data(shade(color, gamma_correction))[(k - 24 * start) % 24]
                } else {
                    old(self)@[k]
                },
    {
        proof {
            use_type_invariant(&*self);
        }
        let ghost old_buf = self.buffer@;
        let byte_len = self.buffer.len();
        proof {
            lemma_frame_end(end as int, byte_len as int);
            lemma_frame_end(start as int, byte_len as int);
        }
        let mut bytes: Vec<u8> = Vec::new();
        std::mem::swap(&mut bytes, &mut self.buffer);
        Self::fill_bytes(&mut bytes, start * BYTES_PER_COLOR, end * BYTES_PER_COLOR, color, gamma_correction);
        let ghost new_buf = bytes@;
        proof {
            lemma_frame_end(byte_len as int / 24, byte_len as int);
        }
        self.buffer = bytes;
        let ghost data = spec_color_to_data(shade(color, gamma_correction));
        assert forall|i: int| 0 <= i < new_buf.len() / 24 implies #[trigger] frame(new_buf, i) == if start
            <= i < end {
            data
        } else {
            frame(old_buf, i)
        } by {
            lemma_frame_end(i + 1, new_buf.len() as int);
            let expected = if start <= i < end {
                data
            } else {
                frame(old_buf, i)
            };
            assert forall|b: int| 0 <= b < 24 implies #[trigger] frame(new_buf, i)[b] == expected[b] by {
                let k = 24 * i + b;
                lemma_frame_byte(i - start, b);
                assert(new_buf[k] == frame(new_buf, i)[b]);
                if start <= i < end {
                    assert(24 * start <= k < 24 * end) by (nonlinear_arith)
                        requires
                            k == 24 * i + b,
                            start <= i < end,
                            0 <= b < 24,
                    ;
                    assert(k - 24 * start == 24 * (i - start) + b) by (nonlinear_arith)
                        requires
                            k == 24 * i + b,
                    ;
                } else {
                    assert(!(24 * start <= k < 24 * end)) by (nonlinear_arith)
                        requires
                            k == 24 * i + b,
                            0 <= b < 24,
                            !(start <= i < end),
                    ;
                }
            }
            assert(frame(new_buf, i) =~= expected);
        }
    }
}


/// Different channel values have different SPI encodings: the strip can tell
/// every value apart.
pub proof fn law_byte_encoding_injective(a: u8, b: u8)
    requires
        spec_byte_to_data(a) == spec_byte_to_data(b),
    ensures
        a == b,
{
    assert forall|bit: u8| bit < 8 implies ((a & (0x80u8 >> bit)) != 0) == ((b & (0x80u8
        >> bit)) != 0) by {
        assert(spec_byte_to_data(a)[bit as int] == spec_byte_to_data(b)[bit as int]);
        assert(spec_byte_to_data(a)[bit as int] == bit_data(a, bit as int));
        assert(spec_byte_to_data(b)[bit as int] == bit_data(b, bit as int));
        assert(((bit as int) as u8) == bit);
    }
    assert(a == b) by (bit_vector)
        requires
            ((a & (0x80u8 >> 0u8)) != 0) == ((b & (0x80u8 >> 0u8)) != 0),
            ((a & (0x80u8 >> 1u8)) != 0) == ((b & (0x80u8 >> 1u8)) != 0),
            ((a & (0x80u8 >> 2u8)) != 0) == ((b & (0x80u8 >> 2u8)) != 0),
            ((a & (0x80u8 >> 3u8)) != 0) == ((b & (0x80u8 >> 3u8)) != 0),
            ((a & (0x80u8 >> 4u8)) != 0) == ((b & (0x80u8 >> 4u8)) != 0),
            ((a & (0x80u8 >> 5u8)) != 0) == ((b & (0x80u8 >> 5u8)) != 0),
            ((a & (0x80u8 >> 6u8)) != 0) == ((b & (0x80u8 >> 6u8)) != 0),
            ((a & (0x80u8 >> 7u8)) != 0) == ((b & (0x80u8 >> 7u8)) != 0),
    ;
}

/// Different colours have different SPI encodings.
pub proof fn law_color_encoding_injective(a: Rgb8, b: Rgb8)
    requires
        spec_color_to_data(a) == spec_color_to_data(b),
    ensures
        a == b,
{
    let da = spec_color_to_data(a);
    let db = spec_color_to_data(b);
    assert(da.subrange(0, 8) =~= spec_byte_to_data(a.g));
    assert(db.subrange(0, 8) =~= spec_byte_to_data(b.g));
    assert(da.subrange(8, 16) =~= spec_byte_to_data(a.r));
    assert(db.subrange(8, 16) =~= spec_byte_to_data(b.r));
    assert(da.subrange(16, 24) =~= spec_byte_to_data(a.b));
    assert(db.subrange(16, 24) =~= spec_byte_to_data(b.b));
    law_byte_encoding_injective(a.g, b.g);
    law_byte_encoding_injective(a.r, b.r);
    law_byte_encoding_injective(a.b, b.b);
}

/// Setting LEDs from no colours, or over an empty LED range, leaves the buffer
/// as it was.
pub proof fn law_empty_write_changes_nothing(
    old_buf: Seq<u8>,
    new_buf: Seq<u8>,
    start: int,
    end: int,
    colors: Seq<Rgb8>,
    gamma_correction: bool,
)
    requires
        new_buf.len() == old_buf.len(),
        colors.len() == 0 || start == end,
        forall|k: int|
            0 <= k < new_buf.len() ==> #[trigger] new_buf[k] == if 24 * start <= k < 24 * end && k
                - 24 * start < 24 * colors.len() {
                stream_byte(colors, gamma_correction, k - 24 * start)
            } else {
                old_buf[k]
            },
    ensures
        new_buf == old_buf,
{
    assert(new_buf =~= old_buf);
}

/// Whether an SPI byte encodes a one bit.
pub open spec fn bit_of(b: u8) -> u8 {
    if b == LED_T1 {
        1u8
    } else {
        0u8
    }
}

/// The value of the first `n` SPI bytes of `data` read as bits, most
/// significant first.
pub open spec fn decode_prefix(data: Seq<u8>, n: nat) -> u8
    decreases n,
{
    if n == 0 {
        0u8
    } else {
        (decode_prefix(data, (n - 1) as nat) << 1u8) | bit_of(data[n - 1])
    }
}

/// The channel value a sequence of SPI bytes encodes, most significant bit
/// first.
pub open spec fn decode_byte(data: Seq<u8>) -> u8 {
    decode_prefix(data, data.len())
}

proof fn lemma_decode_step(x: u8, k: u8)
    requires
        1 <= k < 8,
    ensures
        (((x >> (8 - k) as u8) << 1u8) | (if x & (0x80u8 >> k) != 0 {
            1u8
        } else {
            0u8
        })) == x >> (7 - k) as u8,
{
    assert((((x >> (8 - k) as u8) << 1u8) | (if x & (0x80u8 >> k) != 0 {
        1u8
    } else {
        0u8
    })) == x >> (7 - k) as u8) by (bit_vector)
        requires
            1 <= k < 8,
    ;
}

proof fn lemma_decode_prefix(x: u8, n: nat)
    requires
        1 <= n <= 8,
    ensures
        decode_prefix(spec_byte_to_data(x), n) == x >> (8 - n) as u8,
    decreases n,
{
    let d = spec_byte_to_data(x);
    let k = (n - 1) as u8;
    assert(d[n - 1] == bit_data(x, n - 1));
    assert(((n - 1) as u8) == k);
    assert(bit_of(bit_data(x, n - 1)) == if x & (0x80u8 >> k) != 0 {
        1u8
    } else {
        0u8
    });
    if n == 1 {
        assert(decode_prefix(d, 0) == 0u8);
        assert(((0u8 << 1u8) | (if x & (0x80u8 >> 0u8) != 0 {
            1u8
        } else {
            0u8
        })) == x >> 7u8) by (bit_vector);
    } else {
        lemma_decode_prefix(x, (n - 1) as nat);
        lemma_decode_step(x, k);
    }
}

/// The SPI encoding of a channel value is eight bytes, each the one-bit or the
/// zero-bit pattern, and reading them back as bits, most significant first,
/// gives the value.
pub proof fn law_byte_encoding_decodes(x: u8)
    ensures
        spec_byte_to_data(x).len() == 8,
        forall|i: int|
            0 <= i < 8 ==> #[trigger] spec_byte_to_data(x)[i] == LED_T0 || spec_byte_to_data(x)[i]
                == LED_T1,
        decode_byte(spec_byte_to_data(x)) == x,
{
    lemma_decode_prefix(x, 8);
    assert((x >> 0u8) == x) by (bit_vector);
}

} // verus!

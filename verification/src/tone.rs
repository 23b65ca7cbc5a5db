//! Brightness arithmetic: contrast stretch, glyph selection and shade
//! quantisation. Everything here is exact integer arithmetic on bytes.

use vstd::prelude::*;

verus! {

/// `v` limited to the range of a byte.
pub open spec fn clamp_byte(v: int) -> int {
    if v < 0 {
        0
    } else if v > 255 {
        255
    } else {
        v
    }
}

/// The contrast stretch of slope 3/2 about mid-gray.
///
/// On the unit interval the stretch maps `t` to `(t - 1/2) * 3/2 + 1/2`,
/// limited to `[0, 1]`. For `t = luma / 255` and scaled back by 255 that is
/// `(6 * luma - 255) / 4`, limited to `[0, 255]`; the result is its integer
/// part.
pub open spec fn stretched(luma: int) -> int {
    clamp_byte((6 * luma - 255) / 4)
}

/// Index into a gradient of `len` glyphs for a brightness: the darkest glyph
/// for 0, the lightest for 255, linear in between and rounded down.
pub open spec fn glyph_index(luma: int, len: int) -> int {
    luma * (len - 1) / 255
}

/// The integer nearest to `a / b`, halves rounded up.
pub open spec fn round_div(a: int, b: int) -> int {
    (2 * a + b) / (2 * b)
}

/// Which of the `shades` equal steps across `[0, 255]` lies nearest to `tone`.
pub open spec fn shade_index(tone: int, shades: int) -> int {
    let top = shades - 1;
    let nearest = round_div(tone * top, 255);
    if nearest < 0 {
        0
    } else if nearest > top {
        top
    } else {
        nearest
    }
}

/// `tone` quantised to `shades` equal steps across `[0, 255]`.
pub open spec fn shade_value(tone: int, shades: int) -> int {
    round_div(shade_index(tone, shades) * 255, shades - 1)
}

/// Applies the contrast stretch to a brightness.
pub fn enhance_contrast(luma: u8) -> (enhanced: u8)
    ensures
        enhanced == stretched(luma as int),
{
    let scaled: u32 = 6 * (luma as u32);
    if scaled <= 255 {
        0
    } else if scaled >= 1275 {
        255
    } else {
        ((scaled - 255) / 4) as u8
    }
}

/// The stretch yields the integer part of `(6 * luma - 255) / 4` cut off at
/// 0 and 255: black up to a brightness of 43, white from 213 on. It never
/// reverses the order of two brightness values.
pub proof fn lemma_stretch(luma: int, brighter: int)
    requires
        0 <= luma <= brighter <= 255,
    ensures
        luma <= 43 <==> stretched(luma) == 0,
        luma >= 213 <==> stretched(luma) == 255,
        43 <= luma <= 212 ==> 4 * stretched(luma) <= 6 * luma - 255 < 4 * stretched(luma) + 4,
        stretched(luma) <= stretched(brighter),
{
}

/// Picks the glyph for a brightness from a dark-to-light gradient.
pub fn map_luma_to_char(luma: u8, charset: &[char]) -> (glyph: char)
    requires
        charset@.len() >= 1,
    ensures
        0 <= glyph_index(luma as int, charset@.len() as int) < charset@.len(),
        glyph == charset@[glyph_index(luma as int, charset@.len() as int)],
        luma == 0 ==> glyph == charset@.first(),
        luma == 255 ==> glyph == charset@.last(),
{
    let last = charset.len() - 1;
    proof {
        lemma_glyph_index_bounds(luma as int, charset@.len() as int);
    }
    let index = ((luma as u128) * (last as u128) / 255) as usize;
    charset[index]
}

/// The glyph index stays inside the gradient, and the two extremes of
/// brightness select its two ends.
pub proof fn lemma_glyph_index_bounds(luma: int, len: int)
    requires
        0 <= luma <= 255,
        len >= 1,
    ensures
        0 <= luma * (len - 1) <= 255 * (len - 1),
        0 <= glyph_index(luma, len) < len,
        glyph_index(0, len) == 0,
        glyph_index(255, len) == len - 1,
{
    assert(0 <= luma * (len - 1) <= 255 * (len - 1)) by (nonlinear_arith)
        requires
            0 <= luma <= 255,
            len >= 1,
    ;
}

/// Quantises a brightness to `shades` equal steps across `[0, 255]`.
pub fn quantize(tone: u8, shades: u32) -> (value: u8)
    requires
        shades >= 2,
    ensures
        value == shade_value(tone as int, shades as int),
{
    let top: u64 = (shades - 1) as u64;
    proof {
        lemma_shade_bounds(tone as int, shades as int);
    }
    let nearest: u64 = (2 * (tone as u64 * top) + 255) / 510;
    let index: u64 = if nearest > top {
        top
    } else {
        nearest
    };
    ((2 * (index * 255) + top) / (2 * top)) as u8
}

/// The nearest step never leaves `[0, shades - 1]`, and a quantised
/// brightness is a byte.
pub proof fn lemma_shade_bounds(tone: int, shades: int)
    requires
        0 <= tone <= 255,
        shades >= 2,
    ensures
        0 <= tone * (shades - 1) <= 255 * (shades - 1),
        0 <= round_div(tone * (shades - 1), 255) <= shades - 1,
        shade_index(tone, shades) == round_div(tone * (shades - 1), 255),
        0 <= shade_index(tone, shades) * 255 <= 255 * (shades - 1),
        0 <= shade_value(tone, shades) <= 255,
{
    let top = shades - 1;
    assert(0 <= tone * top <= 255 * top) by (nonlinear_arith)
        requires
            0 <= tone <= 255,
            top >= 1,
    ;
    let product = tone * top;
    assert(0 <= (2 * product + 255) / 510 <= top);
    let index = shade_index(tone, shades);
    assert(0 <= index <= top);
    assert(0 <= index * 255 <= 255 * top);
    assert(0 <= (2 * (index * 255) + top) / (2 * top) <= 255) by (nonlinear_arith)
        requires
            0 <= index * 255 <= 255 * top,
            top >= 1,
    ;
}

/// `round_div(a, b)` is the integer nearest to `a / b`: the two differ by at
/// most one half, and a quotient halfway between two integers goes up.
pub proof fn lemma_round_div_nearest(a: int, b: int)
    requires
        a >= 0,
        b > 0,
    ensures
        2 * (round_div(a, b) * b) - b <= 2 * a < 2 * (round_div(a, b) * b) + b,
{
    let q = (2 * a + b) / (2 * b);
    vstd::arithmetic::div_mod::lemma_fundamental_div_mod(2 * a + b, 2 * b);
    assert((2 * b) * q == 2 * (q * b)) by (nonlinear_arith);
    vstd::arithmetic::div_mod::lemma_mod_bound(2 * a + b, 2 * b);
}

/// Quantising to two shades is thresholding at 128.
pub proof fn lemma_two_shades_threshold(tone: int)
    requires
        0 <= tone <= 255,
    ensures
        shade_value(tone, 2) == if tone < 128 {
            0int
        } else {
            255int
        },
{
    let top = 2 - 1;
    assert(tone * top == tone) by (nonlinear_arith)
        requires
            top == 1,
    ;
    assert(round_div(tone, 255) == (2 * tone + 255) / 510);
    let index = shade_index(tone, 2);
    assert(index == if tone < 128 {
        0int
    } else {
        1int
    });
    assert(round_div(0, 1) == (2 * 0 + 1) / 2);
    assert(round_div(255, 1) == (2 * 255 + 1) / 2);
}

/// Quantising keeps black black and white white.
pub proof fn lemma_shade_extremes(shades: int)
    requires
        shades >= 2,
    ensures
        shade_value(0, shades) == 0,
        shade_value(255, shades) == 255,
{
    let top = shades - 1;
    assert(0 * top == 0 && 255 * top == top * 255) by (nonlinear_arith);
    assert(round_div(0, 255) == (2 * 0 + 255) / 510);
    assert(round_div(255 * top, 255) == (2 * (255 * top) + 255) / 510);
    assert(shade_index(0, shades) == 0);
    assert(shade_index(255, shades) == top);
    assert(0 * 255 == 0);
    assert(round_div(0, top) == 0) by (nonlinear_arith)
        requires
            top >= 1,
    ;
    assert(round_div(top * 255, top) == 255) by (nonlinear_arith)
        requires
            top >= 1,
    ;
}

/// With one shade for each byte value, quantising changes nothing.
pub proof fn lemma_full_shades_identity(tone: int)
    requires
        0 <= tone <= 255,
    ensures
        shade_value(tone, 256) == tone,
{
    let top = 256 - 1;
    assert(tone * top == tone * 255) by (nonlinear_arith)
        requires
            top == 255,
    ;
    assert(round_div(tone * 255, 255) == (2 * (tone * 255) + 255) / 510);
    assert(shade_index(tone, 256) == tone);
}

} // verus!

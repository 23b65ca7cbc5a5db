//! Background matting: which pixels of a rendered frame count as background,
//! and what becomes of each pixel in the transparent image.

use vstd::prelude::*;

verus! {

/// A transparent pixel: white with no opacity.
pub const TRANSPARENT: (u8, u8, u8, u8) = (255, 255, 255, 0);

/// Distance between two brightness values.
pub open spec fn distance(a: u8, b: u8) -> int {
    if a >= b {
        a - b
    } else {
        b - a
    }
}

/// Whether a pixel counts as background: its brightness is within
/// `tolerance` of the background's.
pub open spec fn is_matte(pixel: u8, background: u8, tolerance: u8) -> bool {
    distance(pixel, background) <= tolerance
}

/// What becomes of a pixel: transparent white where it counts as
/// background, else its own gray at full opacity.
pub open spec fn matted(pixel: u8, background: u8, tolerance: u8) -> (u8, u8, u8, u8) {
    if is_matte(pixel, background, tolerance) {
        TRANSPARENT
    } else {
        (pixel, pixel, pixel, 255u8)
    }
}

/// Decides what becomes of one pixel.
pub fn matte_pixel(pixel: u8, background: u8, tolerance: u8) -> (out: (u8, u8, u8, u8))
    ensures
        out == matted(pixel, background, tolerance),
{
    let difference = if pixel >= background {
        pixel - background
    } else {
        background - pixel
    };
    if difference <= tolerance {
        TRANSPARENT
    } else {
        (pixel, pixel, pixel, 255)
    }
}

/// With no tolerance only the background brightness itself is matted.
pub proof fn lemma_exact_match(pixel: u8, background: u8)
    ensures
        is_matte(pixel, background, 0) <==> pixel == background,
        matted(pixel, background, 0).3 == if pixel == background {
            0u8
        } else {
            255u8
        },
{
}

/// The matted pixels are those in `[background - tolerance, background +
/// tolerance]`, the range cut off at the ends of the byte range.
pub proof fn lemma_matte_range(pixel: u8, background: u8, tolerance: u8)
    ensures
        is_matte(pixel, background, tolerance) <==> {
            &&& pixel >= background - tolerance
            &&& pixel <= background + tolerance
        },
        is_matte(pixel, background, tolerance) <==> {
            &&& pixel >= if background >= tolerance {
                background - tolerance
            } else {
                0
            }
            &&& pixel <= if background + tolerance <= 255 {
                background + tolerance
            } else {
                255
            }
        },
{
}

} // verus!

//! Background detection: the most frequent brightness of an image.

use vstd::prelude::*;

verus! {

/// Brightness reported for an image without pixels.
pub const EMPTY_BACKGROUND: u8 = 255;

/// How often `value` occurs among `pixels`.
pub open spec fn occurrences(pixels: Seq<u8>, value: u8) -> nat
    decreases pixels.len(),
{
    if pixels.len() == 0 {
        0
    } else {
        occurrences(pixels.drop_last(), value) + if pixels.last() == value {
            1nat
        } else {
            0nat
        }
    }
}

/// Whether `value` is the background of `pixels`: no brightness occurs more
/// often, and every lower brightness occurs less often. Without pixels the
/// background is white.
pub open spec fn is_background(pixels: Seq<u8>, value: u8) -> bool {
    if pixels.len() == 0 {
        value == EMPTY_BACKGROUND
    } else {
        &&& forall|other: u8| #[trigger] occurrences(pixels, other) <= occurrences(pixels, value)
        &&& forall|other: u8|
            other < value ==> #[trigger] occurrences(pixels, other) < occurrences(pixels, value)
    }
}

/// Whether `value` occurs more often among `pixels` than any other
/// brightness.
pub open spec fn dominates(pixels: Seq<u8>, value: u8) -> bool {
    forall|other: u8|
        other != value ==> #[trigger] occurrences(pixels, other) < occurrences(pixels, value)
}

/// Counting one more pixel raises the count of its brightness by one and
/// leaves every other count as it was.
pub proof fn lemma_occurrences_step(pixels: Seq<u8>, seen: int, value: u8)
    requires
        0 <= seen < pixels.len(),
    ensures
        occurrences(pixels.take(seen + 1), value) == occurrences(pixels.take(seen), value)
            + if pixels[seen] == value {
            1nat
        } else {
            0nat
        },
{
    assert(pixels.take(seen + 1).drop_last() == pixels.take(seen));
}

/// No brightness occurs more often than there are pixels.
pub proof fn lemma_occurrences_bound(pixels: Seq<u8>, value: u8)
    ensures
        occurrences(pixels, value) <= pixels.len(),
    decreases pixels.len(),
{
    if pixels.len() > 0 {
        lemma_occurrences_bound(pixels.drop_last(), value);
    }
}

/// An image has at most one background.
pub proof fn lemma_background_is_unique(pixels: Seq<u8>, a: u8, b: u8)
    requires
        is_background(pixels, a),
        is_background(pixels, b),
    ensures
        a == b,
{
    if pixels.len() > 0 {
        if a < b {
            assert(occurrences(pixels, a) < occurrences(pixels, b));
            assert(occurrences(pixels, b) <= occurrences(pixels, a));
        } else if b < a {
            assert(occurrences(pixels, b) < occurrences(pixels, a));
            assert(occurrences(pixels, a) <= occurrences(pixels, b));
        }
    }
}

/// A brightness that occurs more often than any other is the background,
/// wherever it stands among the brightness values.
pub proof fn lemma_dominant_value_is_background(pixels: Seq<u8>, value: u8, background: u8)
    requires
        dominates(pixels, value),
        is_background(pixels, background),
    ensures
        background == value,
        is_background(pixels, value),
{
    let other: u8 = if value == 0 {
        1
    } else {
        0
    };
    assert(occurrences(pixels, other) < occurrences(pixels, value));
    assert(pixels.len() > 0);
    if background != value {
        assert(occurrences(pixels, background) < occurrences(pixels, value));
        assert(occurrences(pixels, value) <= occurrences(pixels, background));
    }
}

} // verus!

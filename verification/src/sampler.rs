//! Block sampling: the mean brightness of a rectangle of a grayscale image.

use vstd::prelude::*;
use crate::raster::{lemma_offset_in_range, GrayImage, Raster};

verus! {

/// Number of integers in `[from, to)`.
pub open spec fn span(from: int, to: int) -> int {
    if to > from {
        to - from
    } else {
        0
    }
}

/// The smaller of two integers.
pub open spec fn lesser(a: int, b: int) -> int {
    if a <= b {
        a
    } else {
        b
    }
}

/// Sum of the brightness over the pixels `[x0, x1)` of row `y`.
pub open spec fn row_sum(image: Raster<u8>, y: int, x0: int, x1: int) -> int
    decreases x1 - x0,
{
    if x1 <= x0 {
        0
    } else {
        row_sum(image, y, x0, x1 - 1) + image.at(x1 - 1, y)
    }
}

/// Sum of the brightness over the rectangle `[x0, x1) × [y0, y1)`.
pub open spec fn region_sum(image: Raster<u8>, x0: int, x1: int, y0: int, y1: int) -> int
    decreases y1 - y0,
{
    if y1 <= y0 {
        0
    } else {
        region_sum(image, x0, x1, y0, y1 - 1) + row_sum(image, y1 - 1, x0, x1)
    }
}

/// Mean brightness, rounded down, over the part of `[x0, x1) × [y0, y1)`
/// that lies inside the image; 0 where no pixel does.
pub open spec fn mean_luma(image: Raster<u8>, x0: int, x1: int, y0: int, y1: int) -> int {
    let x_end = lesser(x1, image.width as int);
    let y_end = lesser(y1, image.height as int);
    let count = span(x0, x_end) * span(y0, y_end);
    if count == 0 {
        0
    } else {
        region_sum(image, x0, x_end, y0, y_end) / count
    }
}

/// The sum over a rectangle is at most 255 per pixel.
pub proof fn lemma_region_sum_bounds(image: Raster<u8>, x0: int, x1: int, y0: int, y1: int)
    ensures
        0 <= region_sum(image, x0, x1, y0, y1) <= 255 * (span(x0, x1) * span(y0, y1)),
    decreases y1 - y0,
{
    if y1 > y0 {
        lemma_region_sum_bounds(image, x0, x1, y0, y1 - 1);
        lemma_row_sum_bounds(image, y1 - 1, x0, x1);
        assert(span(x0, x1) * span(y0, y1) == span(x0, x1) * span(y0, y1 - 1) + span(x0, x1))
            by (nonlinear_arith)
            requires
                span(y0, y1) == span(y0, y1 - 1) + 1,
        ;
    } else {
        assert(span(x0, x1) * span(y0, y1) == 0) by (nonlinear_arith)
            requires
                span(y0, y1) == 0,
        ;
    }
}

/// The sum over part of a row is at most 255 per pixel.
pub proof fn lemma_row_sum_bounds(image: Raster<u8>, y: int, x0: int, x1: int)
    ensures
        0 <= row_sum(image, y, x0, x1) <= 255 * span(x0, x1),
    decreases x1 - x0,
{
    if x1 > x0 {
        lemma_row_sum_bounds(image, y, x0, x1 - 1);
    }
}

/// The mean brightness is a byte.
pub proof fn lemma_mean_luma_is_byte(image: Raster<u8>, x0: int, x1: int, y0: int, y1: int)
    ensures
        0 <= mean_luma(image, x0, x1, y0, y1) <= 255,
{
    let x_end = lesser(x1, image.width as int);
    let y_end = lesser(y1, image.height as int);
    let count = span(x0, x_end) * span(y0, y_end);
    let sum = region_sum(image, x0, x_end, y0, y_end);
    lemma_region_sum_bounds(image, x0, x_end, y0, y_end);
    assert(count >= 0) by (nonlinear_arith)
        requires
            count == span(x0, x_end) * span(y0, y_end),
            span(x0, x_end) >= 0,
            span(y0, y_end) >= 0,
    ;
    if count != 0 {
        assert(0 <= sum / count <= 255) by (nonlinear_arith)
            requires
                0 <= sum <= 255 * count,
                count > 0,
        ;
    }
}

/// Whether every pixel of an image has the brightness `value`.
pub open spec fn is_uniform(image: Raster<u8>, value: u8) -> bool {
    forall|i: int| 0 <= i < image.pixels.len() ==> #[trigger] image.pixels[i] == value
}

/// Over an image of one brightness, the sum over part of a row is that
/// brightness times the number of pixels.
pub proof fn lemma_row_sum_of_uniform(image: Raster<u8>, value: u8, y: int, x0: int, x1: int)
    requires
        image.wf(),
        is_uniform(image, value),
        0 <= x0 <= x1 <= image.width,
        0 <= y < image.height,
    ensures
        row_sum(image, y, x0, x1) == value * (x1 - x0),
    decreases x1 - x0,
{
    if x1 > x0 {
        lemma_row_sum_of_uniform(image, value, y, x0, x1 - 1);
        lemma_offset_in_range(image.width as int, image.height as int, x1 - 1, y);
        assert(image.at(x1 - 1, y) == value);
        assert(value * (x1 - x0) == value * (x1 - 1 - x0) + value) by (nonlinear_arith);
    } else {
        assert(value * (x1 - x0) == 0) by (nonlinear_arith)
            requires
                x1 - x0 == 0,
        ;
    }
}

/// Over an image of one brightness, the sum over a rectangle is that
/// brightness times the number of pixels.
pub proof fn lemma_region_sum_of_uniform(
    image: Raster<u8>,
    value: u8,
    x0: int,
    x1: int,
    y0: int,
    y1: int,
)
    requires
        image.wf(),
        is_uniform(image, value),
        0 <= x0 <= x1 <= image.width,
        0 <= y0 <= y1 <= image.height,
    ensures
        region_sum(image, x0, x1, y0, y1) == value * ((x1 - x0) * (y1 - y0)),
    decreases y1 - y0,
{
    if y1 > y0 {
        lemma_region_sum_of_uniform(image, value, x0, x1, y0, y1 - 1);
        lemma_row_sum_of_uniform(image, value, y1 - 1, x0, x1);
        assert(value * ((x1 - x0) * (y1 - y0)) == value * ((x1 - x0) * (y1 - 1 - y0)) + value * (x1
            - x0)) by (nonlinear_arith);
    } else {
        assert(value * ((x1 - x0) * (y1 - y0)) == 0) by (nonlinear_arith)
            requires
                y1 - y0 == 0,
        ;
    }
}

/// Over an image of one brightness, the mean over any rectangle that holds
/// a pixel of the image is that brightness.
pub proof fn lemma_mean_of_uniform(
    image: Raster<u8>,
    value: u8,
    x0: int,
    x1: int,
    y0: int,
    y1: int,
)
    requires
        image.wf(),
        is_uniform(image, value),
        0 <= x0 < x1,
        0 <= y0 < y1,
        x0 < image.width,
        y0 < image.height,
    ensures
        mean_luma(image, x0, x1, y0, y1) == value,
{
    let x_end = lesser(x1, image.width as int);
    let y_end = lesser(y1, image.height as int);
    let count = span(x0, x_end) * span(y0, y_end);
    lemma_region_sum_of_uniform(image, value, x0, x_end, y0, y_end);
    assert(count > 0) by (nonlinear_arith)
        requires
            count == span(x0, x_end) * span(y0, y_end),
            span(x0, x_end) > 0,
            span(y0, y_end) > 0,
    ;
    assert((value * count) / count == value) by (nonlinear_arith)
        requires
            count > 0,
    ;
}

/// Mean brightness over the part of `[x0, x1) × [y0, y1)` that lies inside
/// the image.
pub fn average_luma(image: &GrayImage, x0: u32, x1: u32, y0: u32, y1: u32) -> (mean: u8)
    ensures
        mean == mean_luma(image@, x0 as int, x1 as int, y0 as int, y1 as int),
{
    let (width, height) = image.dimensions();
    let x_end = if x1 <= width {
        x1
    } else {
        width
    };
    let y_end = if y1 <= height {
        y1
    } else {
        height
    };
    if x0 >= x_end || y0 >= y_end {
        assert(span(x0 as int, x_end as int) * span(y0 as int, y_end as int) == 0)
            by (nonlinear_arith)
            requires
                span(x0 as int, x_end as int) == 0 || span(y0 as int, y_end as int) == 0,
        ;
        return 0;
    }
    let ghost cols = x_end - x0;
    let mut sum: u128 = 0;
    let mut count: u64 = 0;
    let mut y = y0;
    while y < y_end
        invariant
            x0 < x_end <= width,
            y0 <= y <= y_end <= height,
            width == image@.width,
            height == image@.height,
            cols == x_end - x0,
            sum == region_sum(image@, x0 as int, x_end as int, y0 as int, y as int),
            count == cols * (y - y0),
            sum <= 255 * count,
        decreases y_end - y,
    {
        let mut x = x0;
        while x < x_end
            invariant
                x0 <= x <= x_end <= width,
                y0 <= y < y_end <= height,
                width == image@.width,
                height == image@.height,
                cols == x_end - x0,
                sum == region_sum(image@, x0 as int, x_end as int, y0 as int, y as int) + row_sum(
                    image@,
                    y as int,
                    x0 as int,
                    x as int,
                ),
                count == cols * (y - y0) + (x - x0),
                sum <= 255 * count,
            decreases x_end - x,
        {
            assert(cols * (y - y0) + (x - x0) < u64::MAX) by (nonlinear_arith)
                requires
                    0 < cols <= u32::MAX,
                    0 <= y - y0 < u32::MAX,
                    0 <= x - x0 < cols,
            ;
            sum = sum + image.get_pixel(x, y) as u128;
            count = count + 1;
            x += 1;
        }
        assert(cols * (y + 1 - y0) == cols * (y - y0) + cols) by (nonlinear_arith);
        y += 1;
    }
    proof {
        lemma_mean_luma_is_byte(image@, x0 as int, x1 as int, y0 as int, y1 as int);
        assert(count == span(x0 as int, x_end as int) * span(y0 as int, y_end as int));
        assert(count > 0) by (nonlinear_arith)
            requires
                count == cols * (y_end - y0),
                cols > 0,
                y_end - y0 > 0,
        ;
    }
    (sum / (count as u128)) as u8
}

} // verus!

//! Frame conversion: options, the per-frame transform, background detection
//! and transparency.

use vstd::prelude::*;
use crate::background::{
    dominates, is_background, lemma_dominant_value_is_background, lemma_occurrences_bound,
    lemma_occurrences_step, occurrences, EMPTY_BACKGROUND,
};
use crate::font::{glyph_rows, GLYPH_SIZE};
use crate::matte::{is_matte, matte_pixel, matted};
use crate::raster::{
    lemma_index_is_offset, lemma_offset_in_range, lemma_offset_injective, GrayImage, Raster,
    RgbaImage,
};
use crate::render::{draw_glyph_bw, draw_glyph_gray, glyph_pixel, RenderMode, PAPER};
use crate::sampler::{average_luma, is_uniform, lemma_mean_of_uniform, mean_luma};
use crate::text::chars_of;
use crate::tone::{enhance_contrast, glyph_index, map_luma_to_char, stretched};

verus! {

/// Largest number of shades: one per byte value.
pub const MAX_SHADES: u32 = 256;

/// The gradient used where none is configured, dark to light: `@#*+=-:. `.
pub open spec fn default_charset() -> Seq<char> {
    seq!['@', '#', '*', '+', '=', '-', ':', '.', ' ']
}

/// `v` limited to `[low, high]`.
pub open spec fn clamped(v: int, low: int, high: int) -> int {
    if v < low {
        low
    } else if v > high {
        high
    } else {
        v
    }
}

/// Configuration of the transform.
#[derive(Debug, Clone)]
pub struct AsciiOptions {
    /// Number of glyph columns asked for; at least 1.
    pub columns: u32,
    /// Glyphs from dark to light; never empty.
    pub charset: Vec<char>,
    /// Number of shades, from 1 (black and white) to 256.
    pub shades: u32,
}

impl AsciiOptions {
    /// The invariant of the configuration.
    pub open spec fn wf(self) -> bool {
        &&& self.columns >= 1
        &&& self.charset@.len() >= 1
        &&& 1 <= self.shades <= MAX_SHADES
    }

    /// Options with `columns` raised to at least 1, `shades` limited to
    /// `[1, 256]`, and the characters of `charset` as gradient, or the
    /// default gradient where `charset` is empty.
    pub fn new(columns: u32, charset: &str, shades: u32) -> (options: AsciiOptions)
        ensures
            options.wf(),
            options.columns == clamped(columns as int, 1, u32::MAX as int),
            options.shades == clamped(shades as int, 1, MAX_SHADES as int),
            options.charset@ == if charset@.len() == 0 {
                default_charset()
            } else {
                charset@
            },
    {
        let mut chars = chars_of(charset);
        if chars.len() == 0 {
            chars = vec!['@', '#', '*', '+', '=', '-', ':', '.', ' '];
        }
        AsciiOptions {
            columns: if columns < 1 {
                1
            } else {
                columns
            },
            charset: chars,
            shades: if shades < 1 {
                1
            } else if shades > MAX_SHADES {
                MAX_SHADES
            } else {
                shades
            },
        }
    }
}

/// Brightness of the block in column `col` and row `row` of the grid, after
/// the contrast stretch.
pub open spec fn block_tone(source: Raster<u8>, col: int, row: int) -> int {
    stretched(
        mean_luma(
            source,
            col * GLYPH_SIZE,
            col * GLYPH_SIZE + GLYPH_SIZE,
            row * GLYPH_SIZE,
            row * GLYPH_SIZE + GLYPH_SIZE,
        ),
    )
}

/// The character that stands for a block.
pub open spec fn block_glyph(source: Raster<u8>, charset: Seq<char>, col: int, row: int) -> char {
    charset[glyph_index(block_tone(source, col, row), charset.len() as int)]
}

/// The pixel `(px, py)` of the rendered frame: that of the glyph of the
/// block it lies in, inked as the mode has it for the block's brightness.
pub open spec fn frame_pixel(
    source: Raster<u8>,
    charset: Seq<char>,
    mode: RenderMode,
    px: int,
    py: int,
) -> u8 {
    let col = px / (GLYPH_SIZE as int);
    let row = py / (GLYPH_SIZE as int);
    glyph_pixel(
        glyph_rows(block_glyph(source, charset, col, row)),
        mode.ink_for(block_tone(source, col, row)) as u8,
        px % (GLYPH_SIZE as int),
        py % (GLYPH_SIZE as int),
    )
}

/// The largest multiple of the block size that is no greater than `len`.
pub open spec fn tiled(len: nat) -> nat {
    GLYPH_SIZE as nat * (len / (GLYPH_SIZE as nat))
}

/// Tiling drops fewer pixels than a block is wide, and none where the
/// length is a multiple of the block size.
pub proof fn lemma_tiled(len: nat)
    ensures
        tiled(len) <= len < tiled(len) + GLYPH_SIZE,
        tiled(len) % (GLYPH_SIZE as nat) == 0,
        len % (GLYPH_SIZE as nat) == 0 <==> tiled(len) == len,
{
}

/// The rendering of `source`: as many whole blocks as fit in each direction,
/// and every pixel that of its block's glyph.
pub open spec fn rendering(source: Raster<u8>, charset: Seq<char>, mode: RenderMode) -> Raster<u8> {
    let width = tiled(source.width);
    let height = tiled(source.height);
    Raster {
        width,
        height,
        pixels: Seq::new(
            width * height,
            |i: int| frame_pixel(source, charset, mode, i % (width as int), i / (width as int)),
        ),
    }
}

/// The rendering holds at each coordinate the pixel of the glyph that covers
/// it.
pub proof fn lemma_rendering_at(
    source: Raster<u8>,
    charset: Seq<char>,
    mode: RenderMode,
    px: int,
    py: int,
)
    requires
        rendering(source, charset, mode).contains(px, py),
    ensures
        rendering(source, charset, mode).at(px, py) == frame_pixel(source, charset, mode, px, py),
{
    let output = rendering(source, charset, mode);
    let width = output.width as int;
    lemma_offset_in_range(width, output.height as int, px, py);
    let index = output.offset(px, py);
    lemma_index_is_offset(width, output.height as int, index);
    lemma_offset_injective(width, px, py, index % width, index / width);
}

/// A source of one brightness renders as one glyph in one ink, repeated in
/// every block.
pub proof fn lemma_uniform_source(
    source: Raster<u8>,
    value: u8,
    charset: Seq<char>,
    mode: RenderMode,
    px: int,
    py: int,
)
    requires
        source.wf(),
        is_uniform(source, value),
        rendering(source, charset, mode).contains(px, py),
    ensures
        frame_pixel(source, charset, mode, px, py) == glyph_pixel(
            glyph_rows(charset[glyph_index(stretched(value as int), charset.len() as int)]),
            mode.ink_for(stretched(value as int)) as u8,
            px % (GLYPH_SIZE as int),
            py % (GLYPH_SIZE as int),
        ),
        frame_pixel(source, charset, mode, px, py) == frame_pixel(
            source,
            charset,
            mode,
            px % (GLYPH_SIZE as int),
            py % (GLYPH_SIZE as int),
        ),
{
    let col = px / (GLYPH_SIZE as int);
    let row = py / (GLYPH_SIZE as int);
    lemma_mean_of_uniform(
        source,
        value,
        col * GLYPH_SIZE,
        col * GLYPH_SIZE + GLYPH_SIZE,
        row * GLYPH_SIZE,
        row * GLYPH_SIZE + GLYPH_SIZE,
    );
    lemma_mean_of_uniform(source, value, 0, GLYPH_SIZE as int, 0, GLYPH_SIZE as int);
    assert(block_tone(source, col, row) == stretched(value as int));
    assert(block_tone(source, 0, 0) == stretched(value as int));
}

/// In black and white every pixel of a rendering is black or white.
pub proof fn lemma_black_and_white(source: Raster<u8>, charset: Seq<char>, index: int)
    requires
        0 <= index < rendering(source, charset, RenderMode::BlackWhite).pixels.len(),
    ensures
        rendering(source, charset, RenderMode::BlackWhite).pixels[index] == 0 || rendering(
            source,
            charset,
            RenderMode::BlackWhite,
        ).pixels[index] == 255,
{
}

/// Renders a frame as glyphs.
///
/// The source is tiled into blocks of 8×8 pixels, partial blocks at the
/// right and bottom edges being dropped. Each block is drawn as the glyph that
/// the gradient holds for its stretched mean brightness.
pub fn convert_frame_to_ascii(source: &GrayImage, options: &AsciiOptions) -> (output: GrayImage)
    requires
        options.charset@.len() >= 1,
    ensures
        output@ == rendering(source@, options.charset@, RenderMode::for_shades(options.shades)),
        output@.wf(),
        output@.width == tiled(source@.width),
        output@.height == tiled(source@.height),
        source@.width % (GLYPH_SIZE as nat) == 0 ==> output@.width == source@.width,
        source@.height % (GLYPH_SIZE as nat) == 0 ==> output@.height == source@.height,
        options.shades <= 1 ==> forall|i: int|
            0 <= i < output@.pixels.len() ==> output@.pixels[i] == 0 || output@.pixels[i] == 255,
{
    let (width, height) = source.dimensions();
    let columns = width / GLYPH_SIZE;
    let rows = height / GLYPH_SIZE;
    let out_width = columns * GLYPH_SIZE;
    let out_height = rows * GLYPH_SIZE;
    assert(out_width * out_height <= width * height) by (nonlinear_arith)
        requires
            0 <= out_width <= width,
            0 <= out_height <= height,
    ;
    let mode = RenderMode::from_shades(options.shades);
    let mut output = GrayImage::from_pixel(out_width, out_height, PAPER);
    let ghost charset = options.charset@;
    let mut row: u32 = 0;
    while row < rows
        invariant
            row <= rows,
            charset == options.charset@,
            charset.len() >= 1,
            mode.wf(),
            out_width == columns * GLYPH_SIZE,
            out_height == rows * GLYPH_SIZE,
            output@.wf(),
            output@.width == out_width,
            output@.height == out_height,
            forall|px: int, py: int|
                output@.contains(px, py) && py < row * GLYPH_SIZE ==> #[trigger] output@.at(px, py)
                    == frame_pixel(source@, charset, mode, px, py),
        decreases rows - row,
    {
        let y0 = row * GLYPH_SIZE;
        let y1 = y0 + GLYPH_SIZE;
        let mut col: u32 = 0;
        while col < columns
            invariant
                col <= columns,
                row < rows,
                y0 == row * GLYPH_SIZE,
                y1 == y0 + GLYPH_SIZE,
                charset == options.charset@,
                charset.len() >= 1,
                mode.wf(),
                out_width == columns * GLYPH_SIZE,
                out_height == rows * GLYPH_SIZE,
                output@.wf(),
                output@.width == out_width,
                output@.height == out_height,
                forall|px: int, py: int|
                    output@.contains(px, py) && (py < y0 || (py < y1 && px < col * GLYPH_SIZE))
                        ==> #[trigger] output@.at(px, py) == frame_pixel(
                        source@,
                        charset,
                        mode,
                        px,
                        py,
                    ),
            decreases columns - col,
        {
            let x0 = col * GLYPH_SIZE;
            let x1 = x0 + GLYPH_SIZE;
            let luma = average_luma(source, x0, x1, y0, y1);
            let enhanced = enhance_contrast(luma);
            let ch = map_luma_to_char(enhanced, options.charset.as_slice());
            assert(enhanced == block_tone(source@, col as int, row as int));
            assert(ch == block_glyph(source@, charset, col as int, row as int));
            match mode {
                RenderMode::BlackWhite => draw_glyph_bw(&mut output, x0, y0, ch),
                RenderMode::Graded { shades } => draw_glyph_gray(
                    &mut output,
                    x0,
                    y0,
                    ch,
                    enhanced,
                    shades,
                ),
            }
            col += 1;
        }
        row += 1;
    }
    proof {
        let expected = rendering(source@, charset, mode);
        assert forall|i: int| 0 <= i < output@.pixels.len() implies output@.pixels[i]
            == expected.pixels[i] by {
            output@.lemma_pixel_of_index(i);
        }
        assert(output@.pixels =~= expected.pixels);
    }
    output
}

/// What becomes of an image when its background is made transparent: each
/// pixel matted on its own.
pub open spec fn transparent(source: Raster<u8>, background: u8, tolerance: u8) -> Raster<
    (u8, u8, u8, u8),
> {
    Raster {
        width: source.width,
        height: source.height,
        pixels: Seq::new(
            source.pixels.len(),
            |i: int| matted(source.pixels[i], background, tolerance),
        ),
    }
}

/// Makes the background of a rendered frame transparent.
///
/// Every pixel whose brightness is within `threshold` of `bg_color` becomes
/// transparent white; every other pixel keeps its gray at full opacity.
pub fn convert_to_transparent(source: &GrayImage, bg_color: u8, threshold: u8) -> (output:
    RgbaImage)
    requires
        4 * (source@.width * source@.height) <= isize::MAX,
    ensures
        output@ == transparent(source@, bg_color, threshold),
        output@.wf(),
        output@.width == source@.width,
        output@.height == source@.height,
        forall|i: int|
            0 <= i < output@.pixels.len() ==> #[trigger] output@.pixels[i].3 == if is_matte(
                source@.pixels[i],
                bg_color,
                threshold,
            ) {
                0u8
            } else {
                255u8
            },
        threshold == 0 ==> forall|i: int|
            0 <= i < output@.pixels.len() ==> (#[trigger] output@.pixels[i].3 == 0
                <==> source@.pixels[i] == bg_color),
{
    let (width, height) = source.dimensions();
    let mut output = RgbaImage::new(width, height);
    let mut y: u32 = 0;
    while y < height
        invariant
            y <= height,
            width == source@.width,
            height == source@.height,
            source@.wf(),
            output@.wf(),
            output@.width == width,
            output@.height == height,
            forall|px: int, py: int|
                output@.contains(px, py) && py < y ==> #[trigger] output@.at(px, py) == matted(
                    source@.at(px, py),
                    bg_color,
                    threshold,
                ),
        decreases height - y,
    {
        let mut x: u32 = 0;
        while x < width
            invariant
                x <= width,
                y < height,
                width == source@.width,
                height == source@.height,
                source@.wf(),
                output@.wf(),
                output@.width == width,
                output@.height == height,
                forall|px: int, py: int|
                    output@.contains(px, py) && (py < y || (py == y && px < x))
                        ==> #[trigger] output@.at(px, py) == matted(
                        source@.at(px, py),
                        bg_color,
                        threshold,
                    ),
            decreases width - x,
        {
            let luma = source.get_pixel(x, y);
            output.put_pixel(x, y, matte_pixel(luma, bg_color, threshold));
            x += 1;
        }
        y += 1;
    }
    proof {
        let expected = transparent(source@, bg_color, threshold);
        assert forall|i: int| 0 <= i < output@.pixels.len() implies output@.pixels[i]
            == expected.pixels[i] by {
            output@.lemma_pixel_of_index(i);
            source@.lemma_pixel_of_index(i);
        }
        assert(output@.pixels =~= expected.pixels);
    }
    output
}

/// Number of distinct brightness values.
pub const LEVELS: usize = 256;

/// Finds the background of an image: its most frequent brightness, the
/// lowest of them where several are equally frequent.
pub fn detect_background_color(image: &GrayImage) -> (background: u8)
    ensures
        is_background(image@.pixels, background),
        forall|value: u8| dominates(image@.pixels, value) ==> background == value,
{
    let (width, height) = image.dimensions();
    let ghost pixels = image@.pixels;
    let mut histogram = [0usize; 256];
    let mut y: u32 = 0;
    while y < height
        invariant
            y <= height,
            width == image@.width,
            height == image@.height,
            image@.wf(),
            pixels == image@.pixels,
            width * height <= isize::MAX,
            0 <= y * width <= width * height,
            forall|v: u8| #[trigger] histogram[v as int] == occurrences(pixels.take(y * width), v),
        decreases height - y,
    {
        let mut x: u32 = 0;
        while x < width
            invariant
                x <= width,
                y < height,
                width == image@.width,
                height == image@.height,
                image@.wf(),
                pixels == image@.pixels,
                width * height <= isize::MAX,
                forall|v: u8| #[trigger]
                    histogram[v as int] == occurrences(pixels.take(y * width + x), v),
            decreases width - x,
        {
            let value = image.get_pixel(x, y);
            let ghost seen = y * width + x;
            let ghost counted = histogram;
            proof {
                lemma_offset_in_range(width as int, height as int, x as int, y as int);
                lemma_occurrences_bound(pixels.take(seen), value);
            }
            histogram[value as usize] = histogram[value as usize] + 1;
            proof {
                assert forall|v: u8| #[trigger]
                    histogram[v as int] == occurrences(pixels.take(y * width + (x + 1)), v) by {
                    lemma_occurrences_step(pixels, seen, v);
                    assert(counted[v as int] == occurrences(pixels.take(seen), v));
                }
            }
            x += 1;
        }
        proof {
            assert((y + 1) * width == y * width + width) by (nonlinear_arith);
            assert((y + 1) * width <= width * height) by (nonlinear_arith)
                requires
                    y + 1 <= height,
            ;
        }
        y += 1;
    }
    assert(pixels.take(height * width) == pixels) by {
        assert(height * width == width * height) by (nonlinear_arith);
    }
    let mut max_count: usize = 0;
    let mut background: u8 = EMPTY_BACKGROUND;
    let mut color: usize = 0;
    while color < LEVELS
        invariant
            color <= LEVELS,
            forall|v: u8| #[trigger] histogram[v as int] == occurrences(pixels, v),
            forall|v: u8| v < color ==> #[trigger] occurrences(pixels, v) <= max_count,
            max_count == 0 ==> background == EMPTY_BACKGROUND,
            max_count > 0 ==> background < color && occurrences(pixels, background) == max_count,
            max_count > 0 ==> forall|v: u8|
                v < background ==> #[trigger] occurrences(pixels, v) < max_count,
        decreases LEVELS - color,
    {
        let count = histogram[color];
        assert(count == histogram[color as u8 as int]);
        if count > max_count {
            max_count = count;
            background = color as u8;
        }
        color += 1;
    }
    proof {
        if pixels.len() > 0 {
            let last = pixels.last();
            assert(occurrences(pixels, last) >= 1);
        }
        assert forall|value: u8| dominates(pixels, value) implies background == value by {
            lemma_dominant_value_is_background(pixels, value, background);
        }
    }
    background
}

} // verus!

//! Glyph rendering: painting the bitmap of a character into an 8×8 block of
//! a grayscale image, in pure black and white or in a quantised shade.

use vstd::prelude::*;
use crate::font::{bit_set, glyph_for, glyph_rows, is_ink, GLYPH_SIZE};
use crate::raster::{GrayImage, Raster};
use crate::tone::{quantize, shade_value};

verus! {

/// Brightness of the paper: every pixel that is not ink.
pub const PAPER: u8 = 255;

/// How glyphs are inked.
#[derive(Clone, Copy, Debug, PartialEq, Eq)]
pub enum RenderMode {
    /// Ink is black whatever the brightness of the block.
    BlackWhite,
    /// Ink takes the brightness of the block, quantised to `shades` steps.
    Graded { shades: u32 },
}

/// The ink for a block of brightness `tone` when `shades` steps are in use:
/// with two, black below 128 and white from there on; with more, the
/// nearest of the equal steps across `[0, 255]`.
pub open spec fn graded_ink(tone: int, shades: int) -> int {
    if shades == 2 {
        if tone < 128 {
            0
        } else {
            255
        }
    } else {
        shade_value(tone, shades)
    }
}

impl RenderMode {
    /// A graded mode has at least two shades.
    pub open spec fn wf(self) -> bool {
        self matches RenderMode::Graded { shades } ==> shades >= 2
    }

    /// The mode for a shade count: graded from two shades on.
    pub open spec fn for_shades(shades: u32) -> RenderMode {
        if shades > 1 {
            RenderMode::Graded { shades }
        } else {
            RenderMode::BlackWhite
        }
    }

    /// The ink for a block of brightness `tone`.
    pub open spec fn ink_for(self, tone: int) -> int {
        match self {
            RenderMode::BlackWhite => 0,
            RenderMode::Graded { shades } => graded_ink(tone, shades as int),
        }
    }

    /// The mode for a shade count.
    pub fn from_shades(shades: u32) -> (mode: RenderMode)
        ensures
            mode == RenderMode::for_shades(shades),
            mode.wf(),
    {
        if shades > 1 {
            RenderMode::Graded { shades }
        } else {
            RenderMode::BlackWhite
        }
    }

    /// The ink for a block of brightness `tone`.
    pub fn ink(&self, tone: u8) -> (ink: u8)
        requires
            self.wf(),
        ensures
            ink == self.ink_for(tone as int),
    {
        match self {
            RenderMode::BlackWhite => 0,
            RenderMode::Graded { shades } => graded_shade(tone, *shades),
        }
    }
}

/// The ink for a block of brightness `tone` in a graded mode.
pub fn graded_shade(tone: u8, shades: u32) -> (ink: u8)
    requires
        shades >= 2,
    ensures
        ink == graded_ink(tone as int, shades as int),
{
    if shades == 2 {
        if tone < 128 {
            0
        } else {
            255
        }
    } else {
        quantize(tone, shades)
    }
}

/// The pixel `(gx, gy)` of a glyph drawn with the given ink.
pub open spec fn glyph_pixel(rows: Seq<u8>, ink: u8, gx: int, gy: int) -> u8 {
    if is_ink(rows, gx, gy) {
        ink
    } else {
        PAPER
    }
}

/// Whether `(px, py)` lies in the block whose top-left corner is `(x, y)`.
pub open spec fn in_block(x: int, y: int, px: int, py: int) -> bool {
    x <= px < x + GLYPH_SIZE && y <= py < y + GLYPH_SIZE
}

/// `before` with a glyph painted into the block at `(x, y)`: what `after`
/// holds at every coordinate.
pub open spec fn painted(
    before: Raster<u8>,
    after: Raster<u8>,
    x: int,
    y: int,
    rows: Seq<u8>,
    ink: u8,
) -> bool {
    &&& after.width == before.width
    &&& after.height == before.height
    &&& after.wf()
    &&& forall|px: int, py: int|
        before.contains(px, py) ==> #[trigger] after.at(px, py) == if in_block(x, y, px, py) {
            glyph_pixel(rows, ink, px - x, py - y)
        } else {
            before.at(px, py)
        }
}

/// Paints a bitmap into the block at `(x, y)`: ink where a bit is set, paper
/// elsewhere.
pub fn paint_glyph(canvas: &mut GrayImage, x: u32, y: u32, rows: &[u8; 8], ink: u8)
    requires
        x + GLYPH_SIZE <= old(canvas)@.width,
        y + GLYPH_SIZE <= old(canvas)@.height,
    ensures
        painted(old(canvas)@, final(canvas)@, x as int, y as int, rows@, ink),
{
    // Read for what it tells about the canvas: one pixel per coordinate.
    let _ = canvas.dimensions();
    let ghost before = canvas@;
    let mut gy: u32 = 0;
    while gy < GLYPH_SIZE
        invariant
            gy <= GLYPH_SIZE,
            before.wf(),
            x + GLYPH_SIZE <= before.width,
            y + GLYPH_SIZE <= before.height,
            canvas@.width == before.width,
            canvas@.height == before.height,
            canvas@.wf(),
            forall|px: int, py: int|
                before.contains(px, py) ==> #[trigger] canvas@.at(px, py) == if in_block(
                    x as int,
                    y as int,
                    px,
                    py,
                ) && py < y + gy {
                    glyph_pixel(rows@, ink, px - x, py - y)
                } else {
                    before.at(px, py)
                },
        decreases GLYPH_SIZE - gy,
    {
        let row_bits = rows[gy as usize];
        let mut gx: u32 = 0;
        while gx < GLYPH_SIZE
            invariant
                gx <= GLYPH_SIZE,
                gy < GLYPH_SIZE,
                row_bits == rows@[gy as int],
                before.wf(),
                x + GLYPH_SIZE <= before.width,
                y + GLYPH_SIZE <= before.height,
                canvas@.width == before.width,
                canvas@.height == before.height,
                canvas@.wf(),
                forall|px: int, py: int|
                    before.contains(px, py) ==> #[trigger] canvas@.at(px, py) == if in_block(
                        x as int,
                        y as int,
                        px,
                        py,
                    ) && (py < y + gy || (py == y + gy && px < x + gx)) {
                        glyph_pixel(rows@, ink, px - x, py - y)
                    } else {
                        before.at(px, py)
                    },
            decreases GLYPH_SIZE - gx,
        {
            let bit_on = (row_bits >> gx) & 1 == 1;
            let value = if bit_on {
                ink
            } else {
                PAPER
            };
            assert(bit_on == bit_set(row_bits, gx));
            canvas.put_pixel(x + gx, y + gy, value);
            gx += 1;
        }
        gy += 1;
    }
}

/// Draws the glyph of a character in black on white into the block at
/// `(x, y)`.
pub fn draw_glyph_bw(canvas: &mut GrayImage, x: u32, y: u32, ch: char)
    requires
        x + GLYPH_SIZE <= old(canvas)@.width,
        y + GLYPH_SIZE <= old(canvas)@.height,
    ensures
        painted(old(canvas)@, final(canvas)@, x as int, y as int, glyph_rows(ch), 0),
{
    let rows = glyph_for(ch);
    paint_glyph(canvas, x, y, &rows, 0);
}

/// Draws the glyph of a character into the block at `(x, y)`, inked with the
/// block's brightness quantised to `num_shades` steps.
pub fn draw_glyph_gray(
    canvas: &mut GrayImage,
    x: u32,
    y: u32,
    ch: char,
    brightness: u8,
    num_shades: u32,
)
    requires
        num_shades >= 2,
        x + GLYPH_SIZE <= old(canvas)@.width,
        y + GLYPH_SIZE <= old(canvas)@.height,
    ensures
        painted(
            old(canvas)@,
            final(canvas)@,
            x as int,
            y as int,
            glyph_rows(ch),
            graded_ink(brightness as int, num_shades as int) as u8,
        ),
{
    let rows = glyph_for(ch);
    let ink = graded_shade(brightness, num_shades);
    paint_glyph(canvas, x, y, &rows, ink);
}

} // verus!

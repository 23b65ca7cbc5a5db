//! One frame of a run: where the background brightness comes from, and what
//! a decoded frame is turned into.

use vstd::prelude::*;
use crate::ascii::{
    convert_frame_to_ascii, convert_to_transparent, detect_background_color, rendering, tiled,
    transparent, AsciiOptions,
};
use crate::background::is_background;
use crate::font::GLYPH_SIZE;
use crate::render::RenderMode;
use crate::raster::{GrayImage, Raster, RgbaImage};

verus! {

/// Background brightness of a run that does not use one.
pub const UNUSED_BACKGROUND: u8 = 255;

/// Where a run takes its background brightness from.
#[derive(Clone, Copy, Debug, PartialEq, Eq)]
pub enum BackgroundSource {
    /// Frames stay opaque: no background is needed.
    Unused,
    /// The brightness that was configured.
    Configured(u8),
    /// The most frequent brightness of the first frame.
    FirstFrame,
}

impl BackgroundSource {
    /// The source for a run: none unless transparency is asked for, then
    /// the configured brightness, or the first frame where none is configured.
    pub open spec fn for_run(transparent: bool, configured: Option<u8>) -> BackgroundSource {
        if !transparent {
            BackgroundSource::Unused
        } else {
            match configured {
                Some(color) => BackgroundSource::Configured(color),
                None => BackgroundSource::FirstFrame,
            }
        }
    }

    /// Whether `background` is what this source yields for a run whose first
    /// frame holds `first_frame`.
    pub open spec fn yields(self, first_frame: Seq<u8>, background: u8) -> bool {
        match self {
            BackgroundSource::Unused => background == UNUSED_BACKGROUND,
            BackgroundSource::Configured(color) => background == color,
            BackgroundSource::FirstFrame => is_background(first_frame, background),
        }
    }

    /// Decides where a run takes its background brightness from.
    pub fn select(transparent: bool, configured: Option<u8>) -> (source: BackgroundSource)
        ensures
            source == BackgroundSource::for_run(transparent, configured),
    {
        if !transparent {
            BackgroundSource::Unused
        } else {
            match configured {
                Some(color) => BackgroundSource::Configured(color),
                None => BackgroundSource::FirstFrame,
            }
        }
    }

    /// The background brightness where it is known without looking at a
    /// frame; `None` where the first frame decides.
    pub fn known(&self) -> (background: Option<u8>)
        ensures
            background is None <==> self is FirstFrame,
            background matches Some(color) ==> forall|first_frame: Seq<u8>|
                #[trigger] self.yields(first_frame, color),
    {
        match self {
            BackgroundSource::Unused => Some(UNUSED_BACKGROUND),
            BackgroundSource::Configured(color) => Some(*color),
            BackgroundSource::FirstFrame => None,
        }
    }

    /// The background brightness of a run whose first frame is `first_frame`.
    pub fn resolve(&self, first_frame: &GrayImage) -> (background: u8)
        ensures
            self.yields(first_frame@.pixels, background),
    {
        match self {
            BackgroundSource::Unused => UNUSED_BACKGROUND,
            BackgroundSource::Configured(color) => *color,
            BackgroundSource::FirstFrame => detect_background_color(first_frame),
        }
    }
}

/// Background and tolerance against which rendered frames are matted.
#[derive(Clone, Copy, Debug, PartialEq, Eq)]
pub struct Matte {
    /// Brightness of the background.
    pub background: u8,
    /// Largest distance from it at which a pixel still counts as background.
    pub threshold: u8,
}

/// A frame as it is handed on for encoding.
pub enum Frame {
    /// The rendered glyphs.
    Opaque(GrayImage),
    /// The rendered glyphs on a transparent background.
    Transparent(RgbaImage),
}

/// Whether `output` is what becomes of `source`: its rendering, matted
/// where a matte is given.
pub open spec fn is_processed(
    source: Raster<u8>,
    options: AsciiOptions,
    matte: Option<Matte>,
    output: Frame,
) -> bool {
    let rendered = rendering(source, options.charset@, RenderMode::for_shades(options.shades));
    match matte {
        None => output matches Frame::Opaque(gray) && gray@ == rendered,
        Some(m) => output matches Frame::Transparent(rgba) && rgba@ == transparent(
            rendered,
            m.background,
            m.threshold,
        ),
    }
}

/// Turns a decoded frame into the frame to encode: renders it as glyphs
/// and, where a matte is given, makes its background transparent.
pub fn process_frame(source: &GrayImage, options: &AsciiOptions, matte: Option<Matte>) -> (output:
    Frame)
    requires
        options.charset@.len() >= 1,
        matte is Some ==> 4 * (tiled(source@.width) * tiled(source@.height)) <= isize::MAX,
    ensures
        is_processed(source@, *options, matte, output),
{
    let ascii = convert_frame_to_ascii(source, options);
    match matte {
        None => Frame::Opaque(ascii),
        Some(m) => Frame::Transparent(convert_to_transparent(&ascii, m.background, m.threshold)),
    }
}

/// Whether a frame can be processed: the gradient holds a glyph, and the
/// rendering fits into a buffer, at four bytes per pixel where it is matted.
pub open spec fn can_process(source: Raster<u8>, options: AsciiOptions, matte: Option<Matte>) -> bool {
    &&& options.charset@.len() >= 1
    &&& matte is Some ==> 4 * (tiled(source.width) * tiled(source.height)) <= isize::MAX
}

/// Turns a decoded frame into the frame to encode where that can be done.
pub fn try_process_frame(source: &GrayImage, options: &AsciiOptions, matte: Option<Matte>) -> (output:
    Option<Frame>)
    ensures
        output is Some <==> can_process(source@, *options, matte),
        output matches Some(frame) ==> is_processed(source@, *options, matte, frame),
{
    if options.charset.len() == 0 {
        return None;
    }
    let (width, height) = source.dimensions();
    if matte.is_some() && !RgbaImage::fits(width / GLYPH_SIZE * GLYPH_SIZE, height / GLYPH_SIZE
        * GLYPH_SIZE) {
        return None;
    }
    Some(process_frame(source, options, matte))
}

} // verus!

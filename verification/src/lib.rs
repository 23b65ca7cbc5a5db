//! Rendering of video frames as glyphs.
//!
//! A grayscale frame is tiled into blocks of 8×8 pixels. Each block is
//! replaced by the bitmap of a character, picked from a dark-to-light
//! gradient by the mean brightness of the block after a contrast stretch.
//! Glyphs are inked in black or in a quantised shade of the block's
//! brightness. A rendered frame can be matted against a background
//! brightness, given or detected, to obtain a transparent image.
//!
//! The modules, from the leaves up:
//!
//! - [`raster`]: images, and the contracts under which the pixel buffers of
//!   the `image` crate are used;
//! - [`font`]: glyph bitmaps from the `font8x8` crate, with their fallbacks;
//! - [`tone`]: contrast stretch, glyph selection, shade quantisation;
//! - [`sampler`]: mean brightness of a block;
//! - [`render`]: painting a glyph into a block;
//! - [`background`], [`matte`]: the most frequent brightness of an image,
//!   and what counts as background;
//! - [`ascii`]: options, the frame transform, background detection and
//!   transparency;
//! - [`frame`]: what becomes of one frame of a run;
//! - [`text`], [`probe`], [`naming`]: reading the report of a stream probe,
//!   and the names of the files of a run.

pub mod ascii;
pub mod background;
pub mod font;
pub mod frame;
pub mod matte;
pub mod naming;
pub mod probe;
pub mod raster;
pub mod render;
pub mod sampler;
pub mod text;
pub mod tone;

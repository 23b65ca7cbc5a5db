//! Glyph bitmaps: 8 rows of 8 bits for a character, looked up in the basic
//! set of the `font8x8` crate.

use vstd::prelude::*;

verus! {

/// Width and height of a glyph, and so of a block, in pixels.
pub const GLYPH_SIZE: u32 = 8;

/// What `font8x8::BASIC_FONTS.get` returns for a character: the rows of its
/// bitmap, top row first, or `None` where the set has no entry for it.
pub uninterp spec fn basic_font_rows(ch: char) -> Option<[u8; 8]>;

/// Calls `font8x8::BASIC_FONTS.get`, a search in a constant table. Trusted:
/// the result depends on the character alone.
#[verifier::external_body]
fn basic_font_get(ch: char) -> (rows: Option<[u8; 8]>)
    ensures
        rows == basic_font_rows(ch),
{
    font8x8::UnicodeFonts::get(&font8x8::BASIC_FONTS, ch)
}

/// A glyph with no pixel set.
pub open spec fn blank_rows() -> Seq<u8> {
    Seq::new(8, |i: int| 0u8)
}

/// The bitmap chosen from the results of two lookups: that of the character
/// itself where it has one, else that of the stand-in `?`, else blank.
pub open spec fn rows_or_fallback(own: Option<[u8; 8]>, stand_in: Option<[u8; 8]>) -> Seq<u8> {
    match own {
        Some(rows) => rows@,
        None => match stand_in {
            Some(rows) => rows@,
            None => blank_rows(),
        },
    }
}

/// The bitmap that is drawn for a character.
pub open spec fn glyph_rows(ch: char) -> Seq<u8> {
    rows_or_fallback(basic_font_rows(ch), basic_font_rows('?'))
}

/// Whether bit `gx` of a row is set. Bit 0 is the leftmost pixel.
pub open spec fn bit_set(row: u8, gx: u32) -> bool {
    (row >> gx) & 1 == 1
}

/// Whether the pixel `(gx, gy)` of a glyph is ink.
pub open spec fn is_ink(rows: Seq<u8>, gx: int, gy: int) -> bool {
    bit_set(rows[gy], gx as u32)
}

/// Chooses the bitmap to draw from the results of two lookups.
pub fn select_rows(own: Option<[u8; 8]>, stand_in: Option<[u8; 8]>) -> (rows: [u8; 8])
    ensures
        rows@ == rows_or_fallback(own, stand_in),
{
    let fallback = match stand_in {
        Some(rows) => rows,
        None => [0u8; 8],
    };
    match own {
        Some(rows) => rows,
        None => fallback,
    }
}

/// The bitmap that is drawn for a character.
pub fn glyph_for(ch: char) -> (rows: [u8; 8])
    ensures
        rows@ == glyph_rows(ch),
{
    let stand_in = basic_font_get('?');
    let own = basic_font_get(ch);
    select_rows(own, stand_in)
}

} // verus!

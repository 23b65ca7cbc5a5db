//! Pixel buffers.
//!
//! [`GrayImage`] and [`RgbaImage`] hold a buffer of the `image` crate. The
//! buffers themselves stay opaque to the verifier: what they hold is named by
//! uninterpreted functions, and every access goes through a small wrapper whose
//! contract is taken on trust from the `image` crate. Everything else in this
//! module is verified against those contracts.

use vstd::prelude::*;

verus! {

/// The mathematical content of an image: its dimensions and its pixels, row
/// by row from the top, each row from left to right.
#[verifier::ext_equal]
pub struct Raster<T> {
    pub width: nat,
    pub height: nat,
    pub pixels: Seq<T>,
}

impl<T> Raster<T> {
    /// There is exactly one pixel per coordinate.
    pub open spec fn wf(self) -> bool {
        self.pixels.len() == self.width * self.height
    }

    /// Whether `(x, y)` lies inside the image.
    pub open spec fn contains(self, x: int, y: int) -> bool {
        0 <= x < self.width && 0 <= y < self.height
    }

    /// Position of the pixel `(x, y)` in `pixels`.
    pub open spec fn offset(self, x: int, y: int) -> int {
        y * self.width + x
    }

    /// The pixel at `(x, y)`.
    pub open spec fn at(self, x: int, y: int) -> T {
        self.pixels[self.offset(x, y)]
    }
}

/// An 8-bit grayscale image, backed by `image::GrayImage`.
///
/// The buffer is hidden from the verifier as a whole: `ImageBuffer` bounds
/// its pixel type by the `Pixel` trait of the `image` crate, which the
/// verifier does not know, so the type cannot be declared to it.
#[verifier::external_body]
pub struct GrayImage {
    inner: image::GrayImage,
}

/// An 8-bit RGBA image, backed by `image::RgbaImage`, and hidden from the
/// verifier for the same reason.
#[verifier::external_body]
pub struct RgbaImage {
    inner: image::RgbaImage,
}

/// Width and height that `ImageBuffer::dimensions` reports for the buffer
/// inside a grayscale image.
pub uninterp spec fn gray_dimensions(image: GrayImage) -> (u32, u32);

/// The brightness values that `ImageBuffer::pixels` yields for the buffer
/// inside a grayscale image, in its order: left to right, then top to bottom.
pub uninterp spec fn gray_pixels(image: GrayImage) -> Seq<u8>;

/// Width and height that `ImageBuffer::dimensions` reports for the buffer
/// inside an RGBA image.
pub uninterp spec fn rgba_dimensions(image: RgbaImage) -> (u32, u32);

/// The `(red, green, blue, alpha)` values that `ImageBuffer::pixels` yields
/// for the buffer inside an RGBA image, in its order.
pub uninterp spec fn rgba_pixels(image: RgbaImage) -> Seq<(u8, u8, u8, u8)>;

impl View for GrayImage {
    type V = Raster<u8>;

    open spec fn view(&self) -> Raster<u8> {
        Raster {
            width: gray_dimensions(*self).0 as nat,
            height: gray_dimensions(*self).1 as nat,
            pixels: gray_pixels(*self),
        }
    }
}

impl View for RgbaImage {
    type V = Raster<(u8, u8, u8, u8)>;

    open spec fn view(&self) -> Raster<(u8, u8, u8, u8)> {
        Raster {
            width: rgba_dimensions(*self).0 as nat,
            height: rgba_dimensions(*self).1 as nat,
            pixels: rgba_pixels(*self),
        }
    }
}

/// Calls `ImageBuffer::dimensions`. Trusted: the buffer holds exactly one
/// pixel per coordinate, and, being stored in a `Vec<u8>`, no more than
/// `isize::MAX` of them.
#[verifier::external_body]
pub(crate) fn gray_size(image: &GrayImage) -> (size: (u32, u32))
    ensures
        size == gray_dimensions(*image),
        gray_pixels(*image).len() == size.0 * size.1,
        size.0 * size.1 <= isize::MAX,
{
    image.inner.dimensions()
}

/// Calls `ImageBuffer::from_pixel`, which panics when the buffer would
/// exceed the largest `Vec`. Trusted: the result has the given dimensions and
/// every pixel has the given brightness.
#[verifier::external_body]
pub(crate) fn gray_filled(width: u32, height: u32, value: u8) -> (image: GrayImage)
    requires
        width * height <= isize::MAX,
    ensures
        gray_dimensions(image) == (width, height),
        gray_pixels(image) == Seq::new((width * height) as nat, |i: int| value),
{
    GrayImage { inner: image::GrayImage::from_pixel(width, height, image::Luma([value])) }
}

/// Calls `ImageBuffer::get_pixel`, which panics outside the image. Trusted:
/// the pixel `(x, y)` is the one at position `y * width + x`.
#[verifier::external_body]
pub(crate) fn gray_get(image: &GrayImage, x: u32, y: u32) -> (value: u8)
    requires
        x < gray_dimensions(*image).0,
        y < gray_dimensions(*image).1,
    ensures
        value == gray_pixels(*image)[y * gray_dimensions(*image).0 + x],
{
    image.inner.get_pixel(x, y).0[0]
}

/// Calls `ImageBuffer::put_pixel`, which panics outside the image. Trusted:
/// the pixel at position `y * width + x` is replaced and nothing else changes.
#[verifier::external_body]
pub(crate) fn gray_put(image: &mut GrayImage, x: u32, y: u32, value: u8)
    requires
        x < gray_dimensions(*old(image)).0,
        y < gray_dimensions(*old(image)).1,
    ensures
        gray_dimensions(*final(image)) == gray_dimensions(*old(image)),
        gray_pixels(*final(image)) == gray_pixels(*old(image)).update(
            y * gray_dimensions(*old(image)).0 + x,
            value,
        ),
{
    image.inner.put_pixel(x, y, image::Luma([value]))
}

/// Calls `ImageBuffer::from_raw`. Trusted: it accepts the bytes exactly when
/// there is at least one per coordinate, and the image then shows the first
/// `width * height` of them.
#[verifier::external_body]
pub(crate) fn gray_from_raw(width: u32, height: u32, data: Vec<u8>) -> (image: Option<GrayImage>)
    ensures
        image is Some <==> width * height <= data@.len(),
        image matches Some(made) ==> gray_dimensions(made) == (width, height) && gray_pixels(made)
            == data@.take(width * height),
{
    match image::GrayImage::from_raw(width, height, data) {
        Some(inner) => Some(GrayImage { inner }),
        None => None,
    }
}

/// Calls `ImageBuffer::into_raw`. Trusted: the bytes handed back start with
/// the pixels of the image.
#[verifier::external_body]
pub(crate) fn gray_into_raw(image: GrayImage) -> (data: Vec<u8>)
    ensures
        data@.len() >= gray_pixels(image).len(),
        data@.take(gray_pixels(image).len() as int) == gray_pixels(image),
{
    image.inner.into_raw()
}

/// Calls `ImageBuffer::dimensions`. Trusted: the buffer holds exactly one
/// pixel of four bytes per coordinate, and, being stored in a `Vec<u8>`, no
/// more than `isize::MAX` bytes.
#[verifier::external_body]
pub(crate) fn rgba_size(image: &RgbaImage) -> (size: (u32, u32))
    ensures
        size == rgba_dimensions(*image),
        rgba_pixels(*image).len() == size.0 * size.1,
        4 * (size.0 * size.1) <= isize::MAX,
{
    image.inner.dimensions()
}

/// Calls `ImageBuffer::new`, which panics when the buffer would exceed the
/// largest `Vec`. Trusted: the result has the given dimensions and every
/// channel of every pixel is zero.
#[verifier::external_body]
pub(crate) fn rgba_zeroed(width: u32, height: u32) -> (image: RgbaImage)
    requires
        4 * (width * height) <= isize::MAX,
    ensures
        rgba_dimensions(image) == (width, height),
        rgba_pixels(image) == Seq::new((width * height) as nat, |i: int| (0u8, 0u8, 0u8, 0u8)),
{
    RgbaImage { inner: image::RgbaImage::new(width, height) }
}

/// Calls `ImageBuffer::get_pixel`, which panics outside the image. Trusted:
/// the pixel `(x, y)` is the one at position `y * width + x`.
#[verifier::external_body]
pub(crate) fn rgba_get(image: &RgbaImage, x: u32, y: u32) -> (value: (u8, u8, u8, u8))
    requires
        x < rgba_dimensions(*image).0,
        y < rgba_dimensions(*image).1,
    ensures
        value == rgba_pixels(*image)[y * rgba_dimensions(*image).0 + x],
{
    let p = image.inner.get_pixel(x, y).0;
    (p[0], p[1], p[2], p[3])
}

/// Calls `ImageBuffer::put_pixel`, which panics outside the image. Trusted:
/// the pixel at position `y * width + x` is replaced and nothing else changes.
#[verifier::external_body]
pub(crate) fn rgba_put(image: &mut RgbaImage, x: u32, y: u32, value: (u8, u8, u8, u8))
    requires
        x < rgba_dimensions(*old(image)).0,
        y < rgba_dimensions(*old(image)).1,
    ensures
        rgba_dimensions(*final(image)) == rgba_dimensions(*old(image)),
        rgba_pixels(*final(image)) == rgba_pixels(*old(image)).update(
            y * rgba_dimensions(*old(image)).0 + x,
            value,
        ),
{
    image.inner.put_pixel(x, y, image::Rgba([value.0, value.1, value.2, value.3]))
}

/// Inside an image of the given width, distinct coordinates have distinct
/// offsets.
pub proof fn lemma_offset_injective(width: int, x1: int, y1: int, x2: int, y2: int)
    requires
        0 <= x1 < width,
        0 <= x2 < width,
        y1 * width + x1 == y2 * width + x2,
    ensures
        x1 == x2,
        y1 == y2,
{
    assert(y1 == y2) by (nonlinear_arith)
        requires
            0 <= x1 < width,
            0 <= x2 < width,
            y1 * width + x1 == y2 * width + x2,
    ;
}

/// The offset of a coordinate inside an image is an index into its pixels.
pub proof fn lemma_offset_in_range(width: int, height: int, x: int, y: int)
    requires
        0 <= x < width,
        0 <= y < height,
    ensures
        0 <= y * width + x < width * height,
        y * width + x + (width - x) == (y + 1) * width,
        (y + 1) * width <= width * height,
{
    assert(0 <= y * width && (y + 1) * width == y * width + width && (y + 1) * width <= width
        * height) by (nonlinear_arith)
        requires
            0 <= x < width,
            0 <= y < height,
    ;
}

/// Every index below `width * height` is the offset of exactly one
/// coordinate inside the image: column `index % width` of row
/// `index / width`.
pub proof fn lemma_index_is_offset(width: int, height: int, index: int)
    requires
        0 <= index < width * height,
        0 <= height,
    ensures
        0 <= index % width < width,
        0 <= index / width < height,
        (index / width) * width + index % width == index,
{
    assert(width > 0) by (nonlinear_arith)
        requires
            0 <= index < width * height,
            0 <= height,
    ;
    vstd::arithmetic::div_mod::lemma_fundamental_div_mod(index, width);
    let row = index / width;
    assert(0 <= row < height) by (nonlinear_arith)
        requires
            0 <= index < width * height,
            width > 0,
            index == width * row + index % width,
            0 <= index % width < width,
    ;
    assert(row * width == width * row) by (nonlinear_arith);
}

impl<T> Raster<T> {
    /// The pixel at an index is the pixel at the coordinate of that index:
    /// column `index % width` of row `index / width`.
    pub proof fn lemma_pixel_of_index(self, index: int)
        requires
            self.wf(),
            0 <= index < self.pixels.len(),
        ensures
            self.contains(index % (self.width as int), index / (self.width as int)),
            self.at(index % (self.width as int), index / (self.width as int))
                == self.pixels[index],
    {
        lemma_index_is_offset(self.width as int, self.height as int, index);
    }

    /// Replacing the pixel at one coordinate changes that coordinate and no
    /// other.
    pub proof fn lemma_update_at(self, x: int, y: int, value: T)
        requires
            self.wf(),
            self.contains(x, y),
        ensures
            (Raster { pixels: self.pixels.update(self.offset(x, y), value), ..self }).wf(),
            forall|px: int, py: int|
                self.contains(px, py) ==> #[trigger] (Raster {
                    pixels: self.pixels.update(self.offset(x, y), value),
                    ..self
                }).at(px, py) == if px == x && py == y {
                    value
                } else {
                    self.at(px, py)
                },
    {
        let after = Raster { pixels: self.pixels.update(self.offset(x, y), value), ..self };
        lemma_offset_in_range(self.width as int, self.height as int, x, y);
        assert forall|px: int, py: int| self.contains(px, py) implies #[trigger] after.at(px, py)
            == if px == x && py == y {
            value
        } else {
            self.at(px, py)
        } by {
            lemma_offset_in_range(self.width as int, self.height as int, px, py);
            if self.offset(px, py) == self.offset(x, y) {
                lemma_offset_injective(self.width as int, px, py, x, y);
            }
        }
    }
}

impl GrayImage {
    /// Whether an image of the given size fits into a buffer.
    pub fn fits(width: u32, height: u32) -> (fits: bool)
        ensures
            fits <==> width * height <= isize::MAX,
    {
        assert(width * height <= u32::MAX * u32::MAX) by (nonlinear_arith);
        (width as u128) * (height as u128) <= isize::MAX as u128
    }

    /// An image of the given size with every pixel set to `value`.
    pub fn from_pixel(width: u32, height: u32, value: u8) -> (image: GrayImage)
        requires
            width * height <= isize::MAX,
        ensures
            image@.wf(),
            image@.width == width,
            image@.height == height,
            forall|i: int| 0 <= i < image@.pixels.len() ==> image@.pixels[i] == value,
    {
        gray_filled(width, height, value)
    }

    /// An image of the given size with every pixel black.
    pub fn new(width: u32, height: u32) -> (image: GrayImage)
        requires
            width * height <= isize::MAX,
        ensures
            image@.wf(),
            image@.width == width,
            image@.height == height,
            forall|i: int| 0 <= i < image@.pixels.len() ==> image@.pixels[i] == 0,
    {
        gray_filled(width, height, 0)
    }

    /// An image over the given bytes, one per pixel, row by row. `None` when
    /// there are too few of them; bytes beyond the last pixel are not shown.
    pub fn from_raw(width: u32, height: u32, data: Vec<u8>) -> (image: Option<GrayImage>)
        ensures
            image is Some <==> width * height <= data@.len(),
            image matches Some(made) ==> {
                &&& made@.wf()
                &&& made@.width == width
                &&& made@.height == height
                &&& made@.pixels == data@.take(width * height)
            },
    {
        gray_from_raw(width, height, data)
    }

    /// The bytes of the image, one per pixel, row by row.
    pub fn into_raw(self) -> (data: Vec<u8>)
        ensures
            data@.len() >= self@.pixels.len(),
            data@.take(self@.pixels.len() as int) == self@.pixels,
    {
        gray_into_raw(self)
    }

    /// Width and height in pixels.
    pub fn dimensions(&self) -> (size: (u32, u32))
        ensures
            size.0 == self@.width,
            size.1 == self@.height,
            self@.wf(),
            self@.width * self@.height <= isize::MAX,
    {
        gray_size(self)
    }

    /// Width in pixels.
    pub fn width(&self) -> (width: u32)
        ensures
            width == self@.width,
            self@.wf(),
            self@.width * self@.height <= isize::MAX,
    {
        gray_size(self).0
    }

    /// Height in pixels.
    pub fn height(&self) -> (height: u32)
        ensures
            height == self@.height,
            self@.wf(),
            self@.width * self@.height <= isize::MAX,
    {
        gray_size(self).1
    }

    /// The brightness of every pixel, row by row.
    pub fn pixels(&self) -> (values: Vec<u8>)
        ensures
            values@ == self@.pixels,
    {
        let (width, height) = gray_size(self);
        let mut values: Vec<u8> = Vec::new();
        let mut y: u32 = 0;
        while y < height
            invariant
                y <= height,
                width == self@.width,
                height == self@.height,
                self@.wf(),
                values@ == self@.pixels.take(y * width),
            decreases height - y,
        {
            let mut x: u32 = 0;
            while x < width
                invariant
                    x <= width,
                    y < height,
                    width == self@.width,
                    height == self@.height,
                    self@.wf(),
                    values@ == self@.pixels.take(y * width + x),
                decreases width - x,
            {
                proof {
                    lemma_offset_in_range(width as int, height as int, x as int, y as int);
                }
                values.push(gray_get(self, x, y));
                assert(values@ == self@.pixels.take(y * width + (x + 1)));
                x += 1;
            }
            assert((y + 1) * width == y * width + width) by (nonlinear_arith);
            y += 1;
        }
        assert(self@.pixels.take(height * width) == self@.pixels) by {
            assert(height * width == width * height) by (nonlinear_arith);
        }
        values
    }

    /// The brightness at `(x, y)`.
    pub fn get_pixel(&self, x: u32, y: u32) -> (value: u8)
        requires
            self@.contains(x as int, y as int),
        ensures
            value == self@.at(x as int, y as int),
    {
        gray_get(self, x, y)
    }

    /// Sets the brightness at `(x, y)`.
    pub fn put_pixel(&mut self, x: u32, y: u32, value: u8)
        requires
            old(self)@.contains(x as int, y as int),
        ensures
            final(self)@.width == old(self)@.width,
            final(self)@.height == old(self)@.height,
            final(self)@.pixels == old(self)@.pixels.update(
                old(self)@.offset(x as int, y as int),
                value,
            ),
            final(self)@.wf(),
            forall|px: int, py: int|
                old(self)@.contains(px, py) ==> #[trigger] final(self)@.at(px, py) == if px == x
                    && py == y {
                    value
                } else {
                    old(self)@.at(px, py)
                },
    {
        let ghost before = self@;
        // Read for what it tells about the buffer: one pixel per coordinate.
        let _ = gray_size(self);
        gray_put(self, x, y, value);
        proof {
            before.lemma_update_at(x as int, y as int, value);
            assert(self@ == Raster {
                pixels: before.pixels.update(before.offset(x as int, y as int), value),
                ..before
            });
        }
    }
}

impl RgbaImage {
    /// Whether an image of the given size, at four bytes per pixel, fits into
    /// a buffer.
    pub fn fits(width: u32, height: u32) -> (fits: bool)
        ensures
            fits <==> 4 * (width * height) <= isize::MAX,
    {
        assert(width * height <= u32::MAX * u32::MAX) by (nonlinear_arith);
        4 * ((width as u128) * (height as u128)) <= isize::MAX as u128
    }

    /// An image of the given size with every pixel transparent black.
    pub fn new(width: u32, height: u32) -> (image: RgbaImage)
        requires
            4 * (width * height) <= isize::MAX,
        ensures
            image@.wf(),
            image@.width == width,
            image@.height == height,
            forall|i: int| 0 <= i < image@.pixels.len() ==> image@.pixels[i] == (0u8, 0u8, 0u8, 0u8),
    {
        rgba_zeroed(width, height)
    }

    /// Width and height in pixels.
    pub fn dimensions(&self) -> (size: (u32, u32))
        ensures
            size.0 == self@.width,
            size.1 == self@.height,
            self@.wf(),
            4 * (self@.width * self@.height) <= isize::MAX,
    {
        rgba_size(self)
    }

    /// Width in pixels.
    pub fn width(&self) -> (width: u32)
        ensures
            width == self@.width,
            self@.wf(),
    {
        rgba_size(self).0
    }

    /// Height in pixels.
    pub fn height(&self) -> (height: u32)
        ensures
            height == self@.height,
            self@.wf(),
    {
        rgba_size(self).1
    }

    /// The `(red, green, blue, alpha)` value at `(x, y)`.
    pub fn get_pixel(&self, x: u32, y: u32) -> (value: (u8, u8, u8, u8))
        requires
            self@.contains(x as int, y as int),
        ensures
            value == self@.at(x as int, y as int),
    {
        rgba_get(self, x, y)
    }

    /// Sets the `(red, green, blue, alpha)` value at `(x, y)`.
    pub fn put_pixel(&mut self, x: u32, y: u32, value: (u8, u8, u8, u8))
        requires
            old(self)@.contains(x as int, y as int),
        ensures
            final(self)@.width == old(self)@.width,
            final(self)@.height == old(self)@.height,
            final(self)@.pixels == old(self)@.pixels.update(
                old(self)@.offset(x as int, y as int),
                value,
            ),
            final(self)@.wf(),
            forall|px: int, py: int|
                old(self)@.contains(px, py) ==> #[trigger] final(self)@.at(px, py) == if px == x
                    && py == y {
                    value
                } else {
                    old(self)@.at(px, py)
                },
    {
        let ghost before = self@;
        // Read for what it tells about the buffer: one pixel per coordinate.
        let _ = rgba_size(self);
        rgba_put(self, x, y, value);
        proof {
            before.lemma_update_at(x as int, y as int, value);
            assert(self@ == Raster {
                pixels: before.pixels.update(before.offset(x as int, y as int), value),
                ..before
            });
        }
    }
}

} // verus!

//! The pixel grid: `raster::Image` as this library sees it.
//!
//! An image is carried as an opaque value. What the contracts say about it they
//! say through three names for its public fields, and every access goes through
//! one of the small functions below, whose contracts restate what the `raster`
//! crate does and are taken on trust.

use crate::scan::advisory_capacity;
use crate::scan::pixel_offset;
use crate::scan::usable_slot_count;
use crate::scan::usable_slots;
use raster::error::RasterError;
use raster::Color;
use raster::Image;
use vstd::prelude::*;

verus! {

/// `raster::Image`, carried as an opaque value.
#[verifier::external_type_specification]
#[verifier::external_body]
pub struct ExImage(raster::Image);

/// `raster::error::RasterError`, carried as an opaque value.
#[verifier::external_type_specification]
#[verifier::external_body]
pub struct ExRasterError(raster::error::RasterError);

/// The `width` field of a `raster::Image`: its width in pixels.
pub uninterp spec fn image_width(image: Image) -> i32;

/// The `height` field of a `raster::Image`: its height in pixels.
pub uninterp spec fn image_height(image: Image) -> i32;

/// The `bytes` field of a `raster::Image`: four bytes per pixel, in the order
/// red, green, blue, alpha, row after row.
pub uninterp spec fn image_bytes(image: Image) -> Seq<u8>;

/// What an image is to the contracts of this library.
pub struct GridView {
    pub width: int,
    pub height: int,
    pub bytes: Seq<u8>,
}

impl GridView {
    /// The buffer holds exactly `width * height` pixels, at least one, and every
    /// byte of it lies at an offset that `raster` can compute in an `i32`.
    pub open spec fn well_formed(self) -> bool {
        &&& self.width >= 1
        &&& self.height >= 1
        &&& self.bytes.len() == self.width * self.height * 4
        &&& self.bytes.len() <= i32::MAX
    }
}

/// The view of an image.
pub open spec fn grid_view(image: Image) -> GridView {
    GridView {
        width: image_width(image) as int,
        height: image_height(image) as int,
        bytes: image_bytes(image),
    }
}

/// The four channels of one pixel.
#[derive(Debug, Clone, Copy, PartialEq, Eq, Structural)]
pub struct Pixel {
    pub r: u8,
    pub g: u8,
    pub b: u8,
    pub a: u8,
}

/// The pixel that starts at byte `offset` of `bytes`.
pub open spec fn pixel_in(bytes: Seq<u8>, offset: int) -> Pixel {
    Pixel { r: bytes[offset], g: bytes[offset + 1], b: bytes[offset + 2], a: bytes[offset + 3] }
}

/// `bytes` with the pixel that starts at byte `offset` replaced by `p`.
pub open spec fn with_pixel(bytes: Seq<u8>, offset: int, p: Pixel) -> Seq<u8> {
    bytes.update(offset, p.r).update(offset + 1, p.g).update(offset + 2, p.b).update(
        offset + 3,
        p.a,
    )
}

/// Reads the field `width` of a `raster::Image`.
#[verifier::external_body]
pub(crate) fn width_of(image: &Image) -> (w: i32)
    ensures
        w == image_width(*image),
{
    image.width
}

/// Reads the field `height` of a `raster::Image`.
#[verifier::external_body]
pub(crate) fn height_of(image: &Image) -> (h: i32)
    ensures
        h == image_height(*image),
{
    image.height
}

/// Calls `raster::Image::get_pixel`.
///
/// `get_pixel` computes the offset `(y * width + x) * 4` and the end `offset + 4`
/// in `i32`; the precondition keeps both from overflowing. It then fails if the
/// buffer ends before `offset + 4`, and otherwise returns the four bytes at the
/// offset as a colour. It does not look at `height`, nor compare `x` with
/// `width`.
#[verifier::external_body]
pub(crate) fn read_pixel(image: &Image, x: i32, y: i32) -> (r: Result<Pixel, RasterError>)
    requires
        0 <= x,
        0 <= y,
        0 <= image_width(*image),
        pixel_offset(image_width(*image) as int, x as int, y as int) + 4 <= i32::MAX,
    ensures
        r is Ok <==> pixel_offset(image_width(*image) as int, x as int, y as int) + 4
            <= image_bytes(*image).len(),
        r matches Ok(p) ==> p == pixel_in(
            image_bytes(*image),
            pixel_offset(image_width(*image) as int, x as int, y as int),
        ),
{
    match image.get_pixel(x, y) {
        Ok(c) => Ok(Pixel { r: c.r, g: c.g, b: c.b, a: c.a }),
        Err(e) => Err(e),
    }
}

/// Calls `raster::Image::set_pixel`.
///
/// `set_pixel` computes the offset `(y * width + x) * 4` in `i32`; the
/// precondition keeps that from overflowing and the offset from being negative.
/// It fails, leaving the image as it was, if `x >= width` or `y >= height`.
/// Otherwise it stores the four channels at the offset without a check against
/// the buffer's length, which the last precondition therefore demands, and
/// succeeds. It changes neither `width` nor `height`.
#[verifier::external_body]
pub(crate) fn write_pixel(image: &mut Image, x: i32, y: i32, p: Pixel) -> (r: Result<
    (),
    RasterError,
>)
    requires
        0 <= x,
        0 <= y,
        0 <= image_width(*old(image)),
        pixel_offset(image_width(*old(image)) as int, x as int, y as int) <= i32::MAX,
        x < image_width(*old(image)) && y < image_height(*old(image)) ==> pixel_offset(
            image_width(*old(image)) as int,
            x as int,
            y as int,
        ) + 4 <= image_bytes(*old(image)).len(),
    ensures
        image_width(*final(image)) == image_width(*old(image)),
        image_height(*final(image)) == image_height(*old(image)),
        r is Ok <==> x < image_width(*old(image)) && y < image_height(*old(image)),
        r is Ok ==> image_bytes(*final(image)) == with_pixel(
            image_bytes(*old(image)),
            pixel_offset(image_width(*old(image)) as int, x as int, y as int),
            p,
        ),
        r is Err ==> image_bytes(*final(image)) == image_bytes(*old(image)),
{
    image.set_pixel(x, y, Color { r: p.r, g: p.g, b: p.b, a: p.a })
}

/// The length in bytes of the longest payload that fits into an image: an
/// eighth of the number of its pixels outside the last row and the last column,
/// rounded down.
pub fn payload_capacity(image: &Image) -> (bytes: u64)
    ensures
        bytes == usable_slots(image_width(*image) as int, image_height(*image) as int) / 8,
{
    usable_slot_count(width_of(image), height_of(image)) / 8
}

/// The advisory capacity of an image in bytes: an eighth of its pixel count,
/// rounded down, and zero for an image without pixels.
///
/// This counts every pixel, while embedding leaves out the last row and the
/// last column, so the figure is an upper bound and no promise: a payload of
/// this size need not fit. What does fit is `payload_capacity`.
pub fn capacity(image: &Image) -> (bytes: u64)
    ensures
        bytes == advisory_capacity(image_width(*image) as int, image_height(*image) as int),
{
    let w = width_of(image);
    let h = height_of(image);
    if w >= 1 && h >= 1 {
        assert(0 < (w as int) * (h as int) < 0x4000_0000_0000_0000) by (nonlinear_arith)
            requires
                1 <= w <= i32::MAX,
                1 <= h <= i32::MAX,
        ;
        (w as u64 * h as u64) / 8
    } else {
        0
    }
}

} // verus!

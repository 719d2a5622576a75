//! Extraction: reading a payload of a given length back from the lowest bit of
//! the red channel of the pixels that the scan visits.

use crate::error::StegoError;
use crate::grid::grid_view;
use crate::grid::height_of;
use crate::grid::image_height;
use crate::grid::image_width;
use crate::grid::read_pixel;
use crate::grid::width_of;
use crate::grid::GridView;
use crate::scan::lemma_slot_of_pixel;
use crate::scan::lemma_usable_dimensions;
use crate::scan::offset_fits;
use crate::scan::payload_fits;
use crate::scan::pixel_offset;
use crate::scan::slot_offset;
use crate::scan::slot_reachable;
use crate::scan::slots_reachable;
use crate::scan::usable_slots;
use raster::Image;
use vstd::prelude::*;

verus! {

/// The bit that slot `k` holds: the lowest bit of its red channel.
pub open spec fn stored_bit(bytes: Seq<u8>, w: int, k: int) -> u8 {
    bytes[slot_offset(w, k)] & 1
}

/// The value whose bits `0` to `count - 1` are the bits that the slots `first` to
/// `first + count - 1` hold, and whose higher bits are zero.
pub open spec fn gathered_bits(bytes: Seq<u8>, w: int, first: int, count: nat) -> u8
    decreases count,
{
    if count == 0 {
        0
    } else {
        gathered_bits(bytes, w, first, (count - 1) as nat) | (stored_bit(
            bytes,
            w,
            first + count - 1,
        ) << ((count - 1) as u8))
    }
}

/// The first `length` bytes that the slots of the buffer `bytes` hold: byte `j`
/// is gathered from the eight slots that start at slot `8 * j`.
pub open spec fn extracted_bytes(bytes: Seq<u8>, w: int, length: nat) -> Seq<u8> {
    Seq::new(length, |j: int| gathered_bits(bytes, w, 8 * j, 8))
}

/// What extracting `length` bytes from the grid `g` gives.
pub open spec fn extracted(g: GridView, length: nat) -> Result<Seq<u8>, StegoError> {
    if length * 8 > usable_slots(g.width, g.height) {
        Err(StegoError::CapacityExceeded)
    } else if !slots_reachable(g.width, g.bytes.len() as int, length as int * 8) {
        Err(StegoError::PixelAccessFailure)
    } else {
        Ok(extracted_bytes(g.bytes, g.width, length))
    }
}

/// The view of what `extract_from_image` returns.
pub open spec fn extraction_view(r: Result<Vec<u8>, StegoError>) -> Result<Seq<u8>, StegoError> {
    match r {
        Ok(data) => Ok(data@),
        Err(e) => Err(e),
    }
}

/// Setting bit `i` where the stored bit is 1 is the same as or-ing the stored
/// bit in at position `i`.
proof fn lemma_or_in_bit(acc: u8, red: u8, i: u8)
    requires
        i < 8,
    ensures
        red & 1 > 0 ==> acc | (1u8 << i) == acc | ((red & 1) << i),
        !(red & 1 > 0) ==> acc == acc | ((red & 1) << i),
{
    assert(red & 1 > 0 ==> acc | (1u8 << i) == acc | ((red & 1) << i)) by (bit_vector)
        requires
            i < 8,
    ;
    assert(!(red & 1 > 0) ==> acc == acc | ((red & 1) << i)) by (bit_vector)
        requires
            i < 8,
    ;
}

/// Reads `length` bytes back from `image`.
///
/// Bit `i` of byte `j` of the result is the lowest bit of the red channel of the
/// pixel number `8 * j + i` in row-major order among the pixels outside the last
/// row and the last column. The image carries no record of what was embedded:
/// the caller has to know the length, and where nothing was embedded the result
/// is whatever the pixels happen to hold.
///
/// Fails with `CapacityExceeded` if `length` bytes have more bits than there are
/// such pixels, and otherwise with `PixelAccessFailure` if the image's buffer
/// does not hold one of the pixels that have to be read.
pub fn extract_from_image(image: Image, length: usize) -> (r: Result<Vec<u8>, StegoError>)
    ensures
        extraction_view(r) == extracted(grid_view(image), length as nat),
        r matches Err(StegoError::CapacityExceeded) <==> length * 8 > usable_slots(
            image_width(image) as int,
            image_height(image) as int,
        ),
        r matches Ok(data) ==> data@.len() == length,
{
    let ghost g = grid_view(image);
    let width = width_of(&image);
    let height = height_of(&image);
    if !payload_fits(width, height, length) {
        return Err(StegoError::CapacityExceeded);
    }
    let mut data: Vec<u8> = Vec::new();
    let mut current: u8 = 0;
    let mut bit: u8 = 0;
    let mut y: i32 = 0;
    while data.len() < length && y < height - 1
        invariant
            g == grid_view(image),
            g.width == width,
            g.height == height,
            length * 8 <= usable_slots(width as int, height as int),
            0 <= y,
            data@.len() <= length,
            bit < 8,
            data@.len() == length ==> bit == 0,
            data@.len() < length ==> 8 * data.len() + bit == y * (width - 1),
            slots_reachable(width as int, g.bytes.len() as int, 8 * data.len() + bit),
            data@ == extracted_bytes(g.bytes, width as int, data@.len()),
            current == gathered_bits(g.bytes, width as int, 8 * data.len(), bit as nat),
        decreases height - y,
    {
        let mut x: i32 = 0;
        proof {
            lemma_usable_dimensions(width as int, height as int);
        }
        while data.len() < length && x < width - 1
            invariant
                g == grid_view(image),
                g.width == width,
                g.height == height,
                length * 8 <= usable_slots(width as int, height as int),
                width >= 2,
                0 <= y < height - 1,
                0 <= x <= width - 1,
                data@.len() <= length,
                bit < 8,
                data@.len() == length ==> bit == 0,
                8 * data.len() + bit == y * (width - 1) + x,
                slots_reachable(width as int, g.bytes.len() as int, 8 * data.len() + bit),
                data@ == extracted_bytes(g.bytes, width as int, data@.len()),
                current == gathered_bits(g.bytes, width as int, 8 * data.len(), bit as nat),
            decreases width - x,
        {
            let ghost k = 8 * data.len() + bit;
            proof {
                lemma_slot_of_pixel(width as int, x as int, y as int);
                assert(slot_offset(width as int, k) == pixel_offset(
                    width as int,
                    x as int,
                    y as int,
                ));
                assert(k < length * 8);
            }
            if !offset_fits(width, x, y) {
                assert(!slot_reachable(width as int, g.bytes.len() as int, k));
                return Err(StegoError::PixelAccessFailure);
            }
            let p = match read_pixel(&image, x, y) {
                Ok(p) => p,
                Err(_) => {
                    assert(!slot_reachable(width as int, g.bytes.len() as int, k));
                    return Err(StegoError::PixelAccessFailure);
                },
            };
            let d = p.r & 1;
            proof {
                lemma_or_in_bit(current, p.r, bit);
                assert(slot_reachable(width as int, g.bytes.len() as int, k));
            }
            if d > 0 {
                current |= 1 << bit;
            }
            bit += 1;
            if bit > 7 {
                data.push(current);
                current = 0;
                bit = 0;
            }
            x += 1;
        }
        proof {
            if data@.len() < length {
                assert(y * (width - 1) + (width - 1) == (y + 1) * (width - 1))
                    by (nonlinear_arith);
            }
        }
        y += 1;
    }
    proof {
        if data@.len() < length {
            assert(y * (width - 1) >= (height - 1) * (width - 1)) by (nonlinear_arith)
                requires
                    y >= height - 1,
                    width - 1 >= 0,
            ;
        }
    }
    Ok(data)
}

} // verus!

//! Embedding: writing a payload into the lowest bit of the red channel of the
//! pixels that the scan visits.

use crate::bits::lemma_bit_of_range;
use crate::bits::lemma_with_low_bit;
use crate::bits::payload_bit;
use crate::bits::payload_bits;
use crate::bits::with_low_bit;
use crate::error::StegoError;
use crate::grid::grid_view;
use crate::grid::height_of;
use crate::grid::image_bytes;
use crate::grid::image_height;
use crate::grid::image_width;
use crate::grid::read_pixel;
use crate::grid::width_of;
use crate::grid::write_pixel;
use crate::grid::GridView;
use crate::grid::Pixel;
use crate::scan::is_slot_offset;
use crate::scan::lemma_offset_slot_inverse;
use crate::scan::lemma_slot_of_pixel;
use crate::scan::lemma_slot_offset_inverse;
use crate::scan::lemma_usable_dimensions;
use crate::scan::offset_fits;
use crate::scan::offset_slot;
use crate::scan::payload_fits;
use crate::scan::pixel_offset;
use crate::scan::slot_offset;
use crate::scan::slot_reachable;
use crate::scan::slots_reachable;
use crate::scan::usable_slots;
use raster::Image;
use vstd::prelude::*;

verus! {

/// The buffer `bytes` of an image of width `w` after the first `n` bits of
/// `data` were embedded: the red channel of each of the first `n` slots has its
/// lowest bit replaced by that slot's payload bit, and every other byte is as it
/// was.
pub open spec fn embedded_bytes(bytes: Seq<u8>, w: int, data: Seq<u8>, n: int) -> Seq<u8> {
    Seq::new(
        bytes.len(),
        |i: int|
            if is_slot_offset(w, i) && offset_slot(w, i) < n {
                with_low_bit(bytes[i], payload_bit(data, offset_slot(w, i)))
            } else {
                bytes[i]
            },
    )
}

/// What embedding `data` into the grid `g` gives.
pub open spec fn embedded(g: GridView, data: Seq<u8>) -> Result<GridView, StegoError> {
    if payload_bits(data) > usable_slots(g.width, g.height) {
        Err(StegoError::CapacityExceeded)
    } else if !slots_reachable(g.width, g.bytes.len() as int, payload_bits(data)) {
        Err(StegoError::PixelAccessFailure)
    } else {
        Ok(
            GridView {
                width: g.width,
                height: g.height,
                bytes: embedded_bytes(g.bytes, g.width, data, payload_bits(data)),
            },
        )
    }
}

/// The view of what `hide_in_image` returns.
pub open spec fn embedding_view(r: Result<Image, StegoError>) -> Result<GridView, StegoError> {
    match r {
        Ok(image) => Ok(grid_view(image)),
        Err(e) => Err(e),
    }
}

/// Whether `after` differs from `before` in nothing but the lowest bit of red
/// channels: the green, blue and alpha bytes are equal, and so are the seven
/// high bits of every byte.
pub open spec fn only_red_low_bits_differ(before: Seq<u8>, after: Seq<u8>) -> bool {
    &&& after.len() == before.len()
    &&& forall|i: int| 0 <= i < before.len() && i % 4 != 0 ==> #[trigger] after[i] == before[i]
    &&& forall|i: int|
        0 <= i < before.len() ==> (#[trigger] after[i]) & 0xFE == before[i] & 0xFE
}

/// Whether byte `i` of the buffer of a `w` by `h` image belongs to a pixel of the
/// last row or of the last column.
pub open spec fn in_last_row_or_column(w: int, h: int, i: int) -> bool {
    (i / 4) % w == w - 1 || (i / 4) / w == h - 1
}

/// Whether the pixels of the last row and of the last column are in `after` what
/// they are in `before`.
pub open spec fn boundary_untouched(w: int, h: int, before: Seq<u8>, after: Seq<u8>) -> bool {
    &&& after.len() == before.len()
    &&& forall|i: int|
        0 <= i < before.len() && in_last_row_or_column(w, h, i) ==> #[trigger] after[i]
            == before[i]
}

/// Embedding changes no channel but red, and of red no bit but the lowest.
pub proof fn lemma_embedding_changes_only_red_low_bits(
    bytes: Seq<u8>,
    w: int,
    data: Seq<u8>,
    n: int,
)
    ensures
        only_red_low_bits_differ(bytes, embedded_bytes(bytes, w, data, n)),
{
    let after = embedded_bytes(bytes, w, data, n);
    assert forall|i: int| 0 <= i < bytes.len() implies (#[trigger] after[i]) & 0xFE == bytes[i]
        & 0xFE by {
        if is_slot_offset(w, i) && offset_slot(w, i) < n {
            let k = offset_slot(w, i);
            lemma_bit_of_range(data[k / 8], (k % 8) as u8);
            lemma_with_low_bit(bytes[i], payload_bit(data, k));
        }
    }
}

/// Embedding no more bits than there are usable slots writes to no pixel of the
/// last row or of the last column.
pub proof fn lemma_embedding_spares_boundary(bytes: Seq<u8>, w: int, h: int, data: Seq<u8>, n: int)
    requires
        n <= usable_slots(w, h),
    ensures
        boundary_untouched(w, h, bytes, embedded_bytes(bytes, w, data, n)),
{
    let after = embedded_bytes(bytes, w, data, n);
    assert forall|i: int|
        0 <= i < bytes.len() && in_last_row_or_column(w, h, i) implies #[trigger] after[i]
        == bytes[i] by {
        if is_slot_offset(w, i) && offset_slot(w, i) < n {
            let x = (i / 4) % w;
            let y = (i / 4) / w;
            assert(y == h - 1);
            assert(y * (w - 1) + x >= (h - 1) * (w - 1)) by (nonlinear_arith)
                requires
                    y == h - 1,
                    x >= 0,
            ;
            assert(false);
        }
    }
}

/// Embedding one more bit changes one byte: the red channel of the next slot.
pub proof fn lemma_embed_next_bit(bytes: Seq<u8>, w: int, data: Seq<u8>, n: int)
    requires
        w >= 2,
        0 <= n,
        slot_offset(w, n) < bytes.len(),
    ensures
        embedded_bytes(bytes, w, data, n)[slot_offset(w, n)] == bytes[slot_offset(w, n)],
        embedded_bytes(bytes, w, data, n + 1) == embedded_bytes(bytes, w, data, n).update(
            slot_offset(w, n),
            with_low_bit(bytes[slot_offset(w, n)], payload_bit(data, n)),
        ),
{
    let o = slot_offset(w, n);
    lemma_slot_offset_inverse(w, n);
    let next = embedded_bytes(bytes, w, data, n + 1);
    let step = embedded_bytes(bytes, w, data, n).update(
        o,
        with_low_bit(bytes[o], payload_bit(data, n)),
    );
    assert forall|i: int| 0 <= i < bytes.len() implies next[i] == step[i] by {
        if i != o && is_slot_offset(w, i) {
            lemma_offset_slot_inverse(w, i);
        }
    }
    assert(next =~= step);
}

/// Embeds `data` into `image` and returns the image.
///
/// Bit `k` of the payload, counting each byte's least significant bit first,
/// goes into the lowest bit of the red channel of the `k`-th pixel in row-major
/// order among the pixels outside the last row and the last column. Nothing else
/// in the image changes.
///
/// Fails with `CapacityExceeded` if the payload has more bits than there are such
/// pixels, and otherwise with `PixelAccessFailure` if the image's buffer does not
/// hold one of the pixels that the payload needs.
pub fn hide_in_image(image: Image, data: &[u8]) -> (r: Result<Image, StegoError>)
    ensures
        embedding_view(r) == embedded(grid_view(image), data@),
        r matches Err(StegoError::CapacityExceeded) <==> payload_bits(data@) > usable_slots(
            image_width(image) as int,
            image_height(image) as int,
        ),
        r matches Ok(out) ==> only_red_low_bits_differ(image_bytes(image), image_bytes(out)),
        r matches Ok(out) ==> boundary_untouched(
            image_width(image) as int,
            image_height(image) as int,
            image_bytes(image),
            image_bytes(out),
        ),
{
    let ghost before = grid_view(image);
    let mut canvas = image;
    let width = width_of(&canvas);
    let height = height_of(&canvas);
    if !payload_fits(width, height, data.len()) {
        return Err(StegoError::CapacityExceeded);
    }
    let mut index: usize = 0;
    let mut bit: u8 = 0;
    let mut y: i32 = 0;
    while index < data.len() && y < height - 1
        invariant
            before == grid_view(image),
            before.width == width,
            before.height == height,
            grid_view(canvas).width == width,
            grid_view(canvas).height == height,
            payload_bits(data@) <= usable_slots(width as int, height as int),
            0 <= y,
            index <= data@.len(),
            bit < 8,
            index == data@.len() ==> bit == 0,
            index < data@.len() ==> 8 * index + bit == y * (width - 1),
            slots_reachable(width as int, before.bytes.len() as int, 8 * index + bit),
            image_bytes(canvas) == embedded_bytes(before.bytes, width as int, data@, 8 * index + bit),
        decreases height - y,
    {
        let mut x: i32 = 0;
        proof {
            lemma_usable_dimensions(width as int, height as int);
        }
        while index < data.len() && x < width - 1
            invariant
                before == grid_view(image),
                before.width == width,
                before.height == height,
                grid_view(canvas).width == width,
                grid_view(canvas).height == height,
                payload_bits(data@) <= usable_slots(width as int, height as int),
                width >= 2,
                0 <= y < height - 1,
                0 <= x <= width - 1,
                index <= data@.len(),
                bit < 8,
                index == data@.len() ==> bit == 0,
                8 * index + bit == y * (width - 1) + x,
                slots_reachable(width as int, before.bytes.len() as int, 8 * index + bit),
                image_bytes(canvas) == embedded_bytes(
                    before.bytes,
                    width as int,
                    data@,
                    8 * index + bit,
                ),
            decreases width - x,
        {
            let ghost k = 8 * index + bit;
            let ghost o = pixel_offset(width as int, x as int, y as int);
            proof {
                lemma_slot_of_pixel(width as int, x as int, y as int);
                assert(slot_offset(width as int, k) == o);
                assert(k < payload_bits(data@));
            }
            if !offset_fits(width, x, y) {
                assert(!slot_reachable(width as int, before.bytes.len() as int, k));
                return Err(StegoError::PixelAccessFailure);
            }
            let p = match read_pixel(&canvas, x, y) {
                Ok(p) => p,
                Err(_) => {
                    assert(!slot_reachable(width as int, before.bytes.len() as int, k));
                    return Err(StegoError::PixelAccessFailure);
                },
            };
            let d = (data[index] >> bit) & 1;
            let q = Pixel { r: p.r & 0xFE | d, g: p.g, b: p.b, a: p.a };
            proof {
                assert(k / 8 == index && k % 8 == bit);
                assert(d == payload_bit(data@, k));
                lemma_bit_of_range(data@[index as int], bit);
                lemma_embed_next_bit(before.bytes, width as int, data@, k);
                assert(q.r == with_low_bit(before.bytes[o], d));
            }
            match write_pixel(&mut canvas, x, y, q) {
                Ok(()) => {},
                Err(_) => {
                    return Err(StegoError::PixelAccessFailure);
                },
            }
            proof {
                assert(image_bytes(canvas) =~= embedded_bytes(
                    before.bytes,
                    width as int,
                    data@,
                    k + 1,
                ));
                assert(slot_reachable(width as int, before.bytes.len() as int, k));
            }
            bit += 1;
            if bit > 7 {
                bit = 0;
                index += 1;
            }
            x += 1;
        }
        proof {
            if index < data@.len() {
                assert(y * (width - 1) + (width - 1) == (y + 1) * (width - 1))
                    by (nonlinear_arith);
            }
        }
        y += 1;
    }
    proof {
        if index < data@.len() {
            assert(y * (width - 1) >= (height - 1) * (width - 1)) by (nonlinear_arith)
                requires
                    y >= height - 1,
                    width - 1 >= 0,
            ;
        }
        assert(grid_view(canvas).bytes =~= embedded_bytes(
            before.bytes,
            width as int,
            data@,
            payload_bits(data@),
        ));
        lemma_embedding_changes_only_red_low_bits(
            before.bytes,
            width as int,
            data@,
            payload_bits(data@),
        );
        lemma_embedding_spares_boundary(
            before.bytes,
            width as int,
            height as int,
            data@,
            payload_bits(data@),
        );
    }
    Ok(canvas)
}

} // verus!

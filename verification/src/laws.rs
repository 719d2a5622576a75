//! What holds of embedding and extraction together.

use crate::bits::bit_of;
use crate::bits::lemma_bit_of_range;
use crate::bits::lemma_with_low_bit;
use crate::bits::payload_bit;
use crate::bits::payload_bits;
use crate::embed::embedded;
use crate::embed::embedded_bytes;
use crate::embed::embedding_view;
use crate::embed::in_last_row_or_column;
use crate::error::StegoError;
use crate::extract::extracted;
use crate::extract::extracted_bytes;
use crate::extract::gathered_bits;
use crate::extract::stored_bit;
use crate::grid::GridView;
use crate::scan::advisory_capacity;
use crate::scan::lemma_slot_offset_inverse;
use crate::scan::lemma_usable_dimensions;
use crate::scan::slot_column;
use crate::scan::slot_offset;
use crate::scan::slot_reachable;
use crate::scan::slot_row;
use crate::scan::slots_reachable;
use crate::scan::usable_slots;
use raster::Image;
use vstd::prelude::*;

verus! {

/// The advisory capacity counts more pixels than the scan has slots: an image
/// with a pixel in it has fewer usable slots than pixels, so the advisory
/// capacity is never below the length of the longest payload that fits.
pub proof fn lemma_advisory_capacity_overstates(w: int, h: int)
    requires
        w >= 1,
        h >= 1,
    ensures
        usable_slots(w, h) < w * h,
        usable_slots(w, h) / 8 <= advisory_capacity(w, h),
{
    assert((w - 1) * (h - 1) < w * h) by (nonlinear_arith)
        requires
            w >= 1,
            h >= 1,
    ;
}

/// A usable slot lies outside the last row and the last column.
pub proof fn lemma_usable_slot_position(w: int, h: int, k: int)
    requires
        0 <= k < usable_slots(w, h),
    ensures
        0 <= slot_column(w, k) < w - 1,
        0 <= slot_row(w, k) < h - 1,
{
    lemma_usable_dimensions(w, h);
    lemma_slot_offset_inverse(w, k);
    let x = slot_column(w, k);
    let y = slot_row(w, k);
    assert(y < h - 1) by (nonlinear_arith)
        requires
            k == y * (w - 1) + x,
            x >= 0,
            w - 1 >= 1,
            k < (w - 1) * (h - 1),
    ;
}

/// In a well-formed grid every usable slot can be reached: neither embedding nor
/// extraction within the capacity fails for want of a pixel.
pub proof fn lemma_well_formed_slots_reachable(g: GridView, n: int)
    requires
        g.well_formed(),
        n <= usable_slots(g.width, g.height),
    ensures
        slots_reachable(g.width, g.bytes.len() as int, n),
{
    let w = g.width;
    let h = g.height;
    assert forall|k: int| 0 <= k < n implies #[trigger] slot_reachable(
        w,
        g.bytes.len() as int,
        k,
    ) by {
        lemma_usable_slot_position(w, h, k);
        let x = slot_column(w, k);
        let y = slot_row(w, k);
        assert((y * w + x) * 4 + 4 <= w * h * 4) by (nonlinear_arith)
            requires
                0 <= x < w - 1,
                0 <= y < h - 1,
        ;
    }
}

/// After embedding, each of the first `n` slots holds its payload bit.
pub proof fn lemma_embedded_bit_is_stored(bytes: Seq<u8>, w: int, data: Seq<u8>, n: int, k: int)
    requires
        w >= 2,
        0 <= k < n,
        slot_offset(w, k) < bytes.len(),
    ensures
        stored_bit(embedded_bytes(bytes, w, data, n), w, k) == payload_bit(data, k),
{
    lemma_slot_offset_inverse(w, k);
    lemma_bit_of_range(data[k / 8], (k % 8) as u8);
    lemma_with_low_bit(bytes[slot_offset(w, k)], payload_bit(data, k));
}

/// Bit `i` of a byte gathered from eight slots is the bit that the `i`-th of
/// them holds.
pub proof fn lemma_gathered_byte_bits(bytes: Seq<u8>, w: int, first: int)
    ensures
        forall|k: int|
            first <= k < first + 8 ==> bit_of(gathered_bits(bytes, w, first, 8), (k - first) as u8)
                == #[trigger] stored_bit(bytes, w, k),
{
    reveal_with_fuel(gathered_bits, 9);
    let b0 = bytes[slot_offset(w, first + 0)];
    let b1 = bytes[slot_offset(w, first + 1)];
    let b2 = bytes[slot_offset(w, first + 2)];
    let b3 = bytes[slot_offset(w, first + 3)];
    let b4 = bytes[slot_offset(w, first + 4)];
    let b5 = bytes[slot_offset(w, first + 5)];
    let b6 = bytes[slot_offset(w, first + 6)];
    let b7 = bytes[slot_offset(w, first + 7)];
    let v = gathered_bits(bytes, w, first, 8);
    assert(v == 0u8 | ((b0 & 1) << 0u8) | ((b1 & 1) << 1u8) | ((b2 & 1) << 2u8) | ((b3 & 1) << 3u8)
        | ((b4 & 1) << 4u8) | ((b5 & 1) << 5u8) | ((b6 & 1) << 6u8) | ((b7 & 1) << 7u8));
    assert({
        &&& (v >> 0u8) & 1 == b0 & 1
        &&& (v >> 1u8) & 1 == b1 & 1
        &&& (v >> 2u8) & 1 == b2 & 1
        &&& (v >> 3u8) & 1 == b3 & 1
        &&& (v >> 4u8) & 1 == b4 & 1
        &&& (v >> 5u8) & 1 == b5 & 1
        &&& (v >> 6u8) & 1 == b6 & 1
        &&& (v >> 7u8) & 1 == b7 & 1
    }) by (bit_vector)
        requires
            v == 0u8 | ((b0 & 1) << 0u8) | ((b1 & 1) << 1u8) | ((b2 & 1) << 2u8) | ((b3 & 1)
                << 3u8) | ((b4 & 1) << 4u8) | ((b5 & 1) << 5u8) | ((b6 & 1) << 6u8) | ((b7 & 1)
                << 7u8),
    ;
    assert forall|k: int| first <= k < first + 8 implies bit_of(v, (k - first) as u8)
        == #[trigger] stored_bit(bytes, w, k) by {
        let i = k - first;
        assert(i == 0 || i == 1 || i == 2 || i == 3 || i == 4 || i == 5 || i == 6 || i == 7);
    }
}

/// A byte is what its eight bits, least significant first, are gathered into.
pub proof fn lemma_gather_bits_of_byte(bytes: Seq<u8>, w: int, first: int, v: u8)
    requires
        forall|k: int|
            first <= k < first + 8 ==> #[trigger] stored_bit(bytes, w, k) == bit_of(
                v,
                (k - first) as u8,
            ),
    ensures
        gathered_bits(bytes, w, first, 8) == v,
{
    reveal_with_fuel(gathered_bits, 9);
    assert(stored_bit(bytes, w, first + 0) == bit_of(v, 0));
    assert(stored_bit(bytes, w, first + 1) == bit_of(v, 1));
    assert(stored_bit(bytes, w, first + 2) == bit_of(v, 2));
    assert(stored_bit(bytes, w, first + 3) == bit_of(v, 3));
    assert(stored_bit(bytes, w, first + 4) == bit_of(v, 4));
    assert(stored_bit(bytes, w, first + 5) == bit_of(v, 5));
    assert(stored_bit(bytes, w, first + 6) == bit_of(v, 6));
    assert(stored_bit(bytes, w, first + 7) == bit_of(v, 7));
    assert(0u8 | (((v >> 0u8) & 1) << 0u8) | (((v >> 1u8) & 1) << 1u8) | (((v >> 2u8) & 1) << 2u8)
        | (((v >> 3u8) & 1) << 3u8) | (((v >> 4u8) & 1) << 4u8) | (((v >> 5u8) & 1) << 5u8) | (((v
        >> 6u8) & 1) << 6u8) | (((v >> 7u8) & 1) << 7u8) == v) by (bit_vector);
}

/// Round trip: whenever embedding a payload succeeds, extracting as many bytes
/// as the payload has from the result succeeds and gives the payload back. In a
/// well-formed grid, embedding succeeds for every payload that has no more bits
/// than the grid has usable slots.
pub proof fn lemma_round_trip(g: GridView, data: Seq<u8>)
    ensures
        g.well_formed() && payload_bits(data) <= usable_slots(g.width, g.height) ==> embedded(
            g,
            data,
        ) is Ok,
        embedded(g, data) matches Ok(out) ==> extracted(out, data.len()) == Ok::<
            Seq<u8>,
            StegoError,
        >(data),
{
    if g.well_formed() && payload_bits(data) <= usable_slots(g.width, g.height) {
        lemma_well_formed_slots_reachable(g, payload_bits(data));
    }
    if let Ok(out) = embedded(g, data) {
        let w = g.width;
        let n = payload_bits(data);
        let back = extracted_bytes(out.bytes, w, data.len());
        assert forall|j: int| 0 <= j < data.len() implies back[j] == data[j] by {
            lemma_usable_dimensions(w, g.height);
            assert forall|k: int| 8 * j <= k < 8 * j + 8 implies #[trigger] stored_bit(
                out.bytes,
                w,
                k,
            ) == bit_of(data[j], (k - 8 * j) as u8) by {
                let i = k - 8 * j;
                assert(slot_reachable(w, g.bytes.len() as int, k));
                lemma_slot_offset_inverse(w, k);
                lemma_embedded_bit_is_stored(g.bytes, w, data, n, k);
                assert(k / 8 == j && k % 8 == i);
            }
            lemma_gather_bits_of_byte(out.bytes, w, 8 * j, data[j]);
        }
        assert(back =~= data);
    }
}

/// Two buffers whose slots hold the same bits give the same gathered value.
pub proof fn lemma_gathered_bits_agree(a: Seq<u8>, b: Seq<u8>, w: int, first: int, count: nat)
    requires
        forall|k: int|
            first <= k < first + count ==> #[trigger] stored_bit(a, w, k) == stored_bit(b, w, k),
    ensures
        gathered_bits(a, w, first, count) == gathered_bits(b, w, first, count),
    decreases count,
{
    if count > 0 {
        lemma_gathered_bits_agree(a, b, w, first, (count - 1) as nat);
        assert(stored_bit(a, w, first + count - 1) == stored_bit(b, w, first + count - 1));
    }
}

/// Extraction does not read the last row or the last column: two grids of the
/// same shape that differ only in pixels of the last row and the last column
/// give the same result.
pub proof fn lemma_extraction_ignores_boundary(a: GridView, b: GridView, length: nat)
    requires
        a.width == b.width,
        a.height == b.height,
        a.bytes.len() == b.bytes.len(),
        forall|i: int|
            0 <= i < a.bytes.len() && !in_last_row_or_column(a.width, a.height, i)
                ==> #[trigger] a.bytes[i] == b.bytes[i],
    ensures
        extracted(a, length) == extracted(b, length),
{
    let w = a.width;
    let h = a.height;
    if length * 8 <= usable_slots(w, h) && slots_reachable(
        w,
        a.bytes.len() as int,
        length as int * 8,
    ) {
        let from_a = extracted_bytes(a.bytes, w, length);
        let from_b = extracted_bytes(b.bytes, w, length);
        assert forall|j: int| 0 <= j < length implies from_a[j] == from_b[j] by {
            assert forall|k: int| 8 * j <= k < 8 * j + 8 implies #[trigger] stored_bit(
                a.bytes,
                w,
                k,
            ) == stored_bit(b.bytes, w, k) by {
                assert(slot_reachable(w, a.bytes.len() as int, k));
                lemma_usable_slot_position(w, h, k);
                lemma_slot_offset_inverse(w, k);
            }
            lemma_gathered_bits_agree(a.bytes, b.bytes, w, 8 * j, 8);
        }
        assert(from_a =~= from_b);
    }
}

/// Determinism: whatever `hide_in_image` returns for an image and a payload, it
/// returns the same for an equal image and an equal payload: the same error, or
/// images of equal width, height and bytes.
pub proof fn lemma_embedding_deterministic(
    g: GridView,
    data: Seq<u8>,
    first: Result<Image, StegoError>,
    second: Result<Image, StegoError>,
)
    requires
        embedding_view(first) == embedded(g, data),
        embedding_view(second) == embedded(g, data),
    ensures
        embedding_view(first) == embedding_view(second),
{
}

} // verus!

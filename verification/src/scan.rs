//! The scan order: which pixels carry payload bits, in which order, and where
//! their red channel lies in the image's byte buffer.
//!
//! The image is a flat buffer of RGBA bytes, row after row. Pixel `(x, y)` of an
//! image of width `w` starts at byte `(y * w + x) * 4`, and that byte is its red
//! channel. The scan visits the pixels with `x <= w - 2` and `y <= h - 2` row by
//! row; the `k`-th pixel visited is *slot* `k`.

use vstd::arithmetic::div_mod::lemma_fundamental_div_mod;
use vstd::arithmetic::div_mod::lemma_fundamental_div_mod_converse;
use vstd::prelude::*;

verus! {

/// Number of pixels that the scan visits in an image of `w` by `h` pixels: all
/// but the last row and the last column.
pub open spec fn usable_slots(w: int, h: int) -> int {
    if w >= 1 && h >= 1 {
        (w - 1) * (h - 1)
    } else {
        0
    }
}

/// The advisory capacity in bytes of an image of `w` by `h` pixels: one bit for
/// every pixel, the last row and column included. It is an upper bound on what
/// the scan can hold, not what it holds.
pub open spec fn advisory_capacity(w: int, h: int) -> int {
    if w >= 1 && h >= 1 {
        (w * h) / 8
    } else {
        0
    }
}

/// Column of slot `k` in an image of width `w`.
pub open spec fn slot_column(w: int, k: int) -> int {
    k % (w - 1)
}

/// Row of slot `k` in an image of width `w`.
pub open spec fn slot_row(w: int, k: int) -> int {
    k / (w - 1)
}

/// Index in the byte buffer of the red channel of pixel `(x, y)`.
pub open spec fn pixel_offset(w: int, x: int, y: int) -> int {
    (y * w + x) * 4
}

/// Index in the byte buffer of the red channel of slot `k`.
pub open spec fn slot_offset(w: int, k: int) -> int {
    pixel_offset(w, slot_column(w, k), slot_row(w, k))
}

/// Whether byte `i` of the buffer is the red channel of a pixel outside the
/// last column.
pub open spec fn is_slot_offset(w: int, i: int) -> bool {
    w >= 2 && i >= 0 && i % 4 == 0 && (i / 4) % w < w - 1
}

/// The slot whose red channel is byte `i`, where `is_slot_offset(w, i)`.
pub open spec fn offset_slot(w: int, i: int) -> int {
    ((i / 4) / w) * (w - 1) + (i / 4) % w
}

/// Whether the pixel of slot `k` can be reached in a buffer of `len` bytes: its
/// four bytes lie inside the buffer, at offsets that fit in an `i32`.
pub open spec fn slot_reachable(w: int, len: int, k: int) -> bool {
    slot_offset(w, k) + 4 <= len && slot_offset(w, k) + 4 <= i32::MAX
}

/// Whether the first `n` slots can all be reached.
pub open spec fn slots_reachable(w: int, len: int, n: int) -> bool {
    forall|k: int| 0 <= k < n ==> #[trigger] slot_reachable(w, len, k)
}

/// The largest pixel index `y * w + x` whose four bytes all lie at offsets that
/// fit in an `i32`: `(i32::MAX - 4) / 4`.
pub const LAST_PIXEL_INDEX: i64 = 536_870_910;

/// The number of pixels outside the last row and the last column.
pub fn usable_slot_count(width: i32, height: i32) -> (n: u64)
    ensures
        n == usable_slots(width as int, height as int),
{
    if width >= 1 && height >= 1 {
        let columns = (width - 1) as u64;
        let rows = (height - 1) as u64;
        assert(columns * rows <= 0x4000_0000_0000_0000) by (nonlinear_arith)
            requires
                columns <= 0x8000_0000,
                rows <= 0x8000_0000,
        ;
        assert(columns * rows == (width - 1) * (height - 1)) by (nonlinear_arith)
            requires
                columns == width - 1,
                rows == height - 1,
        ;
        columns * rows
    } else {
        0
    }
}

/// Whether a payload of `len` bytes has a slot for each of its bits.
pub fn payload_fits(width: i32, height: i32, len: usize) -> (fits: bool)
    ensures
        fits <==> len * 8 <= usable_slots(width as int, height as int),
{
    len as u64 <= usable_slot_count(width, height) / 8
}

/// Whether the four bytes of pixel `(x, y)` lie at offsets that fit in an `i32`.
pub fn offset_fits(width: i32, x: i32, y: i32) -> (fits: bool)
    requires
        0 <= x,
        0 <= y,
        0 <= width,
    ensures
        fits <==> pixel_offset(width as int, x as int, y as int) + 4 <= i32::MAX,
{
    assert(0 <= y * width <= 0x4000_0000_0000_0000) by (nonlinear_arith)
        requires
            0 <= y <= 0x8000_0000,
            0 <= width <= 0x8000_0000,
    ;
    y as i64 * width as i64 + x as i64 <= LAST_PIXEL_INDEX
}

/// An image with a usable slot has at least two rows and two columns.
pub proof fn lemma_usable_dimensions(w: int, h: int)
    requires
        usable_slots(w, h) >= 1,
    ensures
        w >= 2,
        h >= 2,
{
    assert((w - 1) * (h - 1) >= 1 ==> w >= 2 && h >= 2) by (nonlinear_arith)
        requires
            w >= 1,
            h >= 1,
    ;
}

/// Slot `y * (w - 1) + x` is the pixel at column `x` of row `y`.
pub proof fn lemma_slot_of_pixel(w: int, x: int, y: int)
    requires
        w >= 2,
        0 <= x < w - 1,
        0 <= y,
    ensures
        y * (w - 1) + x >= 0,
        slot_column(w, y * (w - 1) + x) == x,
        slot_row(w, y * (w - 1) + x) == y,
        slot_offset(w, y * (w - 1) + x) == pixel_offset(w, x, y),
{
    assert(y * (w - 1) >= 0) by (nonlinear_arith)
        requires
            y >= 0,
            w - 1 >= 1,
    ;
    lemma_fundamental_div_mod_converse(y * (w - 1) + x, w - 1, y, x);
}

/// A slot's offset is a multiple of four that names the slot again.
pub proof fn lemma_slot_offset_inverse(w: int, k: int)
    requires
        w >= 2,
        0 <= k,
    ensures
        0 <= slot_column(w, k) < w - 1,
        0 <= slot_row(w, k),
        k == slot_row(w, k) * (w - 1) + slot_column(w, k),
        is_slot_offset(w, slot_offset(w, k)),
        (slot_offset(w, k) / 4) % w == slot_column(w, k),
        (slot_offset(w, k) / 4) / w == slot_row(w, k),
        offset_slot(w, slot_offset(w, k)) == k,
{
    let x = slot_column(w, k);
    let y = slot_row(w, k);
    lemma_fundamental_div_mod(k, w - 1);
    assert((w - 1) * (k / (w - 1)) == (k / (w - 1)) * (w - 1)) by (nonlinear_arith);
    assert(y >= 0) by (nonlinear_arith)
        requires
            k >= 0,
            w - 1 >= 1,
            y == k / (w - 1),
    ;
    let p = y * w + x;
    assert(y * w >= 0) by (nonlinear_arith)
        requires
            y >= 0,
            w >= 2,
    ;
    lemma_fundamental_div_mod_converse(p, w, y, x);
    assert((p * 4) / 4 == p);
    assert((p * 4) % 4 == 0);
}

/// A byte that is the red channel of a pixel outside the last column is the
/// offset of exactly the slot that `offset_slot` names.
pub proof fn lemma_offset_slot_inverse(w: int, i: int)
    requires
        is_slot_offset(w, i),
    ensures
        offset_slot(w, i) >= 0,
        slot_offset(w, offset_slot(w, i)) == i,
{
    let p = i / 4;
    let x = p % w;
    let y = p / w;
    lemma_fundamental_div_mod(p, w);
    assert(w * (p / w) == (p / w) * w) by (nonlinear_arith);
    assert(y >= 0) by (nonlinear_arith)
        requires
            p >= 0,
            w >= 2,
            y == p / w,
    ;
    lemma_slot_of_pixel(w, x, y);
}

} // verus!

//! Where a byte of a four-channel image lies: its pixel, and the square tile
//! of a grid that the pixel falls in.

use vstd::arithmetic::div_mod::lemma_fundamental_div_mod;
use vstd::arithmetic::div_mod::lemma_fundamental_div_mod_converse;
use vstd::arithmetic::div_mod::lemma_mod_bound;
use vstd::arithmetic::div_mod::lemma_div_pos_is_pos;
use vstd::arithmetic::mul::lemma_mul_is_commutative;
use vstd::prelude::*;

verus! {

/// Position of channel `c` of the pixel in column `x`, row `y`, in an image
/// `width` pixels wide with four bytes to the pixel.
pub open spec fn rgba_offset(width: int, x: int, y: int, c: int) -> int {
    (y * width + x) * 4 + c
}

/// Column of the pixel that byte `i` belongs to.
pub open spec fn byte_column(width: int, i: int) -> int {
    (i / 4) % width
}

/// Row of the pixel that byte `i` belongs to.
pub open spec fn byte_row(width: int, i: int) -> int {
    (i / 4) / width
}

/// Byte `i` belongs to the square of side `size` that is the `col`-th from
/// the left and the `row`-th from the top.
pub open spec fn in_block(width: int, size: int, col: int, row: int, i: int) -> bool {
    &&& byte_column(width, i) / size == col
    &&& byte_row(width, i) / size == row
}

/// Distance in bytes from a place in the square `(to_col, to_row)` back to the
/// same place in the square `(from_col, from_row)`.
pub open spec fn block_shift(
    width: int,
    size: int,
    from_col: int,
    from_row: int,
    to_col: int,
    to_row: int,
) -> int {
    ((from_row * size - to_row * size) * width + (from_col * size - to_col * size)) * 4
}

/// The byte at `rgba_offset(width, x, y, c)` belongs to the pixel `(x, y)`.
pub proof fn lemma_byte_position(width: int, x: int, y: int, c: int)
    requires
        0 <= x < width,
        0 <= y,
        0 <= c < 4,
    ensures
        byte_column(width, rgba_offset(width, x, y, c)) == x,
        byte_row(width, rgba_offset(width, x, y, c)) == y,
        rgba_offset(width, x, y, c) % 4 == c,
        rgba_offset(width, x, y, c) >= 0,
{
    let p = y * width + x;
    assert(y * width >= 0) by (nonlinear_arith)
        requires
            y >= 0,
            width > 0,
    ;
    assert((p * 4 + c) / 4 == p);
    lemma_fundamental_div_mod_converse(p, width, y, x);
}

/// Every byte is one channel of the pixel in its column and row.
pub proof fn lemma_position_byte(width: int, i: int)
    requires
        0 < width,
        0 <= i,
    ensures
        i == rgba_offset(width, byte_column(width, i), byte_row(width, i), i % 4),
        0 <= byte_column(width, i) < width,
        0 <= byte_row(width, i),
{
    let p = i / 4;
    lemma_fundamental_div_mod(p, width);
    lemma_mod_bound(p, width);
    lemma_div_pos_is_pos(p, width);
    lemma_mul_is_commutative(width, p / width);
}

/// A coordinate lies in the `slot`-th stretch of length `size` exactly if
/// dividing it by `size` gives `slot`.
pub proof fn lemma_slot(size: int, v: int, slot: int)
    requires
        0 < size,
    ensures
        v / size == slot <==> slot * size <= v < slot * size + size,
{
    lemma_fundamental_div_mod(v, size);
    lemma_mod_bound(v, size);
    lemma_mul_is_commutative(size, v / size);
    if slot * size <= v < slot * size + size {
        lemma_fundamental_div_mod_converse(v, size, slot, v - slot * size);
    }
}

/// The bytes of the pixels of row `y` in the `col`-th stretch of `size`
/// columns are one run of `4 * size` bytes.
pub proof fn lemma_run_is_row(width: int, size: int, col: int, y: int, i: int)
    requires
        0 < size,
        0 <= col,
        col * size + size <= width,
        0 <= y,
        0 <= i,
    ensures
        (byte_column(width, i) / size == col && byte_row(width, i) == y) <==> (rgba_offset(
            width,
            col * size,
            y,
            0,
        ) <= i < rgba_offset(width, col * size, y, 0) + 4 * size),
{
    let start = rgba_offset(width, col * size, y, 0);
    assert(col * size >= 0) by (nonlinear_arith)
        requires
            col >= 0,
            size > 0,
    ;
    lemma_position_byte(width, i);
    lemma_slot(size, byte_column(width, i), col);
    if start <= i < start + 4 * size {
        let x = i / 4 - y * width;
        assert(col * size <= x < col * size + size);
        lemma_fundamental_div_mod_converse(i / 4, width, y, x);
    }
}

/// The bytes of the pixel `(x, y)` are the four that start at its offset.
pub proof fn lemma_pixel_bytes(width: int, x: int, y: int, i: int)
    requires
        0 <= x < width,
        0 <= y,
        0 <= i,
    ensures
        (byte_column(width, i) == x && byte_row(width, i) == y) <==> (rgba_offset(width, x, y, 0)
            <= i < rgba_offset(width, x, y, 0) + 4),
{
    let start = rgba_offset(width, x, y, 0);
    lemma_position_byte(width, i);
    if start <= i < start + 4 {
        lemma_byte_position(width, x, y, i - start);
    }
}

} // verus!

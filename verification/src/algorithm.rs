//! Small integer routines and facts about grids, shared by the renderer.
use vstd::prelude::*;

verus! {

/// The big-endian value of four bytes.
pub open spec fn be_word(b1: u8, b2: u8, b3: u8, b4: u8) -> int {
    b1 * 0x100_0000 + b2 * 0x1_0000 + b3 * 0x100 + b4
}

/// Packs four bytes into one word, the first byte in the most significant
/// position.
pub fn u8s_to_u32(b1: u8, b2: u8, b3: u8, b4: u8) -> (word: u32)
    ensures
        word == be_word(b1, b2, b3, b4),
{
    let w: u32 = (b1 as u32) << 24 | (b2 as u32) << 16 | (b3 as u32) << 8 | (b4 as u32);
    assert(w == b1 * 0x100_0000 + b2 * 0x1_0000 + b3 * 0x100 + b4) by (bit_vector)
        requires
            w == (b1 as u32) << 24 | (b2 as u32) << 16 | (b3 as u32) << 8 | (b4 as u32),
    ;
    w
}

/// A cell of a grid of `w` columns and `h` rows has its index inside the
/// grid, and the four bytes of a pixel stored there lie inside a buffer of
/// `4 * w * h` bytes.
pub proof fn lemma_pixel_offset(x: int, y: int, w: int, h: int)
    requires
        0 <= x < w,
        0 <= y < h,
    ensures
        0 <= y * w,
        0 <= x + y * w < w * h,
        4 * (x + y * w) + 4 <= 4 * (w * h),
{
    assert(0 <= y * w && x + y * w + 1 <= w * h) by (nonlinear_arith)
        requires
            0 <= x < w,
            0 <= y < h,
    ;
}

/// Two different cells of a grid of `w` columns have different indices.
pub proof fn lemma_cells_apart(x: int, y: int, u: int, v: int, w: int)
    requires
        0 <= x < w,
        0 <= u < w,
        0 <= y,
        0 <= v,
        x != u || y != v,
    ensures
        x + y * w != u + v * w,
{
    if y < v {
        assert(y * w + w <= v * w) by (nonlinear_arith)
            requires
                y + 1 <= v,
                0 < w,
        ;
    } else if v < y {
        assert(v * w + w <= y * w) by (nonlinear_arith)
            requires
                v + 1 <= y,
                0 < w,
        ;
    }
}

/// A cell of a square grid has its index inside the grid.
pub proof fn lemma_cell_in_grid(x: int, y: int, size: int)
    requires
        0 <= x < size,
        0 <= y < size,
    ensures
        0 <= y * size,
        0 <= x + y * size < size * size,
{
    assert(0 <= y * size && x + y * size + 1 <= size * size) by (nonlinear_arith)
        requires
            0 <= x < size,
            0 <= y < size,
    ;
}

} // verus!

//! The capture grid: where a pixel lies in the row-major buffer, and how far
//! it is from the middle of an axis.

use vstd::prelude::*;

verus! {

/// Where a pixel lies in a row-major grid.
pub open spec fn pixel_index(x: int, y: int, width: int) -> int {
    y * width + x
}

/// A pixel inside the grid has its index inside the grid.
pub proof fn lemma_pixel_index_in_range(x: int, y: int, width: int, height: int)
    requires
        0 <= x < width,
        0 <= y < height,
    ensures
        0 <= pixel_index(x, y, width) < width * height,
{
    assert(y * width + x < width * height) by (nonlinear_arith)
        requires
            0 <= x < width,
            0 <= y < height,
    ;
    assert(0 <= y * width) by (nonlinear_arith)
        requires
            0 <= y,
            0 <= width,
    ;
}

/// Two pixels of the grid with one index are one pixel.
pub proof fn lemma_pixel_index_injective(x1: int, y1: int, x2: int, y2: int, width: int)
    requires
        0 <= x1 < width,
        0 <= x2 < width,
        0 <= y1,
        0 <= y2,
        pixel_index(x1, y1, width) == pixel_index(x2, y2, width),
    ensures
        x1 == x2,
        y1 == y2,
{
    if y1 < y2 {
        assert(y1 * width + width <= y2 * width) by (nonlinear_arith)
            requires
                y1 + 1 <= y2,
                0 <= width,
        ;
    } else if y2 < y1 {
        assert(y2 * width + width <= y1 * width) by (nonlinear_arith)
            requires
                y2 + 1 <= y1,
                0 <= width,
        ;
    }
}

/// The index of the pixel in column `x` of row `y`.
pub fn index_of(x: u32, y: u32, width: u32, height: u32) -> (index: usize)
    requires
        x < width,
        y < height,
        width * height <= usize::MAX,
    ensures
        index == pixel_index(x as int, y as int, width as int),
        index < width * height,
{
    proof {
        lemma_pixel_index_in_range(x as int, y as int, width as int, height as int);
        assert(0 <= y * width) by (nonlinear_arith);
    }
    y as usize * width as usize + x as usize
}

/// The column and the row of the pixel with the given index.
pub fn position_of(index: usize, width: u32, height: u32) -> (at: (u32, u32))
    requires
        index < width * height,
    ensures
        at.0 < width,
        at.1 < height,
        pixel_index(at.0 as int, at.1 as int, width as int) == index,
{
    assert(width > 0 && height > 0) by (nonlinear_arith)
        requires
            0 <= index < width * height,
    ;
    let w: usize = width as usize;
    let x: usize = index % w;
    let y: usize = index / w;
    assert(y < height && index == y * width + x) by (nonlinear_arith)
        requires
            index < width * height,
            x == (index as int) % (width as int),
            y == (index as int) / (width as int),
            width > 0,
    ;
    (x as u32, y as u32)
}

/// Twice the signed distance of pixel `x` from the middle of an axis of
/// `extent` pixels: the numerator of `x - extent / 2` over two.
pub open spec fn centered_offset_of(x: int, extent: int) -> int {
    2 * x - extent
}

/// The distance of a pixel from the middle of its axis, in half pixels.
pub fn centered_offset(x: u32, extent: u32) -> (offset: i64)
    ensures
        offset == centered_offset_of(x as int, extent as int),
{
    2 * (x as i64) - extent as i64
}

/// The middle pixel of an axis with an even number of pixels lies at
/// distance zero, so that the middle of the capture grid maps to the point
/// that the view is centred on. With an odd number of pixels the middle pixel
/// lies half a pixel before it.
pub proof fn lemma_middle_pixel_offset(extent: int)
    requires
        extent >= 0,
    ensures
        extent % 2 == 0 ==> centered_offset_of(extent / 2, extent) == 0,
        extent % 2 == 1 ==> centered_offset_of(extent / 2, extent) == -1,
{
}

} // verus!

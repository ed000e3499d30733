//! Pixel access in the RGBA buffer of the window icon.
use vstd::prelude::*;

verus! {

/// The byte offset of pixel (`x`, `y`) in an RGBA buffer `width` pixels wide.
pub open spec fn pixel_offset(width: u32, x: u32, y: u32) -> int {
    (y as int * width as int + x as int) * 4
}

/// Pixels are stored row by row, four bytes each: the next pixel of a row starts four
/// bytes later, the same pixel of the next row `4 * width` bytes later, and pixel (0, 0)
/// at the start.
pub proof fn pixels_are_stored_row_by_row(width: u32, x: u32, y: u32)
    ensures
        pixel_offset(width, 0, 0) == 0,
        x < u32::MAX ==> pixel_offset(width, (x + 1) as u32, y) == pixel_offset(width, x, y) + 4,
        y < u32::MAX ==> pixel_offset(width, x, (y + 1) as u32) == pixel_offset(width, x, y) + 4
            * width,
{
    if y < u32::MAX {
        let y1: int = ((y + 1) as u32) as int;
        assert(y1 == y as int + 1);
        let w: int = width as int;
        let xi: int = x as int;
        let yi: int = y as int;
        assert((y1 * w + xi) * 4 == (yi * w + xi) * 4 + 4 * w) by (nonlinear_arith)
            requires
                y1 == yi + 1,
        ;
    }
}

/// Paints pixel (`x`, `y`) of an RGBA buffer `width` pixels wide with `color`.
pub fn blend_pixel(buffer: &mut [u8], width: u32, x: u32, y: u32, color: [u8; 4])
    requires
        pixel_offset(width, x, y) + 4 <= old(buffer)@.len(),
        pixel_offset(width, x, y) + 4 <= u32::MAX,
    ensures
        final(buffer)@.len() == old(buffer)@.len(),
        forall|k: int|
            0 <= k < final(buffer)@.len() ==> #[trigger] final(buffer)@[k] == (if pixel_offset(width, x, y) <= k
                < pixel_offset(width, x, y) + 4 {
                color@[k - pixel_offset(width, x, y)]
            } else {
                old(buffer)@[k]
            }),
{
    assert(y as int * width as int <= pixel_offset(width, x, y)) by (nonlinear_arith)
        requires
            y as int * width as int + x as int >= 0,
            pixel_offset(width, x, y) == (y as int * width as int + x as int) * 4,
    ;
    let index = ((y * width + x) * 4) as usize;
    buffer[index] = color[0];
    buffer[index + 1] = color[1];
    buffer[index + 2] = color[2];
    buffer[index + 3] = color[3];
}

} // verus!

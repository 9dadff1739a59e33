//! Layout of the pixels of an image.

use vstd::prelude::*;

verus! {

/// Column and row of the pixel that stands at place `i` of an image written
/// row by row from the top, rows being counted from the bottom.
pub open spec fn pixel_position_spec(i: u32, width: u32, height: u32) -> (u32, u32) {
    ((i % width) as u32, (height - i / width - 1) as u32)
}

/// Column and row of the pixel at place `i`, see [`pixel_position_spec`].
pub fn pixel_position(i: u32, width: u32, height: u32) -> (xy: (u32, u32))
    requires
        width > 0,
        i < width * height,
    ensures
        xy == pixel_position_spec(i, width, height),
        xy.0 < width,
        xy.1 < height,
        i == (height - 1 - xy.1) * width + xy.0,
{
    proof {
        lemma_row_in_image(i as int, width as int, height as int);
    }
    (i % width, height - i / width - 1)
}

/// A place below `width * height` lies in one of the `height` rows.
pub proof fn lemma_row_in_image(i: int, width: int, height: int)
    requires
        width > 0,
        0 <= i < width * height,
    ensures
        0 <= i / width < height,
        i == (i / width) * width + i % width,
        0 <= i % width < width,
{
    vstd::arithmetic::div_mod::lemma_fundamental_div_mod(i, width);
    vstd::arithmetic::div_mod::lemma_div_pos_is_pos(i, width);
    vstd::arithmetic::div_mod::lemma_mod_bound(i, width);
    if i / width >= height {
        assert((i / width) * width >= height * width) by (nonlinear_arith)
            requires
                i / width >= height,
                width > 0,
        ;
        assert(width * (i / width) == (i / width) * width) by (nonlinear_arith);
        assert(width * height == height * width) by (nonlinear_arith);
    }
    assert(width * (i / width) == (i / width) * width) by (nonlinear_arith);
}

/// No two places of an image share a pixel.
pub proof fn lemma_pixel_positions_differ(i: u32, j: u32, width: u32, height: u32)
    requires
        width > 0,
        i < width * height,
        j < width * height,
        pixel_position_spec(i, width, height) == pixel_position_spec(j, width, height),
    ensures
        i == j,
{
    lemma_row_in_image(i as int, width as int, height as int);
    lemma_row_in_image(j as int, width as int, height as int);
}

} // verus!

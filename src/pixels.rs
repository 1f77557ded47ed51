//! Pixel addressing of the framebuffer: pixels are numbered row by row, so
//! pixel `i` of an image `width` wide sits at column `i % width`, row
//! `i / width`.
use vstd::prelude::*;

verus! {

/// Column and row of pixel `i`.
pub open spec fn coords_spec(i: int, width: int) -> (int, int) {
    (i % width, i / width)
}

/// Number of pixel `(x, y)`.
pub open spec fn index_spec(x: int, y: int, width: int) -> int {
    y * width + x
}

/// The number of pixels of a `width` by `height` image.
pub fn pixel_count(width: usize, height: usize) -> (r: usize)
    requires
        width * height <= usize::MAX,
    ensures
        r == width * height,
{
    width * height
}

/// Column and row of pixel `i` in an image `width` wide.
pub fn pixel_coords(i: usize, width: usize) -> (r: (usize, usize))
    requires
        width > 0,
    ensures
        r.0 == coords_spec(i as int, width as int).0,
        r.1 == coords_spec(i as int, width as int).1,
        r.0 < width,
{
    (i % width, i / width)
}

/// Number of the pixel at column `x`, row `y` in an image `width` wide.
pub fn pixel_index(x: usize, y: usize, width: usize) -> (r: usize)
    requires
        x < width,
        y * width + x <= usize::MAX,
    ensures
        r == index_spec(x as int, y as int, width as int),
{
    y * width + x
}

/// Numbering and addressing are inverse: every pixel of a `width` by
/// `height` image has a column below `width` and a row below `height`, and
/// its number is recovered from them; every column and row in range name one
/// pixel number below `width * height`, whose coordinates they are.
pub proof fn lemma_pixel_round_trip(width: int, height: int, i: int, x: int, y: int)
    requires
        width > 0,
        height > 0,
    ensures
        0 <= i < width * height ==> {
            let (cx, cy) = coords_spec(i, width);
            &&& 0 <= cx < width
            &&& 0 <= cy < height
            &&& index_spec(cx, cy, width) == i
        },
        0 <= x < width && 0 <= y < height ==> {
            let j = index_spec(x, y, width);
            &&& 0 <= j < width * height
            &&& coords_spec(j, width) == (x, y)
        },
{
    if 0 <= i < width * height {
        vstd::arithmetic::div_mod::lemma_fundamental_div_mod(i, width);
        vstd::arithmetic::div_mod::lemma_mod_pos_bound(i, width);
        vstd::arithmetic::div_mod::lemma_div_pos_is_pos(i, width);
        let q = i / width;
        let r = i % width;
        assert(q < height) by (nonlinear_arith)
            requires
                i == width * q + r,
                0 <= r,
                i < width * height,
                width > 0,
        ;
        vstd::arithmetic::mul::lemma_mul_is_commutative(width, q);
        assert(index_spec(r, q, width) == i);
    }
    if 0 <= x < width && 0 <= y < height {
        let j = index_spec(x, y, width);
        assert(0 <= j < width * height) by (nonlinear_arith)
            requires
                0 <= x < width,
                0 <= y < height,
                j == y * width + x,
        ;
        vstd::arithmetic::div_mod::lemma_fundamental_div_mod_converse(j, width, y, x);
    }
}

} // verus!

//! Environment-map addressing: the equirectangular mapping from a direction
//! to image coordinates, and the texels that nearest and bilinear lookups
//! read.
//!
//! Coordinates are fixed point: `UV_ONE` stands for 1, so a coordinate `t`
//! means `t / UV_ONE`. The horizontal axis is clamped at the seam, not wrapped.
use vstd::prelude::*;

verus! {

/// Fixed-point unit: 2^24, the precision of a single-precision mantissa.
pub const UV_ONE: u32 = 16777216;

/// Half of `UV_ONE`.
pub const UV_HALF: u32 = 8388608;

/// Normalised image coordinates, each in `[0, UV_ONE]`.
#[derive(Clone, Copy, Debug, PartialEq, Eq)]
pub struct Uv {
    pub u: u32,
    pub v: u32,
}

impl Uv {
    /// Both coordinates lie in the unit interval.
    pub open spec fn in_unit_square(self) -> bool {
        self.u <= UV_ONE && self.v <= UV_ONE
    }
}

/// A unit direction by its two angles, in fixed point.
///
/// `azimuth` is `atan2(x, y)` as a fraction of a full turn, in
/// `[-UV_HALF, UV_HALF]`; `polar` is `acos(z)` as a fraction of a half turn,
/// in `[0, UV_ONE]`.
#[derive(Clone, Copy, Debug, PartialEq, Eq)]
pub struct SphericalDirection {
    pub azimuth: i32,
    pub polar: u32,
}

impl SphericalDirection {
    /// The angles lie in the ranges that a unit direction gives.
    pub open spec fn wf(self) -> bool {
        -(UV_HALF as int) <= self.azimuth <= UV_HALF as int && self.polar <= UV_ONE
    }
}

/// Maps a direction to image coordinates: `u = azimuth / 2pi + 1/2`,
/// `v = polar / pi`. Every result is a valid lookup coordinate.
pub fn equirectangular(d: SphericalDirection) -> (r: Uv)
    requires
        d.wf(),
    ensures
        r.u == d.azimuth + UV_HALF,
        r.v == d.polar,
        r.in_unit_square(),
{
    let u = (d.azimuth as i64 + UV_HALF as i64) as u32;
    Uv { u, v: d.polar }
}

/// The last valid index below `n`, for a coordinate `i` that may run past it.
pub open spec fn clamp_spec(i: int, n: nat) -> int {
    if i < n - 1 {
        i
    } else {
        n - 1
    }
}

/// Clamps an index to an axis of `n` texels.
pub fn clamp_index(i: u128, n: usize) -> (r: usize)
    requires
        n > 0,
    ensures
        r == clamp_spec(i as int, n as nat),
        r < n,
{
    let last = n - 1;
    if i < last as u128 {
        i as usize
    } else {
        last
    }
}

/// A coordinate `t` scaled to an axis of `n` texels, in fixed point.
pub open spec fn scaled(t: u32, n: nat) -> int {
    t as int * n as int
}

/// `t * n` rounded to the nearest integer, halves away from zero.
pub open spec fn nearest_spec(t: u32, n: nat) -> int {
    (2 * scaled(t, n) + UV_ONE as int) / (2 * UV_ONE as int)
}

proof fn lemma_scaled_bound(t: u32, n: usize)
    requires
        t <= UV_ONE,
    ensures
        0 <= scaled(t, n as nat) <= UV_ONE as int * 0xffff_ffff_ffff_ffff,
{
    assert(0 <= t as int * n as int <= UV_ONE as int * 0xffff_ffff_ffff_ffff) by (nonlinear_arith)
        requires
            0 <= t <= UV_ONE,
            0 <= n <= 0xffff_ffff_ffff_ffff,
    ;
}

/// The texel that a nearest-sample lookup at `uv` reads in an image of
/// `nrows` by `ncols` texels: each coordinate scaled and rounded, then
/// clamped to the image.
pub fn nearest_texel(uv: Uv, nrows: usize, ncols: usize) -> (r: (usize, usize))
    requires
        uv.in_unit_square(),
        nrows > 0,
        ncols > 0,
    ensures
        r.0 == clamp_spec(nearest_spec(uv.u, nrows as nat), nrows as nat),
        r.1 == clamp_spec(nearest_spec(uv.v, ncols as nat), ncols as nat),
        r.0 < nrows,
        r.1 < ncols,
{
    proof {
        lemma_scaled_bound(uv.u, nrows);
        lemma_scaled_bound(uv.v, ncols);
    }
    let su = (uv.u as u128) * (nrows as u128);
    let sv = (uv.v as u128) * (ncols as u128);
    let one = UV_ONE as u128;
    let x = clamp_index((2 * su + one) / (2 * one), nrows);
    let y = clamp_index((2 * sv + one) / (2 * one), ncols);
    (x, y)
}

/// The four texels and the weights of a bilinear lookup. The texel at
/// `(x0, y0)` gets weight `(1 - fx) * (1 - fy)`, with `fx / UV_ONE` and
/// `fy / UV_ONE` the fractional parts of the scaled coordinates.
#[derive(Clone, Copy, Debug, PartialEq, Eq)]
pub struct Bilinear {
    pub x0: usize,
    pub x1: usize,
    pub y0: usize,
    pub y1: usize,
    pub fx: u32,
    pub fy: u32,
}

/// The texels that a bilinear lookup at `uv` blends in an image of `nrows` by
/// `ncols` texels: the texel at the scaled coordinate's floor and its
/// successor on each axis, each clamped to the image, and the fractional parts
/// of the scaled coordinates.
pub fn bilinear_texels(uv: Uv, nrows: usize, ncols: usize) -> (r: Bilinear)
    requires
        uv.in_unit_square(),
        nrows > 0,
        ncols > 0,
    ensures
        r.x0 == clamp_spec(scaled(uv.u, nrows as nat) / UV_ONE as int, nrows as nat),
        r.x1 == clamp_spec(scaled(uv.u, nrows as nat) / UV_ONE as int + 1, nrows as nat),
        r.y0 == clamp_spec(scaled(uv.v, ncols as nat) / UV_ONE as int, ncols as nat),
        r.y1 == clamp_spec(scaled(uv.v, ncols as nat) / UV_ONE as int + 1, ncols as nat),
        r.fx == scaled(uv.u, nrows as nat) % UV_ONE as int,
        r.fy == scaled(uv.v, ncols as nat) % UV_ONE as int,
        r.x0 < nrows && r.x1 < nrows,
        r.y0 < ncols && r.y1 < ncols,
        r.fx < UV_ONE && r.fy < UV_ONE,
{
    proof {
        lemma_scaled_bound(uv.u, nrows);
        lemma_scaled_bound(uv.v, ncols);
    }
    let su = (uv.u as u128) * (nrows as u128);
    let sv = (uv.v as u128) * (ncols as u128);
    let one = UV_ONE as u128;
    let fx = (su % one) as u32;
    let fy = (sv % one) as u32;
    Bilinear {
        x0: clamp_index(su / one, nrows),
        x1: clamp_index(su / one + 1, nrows),
        y0: clamp_index(sv / one, ncols),
        y1: clamp_index(sv / one + 1, ncols),
        fx,
        fy,
    }
}

} // verus!

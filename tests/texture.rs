use pathtracer::texture::{
    bilinear_texels, clamp_index, equirectangular, nearest_texel, Bilinear, SphericalDirection, Uv,
    UV_HALF, UV_ONE,
};

#[test]
fn equirectangular_forward_direction() {
    // atan2(0, 1) = 0 and acos(0) = pi / 2: the centre of the image.
    let uv = equirectangular(SphericalDirection { azimuth: 0, polar: UV_HALF });
    assert_eq!(uv, Uv { u: UV_HALF, v: UV_HALF });
}

#[test]
fn equirectangular_extremes() {
    let low = equirectangular(SphericalDirection { azimuth: -(UV_HALF as i32), polar: 0 });
    assert_eq!(low, Uv { u: 0, v: 0 });
    let high = equirectangular(SphericalDirection { azimuth: UV_HALF as i32, polar: UV_ONE });
    assert_eq!(high, Uv { u: UV_ONE, v: UV_ONE });
    let quarter = equirectangular(SphericalDirection { azimuth: (UV_ONE / 4) as i32, polar: 3 });
    assert_eq!(quarter, Uv { u: UV_HALF + UV_ONE / 4, v: 3 });
}

#[test]
fn clamp_index_values() {
    assert_eq!(clamp_index(0, 1), 0);
    assert_eq!(clamp_index(2, 4), 2);
    assert_eq!(clamp_index(3, 4), 3);
    assert_eq!(clamp_index(17, 4), 3);
    assert_eq!(clamp_index(u128::MAX, 4), 3);
}

#[test]
fn nearest_rounds_and_clamps() {
    // 0.5 * 4 = 2
    assert_eq!(nearest_texel(Uv { u: UV_HALF, v: 0 }, 4, 2), (2, 0));
    // 0.375 * 4 = 1.5 rounds up to 2; 0.25 * 2 = 0.5 rounds up to 1
    assert_eq!(nearest_texel(Uv { u: 6291456, v: UV_ONE / 4 }, 4, 2), (2, 1));
    // 0.3 * 4 = 1.2 rounds down
    assert_eq!(nearest_texel(Uv { u: 5033165, v: 0 }, 4, 2), (1, 0));
    // the far edge clamps to the last texel
    assert_eq!(nearest_texel(Uv { u: UV_ONE, v: UV_ONE }, 4, 2), (3, 1));
}

#[test]
fn bilinear_neighbours_and_weights() {
    // 0.375 * 4 = 1.5: texels 1 and 2, half way.
    let b = bilinear_texels(Uv { u: 6291456, v: 0 }, 4, 3);
    assert_eq!(b, Bilinear { x0: 1, x1: 2, y0: 0, y1: 1, fx: UV_HALF, fy: 0 });
}

#[test]
fn bilinear_clamps_at_edges() {
    let b = bilinear_texels(Uv { u: UV_ONE, v: UV_ONE }, 4, 3);
    assert_eq!(b, Bilinear { x0: 3, x1: 3, y0: 2, y1: 2, fx: 0, fy: 0 });
    let single = bilinear_texels(Uv { u: UV_HALF, v: UV_HALF }, 1, 1);
    assert_eq!(single, Bilinear { x0: 0, x1: 0, y0: 0, y1: 0, fx: UV_HALF, fy: UV_HALF });
}

#[test]
fn lookup_of_mapped_direction_stays_in_image() {
    let uv = equirectangular(SphericalDirection { azimuth: UV_HALF as i32, polar: UV_ONE });
    let (x, y) = nearest_texel(uv, 2048, 1024);
    assert_eq!((x, y), (2047, 1023));
}

use pathtracer::helpers::{
    clamp, clamp_max, clamp_min, col_to_rgb_u32, mix_col, rad, rgb_u32, uv,
    uv_to_pixel_coordinates, Axis, Col, ObjectID,
};
use pathtracer::num::{isqrt, mul_fp, SCALE};
use pathtracer::vec3::{distance, length, Mat3, Vec3};

#[test]
fn clamp_orders_values() {
    assert_eq!(clamp(5, 0, 10), 5);
    assert_eq!(clamp(-5, 0, 10), 0);
    assert_eq!(clamp(15, 0, 10), 10);
    assert_eq!(clamp_min(-3, 0), 0);
    assert_eq!(clamp_min(3, 0), 3);
    assert_eq!(clamp_max(3, 2), 2);
    assert_eq!(clamp_max(1, 2), 1);
}

#[test]
fn rgb_packing_is_exact() {
    assert_eq!(rgb_u32(255, 0, 0), 0xFF0000);
    assert_eq!(rgb_u32(0, 255, 0), 0x00FF00);
    assert_eq!(rgb_u32(0, 0, 255), 0x0000FF);
    assert_eq!(rgb_u32(0x12, 0x34, 0x56), 0x123456);
}

#[test]
fn packed_colour_clamps_and_scales() {
    assert_eq!(col_to_rgb_u32(Col::white()), 0xFFFFFF);
    assert_eq!(col_to_rgb_u32(Col::black()), 0);
    assert_eq!(col_to_rgb_u32(Col::new(2 * SCALE, -SCALE, SCALE)), 0xFF00FF);
    // 0.5 of a channel maps to floor(0.5 * 255) = 127.
    assert_eq!(col_to_rgb_u32(Col::grey()), 0x7F7F7F);
}

#[test]
fn colour_arithmetic_is_fixed_point() {
    let c = Col::new(SCALE, SCALE / 2, 0);
    let d = c.mul(Col::new(SCALE / 2, SCALE / 2, SCALE));
    assert_eq!(d, Col::new(SCALE / 2, SCALE / 4, 0));
    let s = c.scale(SCALE / 4);
    assert_eq!(s, Col::new(SCALE / 4, SCALE / 8, 0));
    let m = mix_col(Col::white(), Col::black(), 250_000);
    assert_eq!(m, Col::new(250_000, 250_000, 250_000));
    assert_eq!(Col::new(100, 200, 300).add(Col::new(1, 2, 3)), Col::new(101, 202, 303));
    assert_eq!(Col::new(100, 200, 300).sub(Col::new(1, 2, 3)), Col::new(99, 198, 297));
    assert_eq!(Col::new(3 * SCALE, 6 * SCALE, 9 * SCALE).luminance(), 6 * SCALE);
}

#[test]
fn fixed_point_products_truncate_toward_zero() {
    assert_eq!(mul_fp(3 * SCALE, SCALE / 2), 3 * SCALE / 2);
    assert_eq!(mul_fp(-3_000_000, 500_000), -1_500_000);
    assert_eq!(mul_fp(1, 1), 0);
}

#[test]
fn integer_square_root_brackets() {
    assert_eq!(isqrt(0), 0);
    assert_eq!(isqrt(15), 3);
    assert_eq!(isqrt(16), 4);
    assert_eq!(isqrt(3_000_000_000_000), 1_732_050);
}

#[test]
fn uv_maps_pixels_to_fractions() {
    let r = uv(0, 4, 4);
    assert_eq!((r.x, r.y), (0, 0));
    let r = uv(5, 4, 4);
    assert_eq!((r.x, r.y), (SCALE / 4, SCALE / 4));
    let r = uv(15, 4, 4);
    assert_eq!((r.x, r.y), (3 * SCALE / 4, 3 * SCALE / 4));
    let p = uv_to_pixel_coordinates(r, 4, 4);
    assert_eq!(p, (3, 3));
}

#[test]
fn object_ids_count_up() {
    let mut id = ObjectID::from(0);
    let a = id.next();
    let b = id.next();
    assert_eq!(a.val, 1);
    assert_eq!(b.val, 2);
    assert_eq!(id.val, 2);
    assert_eq!(ObjectID::from(7), ObjectID { val: 7 });
}

#[test]
fn axis_cycles_round_robin() {
    let a = Axis::new(3);
    assert_eq!(a.axis, 0);
    assert_eq!(a.char(), 'x');
    let b = a.next();
    assert_eq!(b.char(), 'y');
    let c = b.next();
    assert_eq!(c.char(), 'z');
    let d = c.next();
    assert_eq!(d.axis, 0);
    assert_eq!(d.char(), 'x');
}

#[test]
fn vector_length_and_normalisation() {
    let v = Vec3::new(3 * SCALE, 4 * SCALE, 0);
    assert_eq!(length(v), 5 * SCALE);
    let n = v.normalize();
    assert_eq!(n, Vec3::new(600_000, 800_000, 0));
    let d = distance(Vec3::zero(), Vec3::new(0, 9 * SCALE, 0));
    assert_eq!(d, 9 * SCALE);
}

#[test]
fn rotation_by_identity_is_identity() {
    let m = Mat3::identity();
    let v = Vec3::new(123_456, -789, 42);
    assert_eq!(m.rotate(v), v);
}

#[test]
fn rotation_applies_rows() {
    // A quarter turn about the vertical axis: x -> z, z -> -x.
    let m = Mat3::new(
        Vec3::new(0, 0, -SCALE),
        Vec3::new(0, SCALE, 0),
        Vec3::new(SCALE, 0, 0),
    );
    let v = Vec3::new(SCALE, 0, 0);
    assert_eq!(m.rotate(v), Vec3::new(0, 0, SCALE));
}

#[test]
fn hue_walk_hits_the_primaries() {
    assert_eq!(Col::from_hue(0), Col::new(SCALE, 0, 0));
    // A third of the way round: green.
    let g = Col::from_hue(SCALE / 3);
    assert!(g.r <= 2);
    assert_eq!(g.g, SCALE);
    assert_eq!(Col::from_hue(SCALE / 2), Col::new(0, SCALE, SCALE));
}

#[test]
fn degrees_convert_to_scaled_radians() {
    assert_eq!(rad(180 * SCALE), 3_141_593);
    assert_eq!(rad(90 * SCALE), 1_570_796);
    assert_eq!(rad(0), 0);
}

use pathtracer::bvh::{construct_bvh, get_bounds, get_by_axis, BoundingVolume};
use pathtracer::helpers::{Axis, Col, ObjectID};
use pathtracer::num::SCALE;
use pathtracer::render::RenderBuffer;
use pathtracer::scene::{Material, Sphere, WormholeParams};
use pathtracer::vec3::Vec3;

fn dull_sphere(x: i64, y: i64, z: i64, radius: i64, id: i32) -> Sphere {
    Sphere {
        pos: Vec3::new(x, y, z),
        radius,
        material: Material {
            color: Col::grey(),
            metallic: 0,
            roughness: SCALE,
            emission_color: Col::white(),
            emission_intensity: 0,
            wormhole_params: WormholeParams::none(),
        },
        object_id: ObjectID { val: id },
    }
}

#[test]
fn accumulating_the_same_frame_twice_doubles_the_sums() {
    let frame = vec![Col::new(SCALE, SCALE / 2, SCALE / 4), Col::new(0, 100_000, 200_000)];
    let mut buf = RenderBuffer::new(2);
    assert_eq!(buf.sample_count, 0);
    buf.add_frame(&frame);
    assert_eq!(buf.sample_count, 1);
    let single: Vec<Col> = buf.sums.clone();
    buf.add_frame(&frame);
    assert_eq!(buf.sample_count, 2);
    for (once, twice) in single.iter().zip(buf.sums.iter()) {
        assert_eq!(twice.r, 2 * once.r);
        assert_eq!(twice.g, 2 * once.g);
        assert_eq!(twice.b, 2 * once.b);
    }
}

#[test]
fn sample_count_is_per_frame_not_per_pixel() {
    let frame = vec![Col::black(); 64];
    let mut buf = RenderBuffer::new(64);
    buf.add_frame(&frame);
    buf.add_frame(&frame);
    buf.add_frame(&frame);
    assert_eq!(buf.sample_count, 3);
}

#[test]
fn accumulation_squares_the_samples() {
    let frame = vec![Col::new(SCALE / 2, SCALE, 0)];
    let mut buf = RenderBuffer::new(1);
    buf.add_frame(&frame);
    // (1/2)^2 = 1/4 of a channel unit; 1^2 = 1.
    assert_eq!(buf.sums[0], Col::new(SCALE / 4, SCALE, 0));
}

#[test]
fn tone_mapping_undoes_the_squaring() {
    let frame = vec![Col::new(SCALE, SCALE / 4, 0)];
    let mut buf = RenderBuffer::new(1);
    buf.add_frame(&frame);
    let out = buf.tone_map();
    // sqrt(1) = 1 -> 255; sqrt(1/16) = 1/4 -> floor(0.25 * 255) = 63;
    // 0 stays 0.
    assert_eq!(out, vec![0xFF3F00]);
}

#[test]
fn reset_clears_sums_and_counter() {
    let frame = vec![Col::white(); 4];
    let mut buf = RenderBuffer::new(4);
    buf.add_frame(&frame);
    buf.reset();
    assert_eq!(buf.sample_count, 0);
    assert_eq!(buf.sums.len(), 4);
    for c in buf.sums.iter() {
        assert_eq!(*c, Col::black());
    }
}

#[test]
fn bounds_cover_every_sphere_with_radius() {
    let spheres = vec![
        dull_sphere(-5 * SCALE, 0, 2 * SCALE, SCALE, 1),
        dull_sphere(3 * SCALE, 4 * SCALE, -SCALE, 2 * SCALE, 2),
    ];
    let b = get_bounds(&spheres);
    assert_eq!(b.val[0], Vec3::new(-6 * SCALE, -SCALE, -3 * SCALE));
    assert_eq!(b.val[7], Vec3::new(5 * SCALE, 6 * SCALE, 3 * SCALE));
    // The in-between corners combine the same extremes.
    assert_eq!(b.val[3], Vec3::new(5 * SCALE, 6 * SCALE, -3 * SCALE));
}

#[test]
fn axis_components_select_by_axis() {
    let v = Vec3::new(1, 2, 3);
    let a = Axis::new(3);
    assert_eq!(get_by_axis(v, a), 1);
    assert_eq!(get_by_axis(v, a.next()), 2);
    assert_eq!(get_by_axis(v, a.next().next()), 3);
}

#[test]
fn hierarchy_splits_when_the_half_point_separates() {
    // Two spheres far apart on x: the local half-point falls between
    // them, so the root gets two single-sphere children.
    let spheres = vec![
        dull_sphere(2 * SCALE, 0, 0, SCALE, 1),
        dull_sphere(20 * SCALE, 0, 0, SCALE, 2),
    ];
    let root: Box<BoundingVolume> = construct_bvh(spheres, 0, Axis::new(3));
    assert_eq!(root.level, 0);
    assert_eq!(root.world_objects.len(), 2);
    let (left, right) = &root.children;
    let left = left.as_ref().expect("a split produces a first child");
    let right = right.as_ref().expect("a split produces a second child");
    assert_eq!(left.level, 1);
    assert_eq!(right.level, 1);
    assert_eq!(left.world_objects.len() + right.world_objects.len(), 2);
    // The first child holds the spheres beyond the half-point.
    assert_eq!(left.world_objects[0].object_id, ObjectID { val: 2 });
    assert_eq!(right.world_objects[0].object_id, ObjectID { val: 1 });
}

#[test]
fn hierarchy_becomes_a_leaf_when_the_split_fails() {
    // Every sphere sits below the local half-point, so the partition
    // leaves one side empty; after the fixed retries the node is a leaf.
    let spheres = vec![
        dull_sphere(-5 * SCALE, 0, 0, SCALE, 1),
        dull_sphere(5 * SCALE, 0, 0, SCALE, 2),
    ];
    let root = construct_bvh(spheres, 0, Axis::new(3));
    assert_eq!(root.world_objects.len(), 2);
    assert!(root.children.0.is_none());
    assert!(root.children.1.is_none());
    // The box still covers both spheres.
    assert_eq!(root.bounds.val[0].x, -6 * SCALE);
    assert_eq!(root.bounds.val[7].x, 6 * SCALE);
}

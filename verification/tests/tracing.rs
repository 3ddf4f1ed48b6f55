use pathtracer::helpers::{Col, ObjectID};
use pathtracer::intersect::Intersect;
use pathtracer::rays::intersect_sphere;
use pathtracer::scene::WorldObject;
use pathtracer::num::SCALE;
use pathtracer::pathtrace::{
    autofocus, camera_ray, camera_ray_simple, closest_hit, fresnel, intersect_spheres, raycast,
    reflect, wormhole_continuation, wormhole_factor, FRESNEL_R0,
};
use pathtracer::rng::Prng;
use pathtracer::scene::{Camera, Material, Ray, Scene, Sky, Sphere, WormholeParams};
use pathtracer::skybox::sky_box;
use pathtracer::vec3::{Mat3, Vec3};

fn plain_material(color: Col) -> Material {
    Material {
        color,
        metallic: 0,
        roughness: SCALE,
        emission_color: Col::white(),
        emission_intensity: 0,
        wormhole_params: WormholeParams::none(),
    }
}

fn sphere_at(x: i64, y: i64, z: i64, radius: i64, id: i32) -> Sphere {
    Sphere {
        pos: Vec3::new(x, y, z),
        radius,
        material: plain_material(Col::red()),
        object_id: ObjectID { val: id },
    }
}

fn test_scene(spheres: Vec<Sphere>) -> Scene {
    Scene {
        cameras: vec![Camera {
            pos: Vec3::zero(),
            rot: Vec3::zero(),
            fov: 90 * SCALE,
            focal_length: 8 * SCALE,
            aperture_radius: 15_000,
            object_id: ObjectID { val: 1 },
        }],
        spheres,
        sky: Sky { colors: vec![Col::new(300_000, 600_000, 900_000), Col::new(900_000, 900_000, 900_000)], intensity: SCALE },
    }
}

fn forward_ray() -> Ray {
    Ray {
        pos: Vec3::new(0, -5 * SCALE, 0),
        dir: Vec3::new(0, SCALE, 0),
        from_wormhole: false,
        from_object_id: ObjectID { val: 0 },
    }
}

#[test]
fn unit_sphere_head_on_hit_distance_is_four() {
    let s = sphere_at(0, 0, 0, SCALE, 2);
    let r = forward_ray();
    assert_eq!(s.intersect(&r), Some(4 * SCALE));
}

#[test]
fn line_missing_the_sphere_reports_no_hit() {
    // Closest approach of 10 units against a radius of 1.
    let s = sphere_at(0, 0, 10 * SCALE, SCALE, 2);
    let r = forward_ray();
    assert_eq!(s.intersect(&r), None);
}

#[test]
fn sphere_behind_the_origin_reports_no_hit() {
    let s = sphere_at(0, -20 * SCALE, 0, SCALE, 2);
    let r = forward_ray();
    assert_eq!(s.intersect(&r), None);
}

#[test]
fn exiting_face_root_is_rejected() {
    // A ray starting on the surface and leaving it: the only forward root
    // is on the far side, where the normal points along the ray.
    let s = sphere_at(0, 0, 0, SCALE, 2);
    let r = Ray {
        pos: Vec3::new(0, SCALE, 0),
        dir: Vec3::new(0, SCALE, 0),
        from_wormhole: false,
        from_object_id: ObjectID { val: 0 },
    };
    assert_eq!(s.intersect(&r), None);
}

#[test]
fn reflection_flips_the_normal_component() {
    let d = Vec3::new(0, SCALE, 0);
    let n = Vec3::new(0, -SCALE, 0);
    assert_eq!(reflect(d, n), Vec3::new(0, -SCALE, 0));
    // A 45-degree bounce off the ground plane.
    let d = Vec3::new(700_000, 700_000, 0);
    let n = Vec3::new(0, -SCALE, 0);
    assert_eq!(reflect(d, n), Vec3::new(700_000, -700_000, 0));
}

#[test]
fn fresnel_stays_in_range_over_all_angles() {
    // Normal incidence gives exactly the base reflectance.
    assert_eq!(fresnel(SCALE), FRESNEL_R0);
    // Grazing incidence saturates at one.
    assert_eq!(fresnel(0), SCALE);
    let mut cos = -SCALE;
    while cos <= SCALE {
        let f = fresnel(cos);
        assert!(0 <= f && f <= SCALE);
        let w = wormhole_factor(cos);
        assert!(0 <= w && w <= SCALE);
        cos += 10_000;
    }
}

#[test]
fn sky_gradient_blends_by_vertical_component() {
    let scene = test_scene(vec![]);
    let up_ray = Ray {
        pos: Vec3::zero(),
        dir: Vec3::new(0, 0, -SCALE),
        from_wormhole: false,
        from_object_id: ObjectID { val: 0 },
    };
    // Fully vertical: the first sky colour alone.
    assert_eq!(sky_box(&scene, &up_ray), Col::new(300_000, 600_000, 900_000));
    let level_ray = forward_ray();
    // Level with the horizon: the second sky colour alone.
    assert_eq!(sky_box(&scene, &level_ray), Col::new(900_000, 900_000, 900_000));
}

#[test]
fn ground_plane_shows_grid_lines() {
    let scene = test_scene(vec![]);
    // Straight down the vertical axis lands on the grid's origin line.
    let down_ray = Ray {
        pos: Vec3::zero(),
        dir: Vec3::new(0, 0, SCALE),
        from_wormhole: false,
        from_object_id: ObjectID { val: 0 },
    };
    assert_eq!(sky_box(&scene, &down_ray), Col::new(200_000, 300_000, 400_000));
}

#[test]
fn zero_bounce_budget_returns_exactly_the_backdrop() {
    // A sphere dead ahead changes nothing when no bounces are allowed.
    let scene = test_scene(vec![sphere_at(0, 0, 0, SCALE, 2)]);
    let r = forward_ray();
    let mut rng = Prng::from_seed(7);
    let shaded = intersect_spheres(0, 10, 0, 0, &scene, false, &scene.spheres, ObjectID { val: 0 }, &r, &mut rng);
    assert_eq!(shaded, sky_box(&scene, &r));
    // The wormhole budget alone also truncates to the backdrop.
    let mut rng = Prng::from_seed(7);
    let shaded = intersect_spheres(3, 0, 0, 0, &scene, false, &scene.spheres, ObjectID { val: 0 }, &r, &mut rng);
    assert_eq!(shaded, sky_box(&scene, &r));
}

#[test]
fn depth_pass_grays_by_distance() {
    let scene = test_scene(vec![sphere_at(0, 0, 0, SCALE, 2)]);
    let r = forward_ray();
    let mut rng = Prng::from_seed(7);
    let shaded = intersect_spheres(3, 10, 0, 0, &scene, true, &scene.spheres, ObjectID { val: 0 }, &r, &mut rng);
    // Hit at t = 4: the grey level is 1 - 1 / (4 + 1) = 0.8.
    assert_eq!(shaded, Col::new(800_000, 800_000, 800_000));
}

#[test]
fn nearest_valid_hit_picks_the_closest_sphere() {
    let near = sphere_at(0, 0, 0, SCALE, 2);
    let far = sphere_at(0, 3 * SCALE, 0, SCALE, 3);
    let scene = test_scene(vec![far, near]);
    let r = forward_ray();
    let hit = closest_hit(&scene.spheres, &r, ObjectID { val: 0 });
    assert_eq!(hit, Some((1, 4 * SCALE)));
    // Excluding the near sphere exposes the far one.
    let hit = closest_hit(&scene.spheres, &r, ObjectID { val: 2 });
    assert_eq!(hit, Some((0, 7 * SCALE)));
}

#[test]
fn portal_continuation_carries_offset_and_pair_id() {
    // A portal pair: sphere A at (0, 0, 8), its exit B displaced by
    // (-2, 12, -6).
    let offset = Vec3::new(-2 * SCALE, 12 * SCALE, -6 * SCALE);
    let a = Sphere {
        pos: Vec3::new(0, 0, 8 * SCALE),
        radius: 2 * SCALE,
        material: Material {
            color: Col::black(),
            metallic: 0,
            roughness: SCALE,
            emission_color: Col::white(),
            emission_intensity: SCALE,
            wormhole_params: WormholeParams {
                is_wormhole: true,
                wormhole_offset: offset,
                other_end_object_id: ObjectID { val: 9 },
            },
        },
        object_id: ObjectID { val: 8 },
    };
    let r = Ray {
        pos: Vec3::zero(),
        dir: Vec3::new(0, 0, SCALE),
        from_wormhole: false,
        from_object_id: ObjectID { val: 0 },
    };
    // Head-on incidence: the softening factor is 1 - r0, and the
    // continuation starts at the hit point (0, 0, 6) plus 0.96 of the
    // offset.
    let f = wormhole_factor(SCALE);
    assert_eq!(f, SCALE - FRESNEL_R0);
    let hit = Vec3::new(0, 0, 6 * SCALE);
    let cont = wormhole_continuation(&r, hit, &a, f);
    assert_eq!(cont.pos, Vec3::new(-1_920_000, 11_520_000, 240_000));
    assert_eq!(cont.dir, r.dir);
    assert!(cont.from_wormhole);
    assert_eq!(cont.from_object_id, ObjectID { val: 9 });
}

#[test]
fn portal_skip_suppresses_reentry() {
    let offset = Vec3::new(0, 0, -4 * SCALE);
    let b = Sphere {
        pos: Vec3::new(0, 5 * SCALE, 0),
        radius: SCALE,
        material: Material {
            color: Col::black(),
            metallic: 0,
            roughness: SCALE,
            emission_color: Col::white(),
            emission_intensity: SCALE,
            wormhole_params: WormholeParams {
                is_wormhole: true,
                wormhole_offset: offset,
                other_end_object_id: ObjectID { val: 8 },
            },
        },
        object_id: ObjectID { val: 9 },
    };
    let spheres = vec![b];
    // A ray that just left this portal's paired end ignores it.
    let r = Ray {
        pos: Vec3::zero(),
        dir: Vec3::new(0, SCALE, 0),
        from_wormhole: true,
        from_object_id: ObjectID { val: 9 },
    };
    assert_eq!(closest_hit(&spheres, &r, ObjectID { val: 0 }), None);
    // The same ray without the portal mark hits it.
    let r2 = Ray { from_wormhole: false, ..r };
    assert_eq!(closest_hit(&spheres, &r2, ObjectID { val: 0 }), Some((0, 4 * SCALE)));
}

#[test]
fn simple_camera_ray_points_through_the_pixel() {
    let scene = test_scene(vec![]);
    let m = Mat3::identity();
    // One pixel, no plane extent: the probe flies straight ahead from the
    // camera.
    let r = camera_ray_simple(0, &scene, 0, 1, 1, &m);
    assert_eq!(r.pos, scene.cameras[0].pos);
    assert_eq!(r.dir, Vec3::new(0, SCALE, 0));
    // A corner pixel of a 2x2 image with a two-unit plane.
    let r = camera_ray_simple(3, &scene, 2 * SCALE, 2, 2, &m);
    assert_eq!(r.dir, Vec3::new(577_350, 577_350, -577_350));
}

#[test]
fn jittered_camera_ray_shifts_its_origin() {
    let scene = test_scene(vec![]);
    let m = Mat3::identity();
    let r = camera_ray(0, &scene, 0, SCALE, 0, 1, 1, &m, SCALE, 0, 0, 0);
    // The lens jitter moves the origin by twice the aperture radius.
    assert_eq!(r.pos, Vec3::new(30_000, 0, 0));
    let r0 = camera_ray(0, &scene, 0, SCALE, 0, 1, 1, &m, 0, 0, 0, 0);
    assert_eq!(r0.pos, Vec3::zero());
    assert_eq!(r0.dir, Vec3::new(0, SCALE, 0));
}

#[test]
fn raycast_returns_the_first_surface_point() {
    let spheres = vec![sphere_at(0, 10 * SCALE, 0, SCALE, 2)];
    let r = Ray {
        pos: Vec3::zero(),
        dir: Vec3::new(0, SCALE, 0),
        from_wormhole: false,
        from_object_id: ObjectID { val: 0 },
    };
    assert_eq!(raycast(&spheres, r), Some(Vec3::new(0, 9 * SCALE, 0)));
    let none = Ray { dir: Vec3::new(0, -SCALE, 0), ..r };
    assert_eq!(raycast(&spheres, none), None);
}

#[test]
fn autofocus_writes_the_probe_distance() {
    let mut scene = test_scene(vec![sphere_at(0, 10 * SCALE, 0, SCALE, 2)]);
    let m = Mat3::identity();
    let probe = autofocus(true, 1, 1, &mut scene, 0, &m);
    assert!(probe.is_some());
    assert_eq!(scene.cameras[0].focal_length, 9 * SCALE);
    // An escaping probe falls back to the far default.
    let mut scene = test_scene(vec![]);
    autofocus(true, 1, 1, &mut scene, 0, &m);
    assert_eq!(scene.cameras[0].focal_length, 200 * SCALE);
    // Disabled, it leaves the camera alone.
    let mut scene = test_scene(vec![]);
    scene.cameras[0].focal_length = 8 * SCALE;
    let probe = autofocus(false, 1, 1, &mut scene, 0, &m);
    assert!(probe.is_none());
    assert_eq!(scene.cameras[0].focal_length, 8 * SCALE);
}

#[test]
fn deterministic_streams_replay_from_a_seed() {
    let mut a = Prng::from_seed(42);
    let mut b = Prng::from_seed(42);
    for _ in 0..32 {
        let lo = -500_000;
        let hi = 500_000;
        let x = a.gen_range(lo, hi);
        let y = b.gen_range(lo, hi);
        assert_eq!(x, y);
        assert!(lo <= x && x < hi);
    }
    let mut c = Prng::from_seed(43);
    let first_a = Prng::from_seed(42).next_u64();
    let first_c = c.next_u64();
    assert_ne!(first_a, first_c);
}

#[test]
fn shading_of_a_rough_red_sphere_is_reproducible() {
    let scene = test_scene(vec![sphere_at(0, 0, 0, SCALE, 2)]);
    let r = forward_ray();
    let mut rng1 = Prng::from_seed(123);
    let mut rng2 = Prng::from_seed(123);
    let c1 = intersect_spheres(2, 4, 0, 0, &scene, false, &scene.spheres, ObjectID { val: 0 }, &r, &mut rng1);
    let c2 = intersect_spheres(2, 4, 0, 0, &scene, false, &scene.spheres, ObjectID { val: 0 }, &r, &mut rng2);
    assert_eq!(c1, c2);
    assert!(c1.r >= 0 && c1.g >= 0 && c1.b >= 0);
}

#[test]
fn world_objects_expose_their_placement() {
    let s: Sphere = WorldObject::new(
        Vec3::new(1, 2, 3),
        4,
        plain_material(Col::red()),
        ObjectID { val: 5 },
    );
    assert_eq!(s.pos(), Vec3::new(1, 2, 3));
    assert_eq!(s.radius(), 4);
    assert_eq!(s.object_id(), ObjectID { val: 5 });
}

#[test]
fn standalone_solver_returns_the_near_point() {
    let s = sphere_at(0, 0, 0, SCALE, 2);
    let r = forward_ray();
    assert_eq!(intersect_sphere(&r, &s), Some(Vec3::new(0, -SCALE, 0)));
    // The centre behind the origin: no hit.
    let away = Ray { dir: Vec3::new(0, -SCALE, 0), ..r };
    assert_eq!(intersect_sphere(&away, &s), None);
}

#[test]
fn raycast_honours_portal_displacement() {
    let offset = Vec3::new(0, 0, -4 * SCALE);
    let a = Sphere {
        pos: Vec3::new(0, 10 * SCALE, 0),
        radius: SCALE,
        material: Material {
            color: Col::black(),
            metallic: 0,
            roughness: SCALE,
            emission_color: Col::white(),
            emission_intensity: SCALE,
            wormhole_params: WormholeParams {
                is_wormhole: true,
                wormhole_offset: offset,
                other_end_object_id: ObjectID { val: 9 },
            },
        },
        object_id: ObjectID { val: 8 },
    };
    let r = Ray {
        pos: Vec3::zero(),
        dir: Vec3::new(0, SCALE, 0),
        from_wormhole: false,
        from_object_id: ObjectID { val: 0 },
    };
    // Head-on: the reported point is the hit point plus 0.96 of the
    // offset.
    let p = raycast(&vec![a], r).expect("the probe hits the portal");
    assert_eq!(p, Vec3::new(0, 9 * SCALE, -3_840_000));
}

#[test]
fn sample_variance_shrinks_with_averaging() {
    // A fully rough, non-metallic, non-emissive red sphere under a
    // uniform white sky: independent shade samples of one ray are noisy,
    // and means of four samples scatter with roughly a quarter of the
    // variance of single samples.
    let mut scene = test_scene(vec![sphere_at(0, 0, 0, SCALE, 2)]);
    scene.sky.colors = vec![Col::white(), Col::white()];
    let r = forward_ray();
    let samples: Vec<f64> = (0..256u64)
        .map(|seed| {
            let mut rng = Prng::from_seed(seed * 7919 + 1);
            let c = intersect_spheres(
                2,
                4,
                0,
                0,
                &scene,
                false,
                &scene.spheres,
                ObjectID { val: 0 },
                &r,
                &mut rng,
            );
            c.r as f64 / SCALE as f64
        })
        .collect();
    let var = |xs: &[f64]| {
        let mean = xs.iter().sum::<f64>() / xs.len() as f64;
        xs.iter().map(|x| (x - mean) * (x - mean)).sum::<f64>() / xs.len() as f64
    };
    let var_single = var(&samples);
    let means4: Vec<f64> = samples.chunks(4).map(|c| c.iter().sum::<f64>() / 4.0).collect();
    let var_mean4 = var(&means4);
    assert!(var_single > 0.0);
    assert!(2.0 * var_mean4 < var_single);
}

#[test]
fn built_scene_is_well_formed_with_a_symmetric_portal_pair() {
    let mut rng = Prng::from_seed(11);
    let scene = pathtracer::scene::initialize_scene(&mut rng);
    assert_eq!(scene.cameras.len(), 1);
    assert_eq!(scene.spheres.len(), 69);
    // Identifiers are sequential, hence unique.
    for (k, s) in scene.spheres.iter().enumerate() {
        assert_eq!(s.object_id.val as usize, k + 2);
        assert!(s.radius > 0);
    }
    // The demo camera's lens parameters are fixed.
    assert_eq!(scene.cameras[0].fov, 90 * SCALE);
    assert_eq!(scene.cameras[0].focal_length, 8 * SCALE);
    assert_eq!(scene.cameras[0].aperture_radius, 15_000);
    // The portal pair sits at (0, 0, 8) and its offset away, radius 2,
    // and stores each other's identifier and negated offsets.
    let a = &scene.spheres[5];
    let b = &scene.spheres[6];
    assert_eq!(a.pos, Vec3::new(0, 0, 8 * SCALE));
    assert_eq!(b.pos, Vec3::new(-2 * SCALE, 12 * SCALE, 2 * SCALE));
    assert_eq!(a.radius, 2 * SCALE);
    assert_eq!(b.radius, 2 * SCALE);
    assert_eq!(
        a.material.wormhole_params.wormhole_offset,
        Vec3::new(-2 * SCALE, 12 * SCALE, -6 * SCALE)
    );
    assert!(a.material.wormhole_params.is_wormhole);
    assert!(b.material.wormhole_params.is_wormhole);
    assert_eq!(a.material.wormhole_params.other_end_object_id, b.object_id);
    assert_eq!(b.material.wormhole_params.other_end_object_id, a.object_id);
    let oa = a.material.wormhole_params.wormhole_offset;
    let ob = b.material.wormhole_params.wormhole_offset;
    assert_eq!(Vec3::new(-oa.x, -oa.y, -oa.z), ob);
    // No other sphere is a portal.
    for (k, s) in scene.spheres.iter().enumerate() {
        if k != 5 && k != 6 {
            assert!(!s.material.wormhole_params.is_wormhole);
        }
    }
}

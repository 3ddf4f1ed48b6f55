//! The scene model: spheres with materials (including paired portal
//! spheres), the thin-lens camera, the sky gradient, and rays. Spec
//! functions state the well-formedness bounds that the rendering kernel
//! relies on.

use vstd::prelude::*;

use crate::helpers::{col_in_range, Col, ObjectID};
use crate::rng::Prng;
use crate::num::{DIR_MAX, POS_MAX, SCALE};
use crate::vec3::{spec_dot, vec_bounded, Vec3};

verus! {

/// Smallest accepted squared magnitude of a ray direction: half a unit,
/// squared (directions are kept near unit length).
pub const DIR_MIN_NORM2: i64 = 250_000_000_000;

/// Every renderable object of the scene exposes its placement and identity.
pub trait WorldObject: Sized {
    fn new(pos: Vec3, radius: i64, material: Material, object_id: ObjectID) -> Self;

    fn pos(&self) -> Vec3;

    fn radius(&self) -> i64;

    fn object_id(&self) -> ObjectID;
}

#[derive(Clone, Copy, Debug)]
pub struct Camera {
    pub pos: Vec3,
    /// Pitch, yaw and roll angles in scaled radians; the composed rotation
    /// matrix is maintained by the caller.
    pub rot: Vec3,
    /// Field of view in scaled degrees.
    pub fov: i64,
    /// Distance to the plane in focus, scaled.
    pub focal_length: i64,
    /// Lens radius, scaled.
    pub aperture_radius: i64,
    pub object_id: ObjectID,
}

#[derive(Clone, Copy, Debug)]
pub struct Sphere {
    pub pos: Vec3,
    pub radius: i64,
    pub material: Material,
    pub object_id: ObjectID,
}

impl WorldObject for Sphere {
    fn new(pos: Vec3, radius: i64, material: Material, object_id: ObjectID) -> (s: Sphere)
        ensures
            s == (Sphere { pos, radius, material, object_id }),
    {
        Sphere { pos, radius, material, object_id }
    }

    fn pos(&self) -> (p: Vec3)
        ensures
            p == self.pos,
    {
        self.pos
    }

    fn radius(&self) -> (r: i64)
        ensures
            r == self.radius,
    {
        self.radius
    }

    fn object_id(&self) -> (id: ObjectID)
        ensures
            id == self.object_id,
    {
        self.object_id
    }
}

#[derive(Clone, Copy, Debug)]
pub struct Light {
    pub pos: Vec3,
    pub radius: i64,
    pub material: Material,
    pub intensity: i64,
    pub object_id: ObjectID,
}

/// Two colours blended into a vertical gradient.
#[derive(Clone, Debug)]
pub struct Sky {
    pub colors: Vec<Col>,
    pub intensity: i64,
}

#[derive(Clone, Copy, Debug)]
pub struct Ray {
    pub pos: Vec3,
    pub dir: Vec3,
    /// Set on the continuation ray that leaves a portal.
    pub from_wormhole: bool,
    /// The object the ray is presumed to have just left; suppresses
    /// re-entry of the paired portal.
    pub from_object_id: ObjectID,
}

#[derive(Clone, Copy, Debug)]
pub struct WormholeParams {
    pub is_wormhole: bool,
    /// Displacement to the paired exit sphere.
    pub wormhole_offset: Vec3,
    /// Identifier of the paired sphere.
    pub other_end_object_id: ObjectID,
}

impl WormholeParams {
    /// The parameters of an ordinary, non-portal material.
    pub fn none() -> (w: WormholeParams)
        ensures
            !w.is_wormhole,
            w.wormhole_offset == (Vec3 { x: 0i64, y: 0i64, z: 0i64 }),
            w.other_end_object_id.val == 0,
    {
        WormholeParams {
            is_wormhole: false,
            wormhole_offset: Vec3 { x: 0, y: 0, z: 0 },
            other_end_object_id: ObjectID { val: 0 },
        }
    }
}

#[derive(Clone, Copy, Debug)]
pub struct Material {
    /// Base colour, each channel in `[0, SCALE]`.
    pub color: Col,
    /// `0` is a dielectric, `SCALE` a pure mirror.
    pub metallic: i64,
    /// `0` is polished, `SCALE` fully rough.
    pub roughness: i64,
    pub emission_color: Col,
    pub emission_intensity: i64,
    pub wormhole_params: WormholeParams,
}

#[derive(Clone, Debug)]
pub struct Scene {
    pub cameras: Vec<Camera>,
    pub spheres: Vec<Sphere>,
    pub sky: Sky,
}

/// The bounds every material must satisfy.
pub open spec fn material_wf(m: Material) -> bool {
    &&& col_in_range(m.color, 0, SCALE as int)
    &&& 0 <= m.metallic <= SCALE
    &&& 0 <= m.roughness <= SCALE
    &&& col_in_range(m.emission_color, 0, SCALE as int)
    &&& 0 <= m.emission_intensity <= SCALE
    &&& vec_bounded(m.wormhole_params.wormhole_offset, POS_MAX as int)
}

/// A sphere with an in-range centre, a positive radius and a well-formed
/// material.
pub open spec fn sphere_wf(s: Sphere) -> bool {
    &&& vec_bounded(s.pos, POS_MAX as int)
    &&& 0 < s.radius <= POS_MAX
    &&& material_wf(s.material)
}

/// A ray with an in-range origin and a near-unit direction.
pub open spec fn ray_wf(r: Ray) -> bool {
    &&& vec_bounded(r.pos, POS_MAX as int)
    &&& vec_bounded(r.dir, DIR_MAX as int)
    &&& spec_dot(r.dir, r.dir) >= DIR_MIN_NORM2
}

/// A camera placed inside the world bounds with in-range lens parameters.
pub open spec fn camera_wf(c: Camera) -> bool {
    &&& vec_bounded(c.pos, 0x20_0000_0000)
    &&& 0 < c.fov < 180 * SCALE
    &&& 0 <= c.focal_length <= POS_MAX
    &&& 0 <= c.aperture_radius <= SCALE
}

/// Exactly two gradient colours, both in range.
pub open spec fn sky_wf(s: Sky) -> bool {
    &&& s.colors.len() == 2
    &&& col_in_range(s.colors[0], 0, SCALE as int)
    &&& col_in_range(s.colors[1], 0, SCALE as int)
    &&& 0 <= s.intensity <= SCALE
}

/// A scene the kernel accepts: at least one camera, a well-formed sky and
/// only well-formed spheres.
pub open spec fn scene_wf(s: Scene) -> bool {
    &&& s.cameras.len() >= 1
    &&& camera_wf(s.cameras[0])
    &&& sky_wf(s.sky)
    &&& forall|i: int| 0 <= i < s.spheres.len() ==> sphere_wf(#[trigger] s.spheres[i])
}

/// Two portal spheres form a symmetric pair: each is a portal storing the
/// other's identifier, and the second's displacement is the negation of
/// the first's.
pub open spec fn wormhole_pair_wf(a: Sphere, b: Sphere) -> bool {
    &&& a.material.wormhole_params.is_wormhole
    &&& b.material.wormhole_params.is_wormhole
    &&& a.material.wormhole_params.other_end_object_id == b.object_id
    &&& b.material.wormhole_params.other_end_object_id == a.object_id
    &&& b.material.wormhole_params.wormhole_offset == (Vec3 {
        x: (-a.material.wormhole_params.wormhole_offset.x) as i64,
        y: (-a.material.wormhole_params.wormhole_offset.y) as i64,
        z: (-a.material.wormhole_params.wormhole_offset.z) as i64,
    })
}

/// The invariant every prefix of the built sphere list keeps: well-formed
/// spheres, identifiers in sequence (two past the index, after the
/// camera's), and no portal outside the fixed pair.
pub open spec fn built_spheres_wf(spheres: Seq<Sphere>) -> bool {
    &&& forall|k: int| 0 <= k < spheres.len() ==> sphere_wf(#[trigger] spheres[k])
    &&& forall|k: int| 0 <= k < spheres.len() ==> (#[trigger] spheres[k]).object_id.val == k + 2
    &&& forall|k: int|
        0 <= k < spheres.len() && k != 5 && k != 6 ==> !(#[trigger] spheres[k]).material
            .wormhole_params.is_wormhole
}

/// A matte, non-emissive material of the given colour.
fn matte(color: Col) -> (m: Material)
    requires
        col_in_range(color, 0, SCALE as int),
    ensures
        material_wf(m),
        m.color == color,
        !m.wormhole_params.is_wormhole,
    {
    Material {
        color,
        metallic: 0,
        roughness: SCALE,
        emission_color: Col::white(),
        emission_intensity: 0,
        wormhole_params: WormholeParams::none(),
    }
}

/// The demo scene: a wireframe reference sphere, three axis markers, a
/// spherical light, a symmetric portal pair, a row of metal spheres with
/// rising roughness, a polished row, and a cloud of fifty random matte or
/// mirror spheres drawn from the stream. Identifiers are handed out in
/// sequence, so they are unique.
pub fn initialize_scene(rng: &mut Prng) -> (s: Scene)
    ensures
        scene_wf(s),
        s.cameras@.len() == 1,
        s.spheres@.len() == 69,
        built_spheres_wf(s.spheres@),
        forall|j: int, k: int|
            0 <= j < s.spheres@.len() && 0 <= k < s.spheres@.len() && j != k
                ==> (#[trigger] s.spheres@[j]).object_id != (#[trigger] s.spheres@[k]).object_id,
        wormhole_pair_wf(s.spheres@[5], s.spheres@[6]),
        s.spheres@[5].pos == (Vec3 { x: 0i64, y: 0i64, z: 8_000_000i64 }),
        s.spheres@[5].radius == 2_000_000i64,
        s.spheres@[5].material.wormhole_params.wormhole_offset == (Vec3 {
            x: -2_000_000i64,
            y: 12_000_000i64,
            z: -6_000_000i64,
        }),
        s.spheres@[6].pos == (Vec3 { x: -2_000_000i64, y: 12_000_000i64, z: 2_000_000i64 }),
        s.spheres@[6].radius == 2_000_000i64,
        s.cameras@[0].pos == (Vec3 { x: 10_000_000i64, y: -10_000_000i64, z: 10_000_000i64 }),
        s.cameras@[0].fov == 90 * SCALE,
        s.cameras@[0].focal_length == 8 * SCALE,
        s.cameras@[0].aperture_radius == 15_000i64,
{
    let camera = Camera {
        pos: Vec3 { x: 10 * SCALE, y: -10 * SCALE, z: 10 * SCALE },
        rot: Vec3 { x: 0, y: 0, z: 0 },
        fov: 90 * SCALE,
        focal_length: 8 * SCALE,
        aperture_radius: 15_000,
        object_id: ObjectID { val: 1 },
    };
    let wormhole_pos = Vec3 { x: 0, y: 0, z: 8 * SCALE };
    let wormhole_offset = Vec3 { x: -2 * SCALE, y: 12 * SCALE, z: -6 * SCALE };

    let mut spheres: Vec<Sphere> = Vec::new();
    // The wireframe reference sphere.
    spheres.push(
        Sphere {
            pos: Vec3 { x: 10 * SCALE, y: 2 * SCALE, z: SCALE },
            radius: SCALE,
            material: matte(Col { r: 100_000, g: 100_000, b: 100_000 }),
            object_id: ObjectID { val: 2 },
        },
    );
    // Axis markers near the origin.
    spheres.push(
        Sphere {
            pos: Vec3 { x: 2 * SCALE, y: 0, z: 0 },
            radius: 300_000,
            material: matte(Col::red()),
            object_id: ObjectID { val: 3 },
        },
    );
    spheres.push(
        Sphere {
            pos: Vec3 { x: 0, y: 2 * SCALE, z: 0 },
            radius: 300_000,
            material: matte(Col::green()),
            object_id: ObjectID { val: 4 },
        },
    );
    spheres.push(
        Sphere {
            pos: Vec3 { x: 0, y: 0, z: 2 * SCALE },
            radius: 300_000,
            material: matte(Col { r: 100_000, g: 300_000, b: SCALE }),
            object_id: ObjectID { val: 5 },
        },
    );
    // The spherical light.
    spheres.push(
        Sphere {
            pos: Vec3 { x: -6 * SCALE, y: 0, z: 2 * SCALE },
            radius: 3 * SCALE,
            material: Material {
                color: Col::black(),
                metallic: 0,
                roughness: SCALE,
                emission_color: Col::white(),
                emission_intensity: SCALE,
                wormhole_params: WormholeParams::none(),
            },
            object_id: ObjectID { val: 6 },
        },
    );
    // The portal pair: each end stores the other's identifier and the
    // negated displacement.
    spheres.push(
        Sphere {
            pos: wormhole_pos,
            radius: 2 * SCALE,
            material: Material {
                color: Col::black(),
                metallic: 0,
                roughness: SCALE,
                emission_color: Col::white(),
                emission_intensity: SCALE,
                wormhole_params: WormholeParams {
                    is_wormhole: true,
                    wormhole_offset,
                    other_end_object_id: ObjectID { val: 8 },
                },
            },
            object_id: ObjectID { val: 7 },
        },
    );
    spheres.push(
        Sphere {
            pos: Vec3 {
                x: wormhole_pos.x + wormhole_offset.x,
                y: wormhole_pos.y + wormhole_offset.y,
                z: wormhole_pos.z + wormhole_offset.z,
            },
            radius: 2 * SCALE,
            material: Material {
                color: Col::black(),
                metallic: 0,
                roughness: SCALE,
                emission_color: Col::white(),
                emission_intensity: SCALE,
                wormhole_params: WormholeParams {
                    is_wormhole: true,
                    wormhole_offset: Vec3 {
                        x: -wormhole_offset.x,
                        y: -wormhole_offset.y,
                        z: -wormhole_offset.z,
                    },
                    other_end_object_id: ObjectID { val: 7 },
                },
            },
            object_id: ObjectID { val: 8 },
        },
    );
    proof {
        assert(built_spheres_wf(spheres@));
        assert(wormhole_pair_wf(spheres@[5], spheres@[6]));
        assert(spheres@[5].pos == (Vec3 { x: 0i64, y: 0i64, z: 8_000_000i64 }));
        assert(spheres@[6].pos == (Vec3 { x: -2_000_000i64, y: 12_000_000i64, z: 2_000_000i64 }));
    }
    // A row of metal spheres with rising roughness, then a polished row.
    let mut i: i64 = 0;
    while i < 6
        invariant
            0 <= i <= 6,
            spheres@.len() == 7 + i,
            built_spheres_wf(spheres@),
            wormhole_pair_wf(spheres@[5], spheres@[6]),
            spheres@[5].pos == (Vec3 { x: 0i64, y: 0i64, z: 8_000_000i64 }),
            spheres@[5].radius == 2_000_000i64,
            spheres@[5].material.wormhole_params.wormhole_offset == (Vec3 {
                x: -2_000_000i64,
                y: 12_000_000i64,
                z: -6_000_000i64,
            }),
            spheres@[6].pos == (Vec3 { x: -2_000_000i64, y: 12_000_000i64, z: 2_000_000i64 }),
            spheres@[6].radius == 2_000_000i64,
        decreases 6 - i,
    {
        proof {
            assert(i * i <= 25) by (nonlinear_arith)
                requires
                    0 <= i <= 5,
            ;
            crate::num::lemma_tdiv_shrinks(i * i * SCALE, 36);
            vstd::arithmetic::div_mod::lemma_div_pos_is_pos(i * i * SCALE, 36);
        }
        let rough: i64 = (i * i * SCALE) / 36;
        spheres.push(
            Sphere {
                pos: Vec3 { x: -75 * SCALE / 10 + 25 * i * SCALE / 10, y: 8 * SCALE, z: SCALE },
                radius: SCALE,
                material: Material {
                    color: Col::white(),
                    metallic: SCALE,
                    roughness: rough,
                    emission_color: Col::white(),
                    emission_intensity: 0,
                    wormhole_params: WormholeParams::none(),
                },
                object_id: ObjectID { val: 9 + i as i32 },
            },
        );
        i = i + 1;
    }
    let mut i: i64 = 0;
    while i < 6
        invariant
            0 <= i <= 6,
            spheres@.len() == 13 + i,
            built_spheres_wf(spheres@),
            wormhole_pair_wf(spheres@[5], spheres@[6]),
            spheres@[5].pos == (Vec3 { x: 0i64, y: 0i64, z: 8_000_000i64 }),
            spheres@[5].radius == 2_000_000i64,
            spheres@[5].material.wormhole_params.wormhole_offset == (Vec3 {
                x: -2_000_000i64,
                y: 12_000_000i64,
                z: -6_000_000i64,
            }),
            spheres@[6].pos == (Vec3 { x: -2_000_000i64, y: 12_000_000i64, z: 2_000_000i64 }),
            spheres@[6].radius == 2_000_000i64,
        decreases 6 - i,
    {
        spheres.push(
            Sphere {
                pos: Vec3 {
                    x: -75 * SCALE / 10 + 25 * i * SCALE / 10,
                    y: 8 * SCALE,
                    z: -2 * SCALE,
                },
                radius: SCALE,
                material: Material {
                    color: Col::white(),
                    metallic: SCALE,
                    roughness: 0,
                    emission_color: Col::white(),
                    emission_intensity: 0,
                    wormhole_params: WormholeParams::none(),
                },
                object_id: ObjectID { val: 15 + i as i32 },
            },
        );
        i = i + 1;
    }
    // A cloud of random matte and mirror spheres.
    let mut i: i64 = 0;
    while i < 50
        invariant
            0 <= i <= 50,
            spheres@.len() == 19 + i,
            built_spheres_wf(spheres@),
            wormhole_pair_wf(spheres@[5], spheres@[6]),
            spheres@[5].pos == (Vec3 { x: 0i64, y: 0i64, z: 8_000_000i64 }),
            spheres@[5].radius == 2_000_000i64,
            spheres@[5].material.wormhole_params.wormhole_offset == (Vec3 {
                x: -2_000_000i64,
                y: 12_000_000i64,
                z: -6_000_000i64,
            }),
            spheres@[6].pos == (Vec3 { x: -2_000_000i64, y: 12_000_000i64, z: 2_000_000i64 }),
            spheres@[6].radius == 2_000_000i64,
        decreases 50 - i,
    {
        let pick = rng.gen_range(0, SCALE);
        let metallic: i64 = if pick < SCALE / 2 {
            0
        } else {
            SCALE
        };
        spheres.push(
            Sphere {
                pos: Vec3 {
                    x: rng.gen_range(-5 * SCALE, 5 * SCALE),
                    y: rng.gen_range(-5 * SCALE, 5 * SCALE),
                    z: rng.gen_range(-5 * SCALE, 5 * SCALE),
                },
                radius: rng.gen_range(500_000, SCALE),
                material: Material {
                    color: Col {
                        r: rng.gen_range(0, SCALE),
                        g: rng.gen_range(0, SCALE),
                        b: rng.gen_range(0, SCALE),
                    },
                    metallic,
                    roughness: 0,
                    emission_color: Col::white(),
                    emission_intensity: 0,
                    wormhole_params: WormholeParams::none(),
                },
                object_id: ObjectID { val: 21 + i as i32 },
            },
        );
        i = i + 1;
    }
    Scene {
        cameras: vec![camera],
        spheres,
        sky: Sky {
            colors: vec![
                Col { r: 300_000, g: 600_000, b: 900_000 },
                Col { r: 900_000, g: 900_000, b: 900_000 },
            ],
            intensity: SCALE,
        },
    }
}

} // verus!

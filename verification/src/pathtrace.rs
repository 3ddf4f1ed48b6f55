//! The rendering kernel: camera ray generation, the nearest-valid-hit scan
//! over the sphere list, the recursive bounce shader with its Fresnel
//! weighting and portal traversal, and the plain raycast that the autofocus
//! probe uses.

use vstd::prelude::*;

use crate::helpers::{clamp, col_in_range, spec_clamp, Col, ObjectID};
use crate::intersect::{ray_point, spec_intersect, spec_ray_point, Intersect, HIT_T_MAX};
use crate::num::{mul_fp, tdiv, SCALE};
use crate::rng::Prng;
use crate::scene::{ray_wf, scene_wf, sphere_wf, Camera, Ray, Scene, Sphere, DIR_MIN_NORM2};
use crate::skybox::{sky_box, spec_sky};
use crate::vec3::{spec_dot, spec_normalize, spec_rotate, vec_bounded, Mat3, Vec3};

verus! {

/// Schlick reflectance at normal incidence for the fixed dielectric
/// refraction index of 1.5: `((1 - 1.5) / (1 + 1.5))^2`, scaled.
pub const FRESNEL_R0: i64 = 40_000;

/// The circle constant, scaled.
pub const PI_FP: i64 = 3_141_593;

/// Mirror reflection of `d` about the surface normal `n` (scaled near-unit
/// vectors): `d - 2 (d . n) n`, each component rounded toward zero.
pub open spec fn spec_reflect(d: Vec3, n: Vec3) -> Vec3 {
    Vec3 {
        x: (d.x - tdiv(2 * spec_dot(d, n) * n.x, SCALE as int * SCALE as int)) as i64,
        y: (d.y - tdiv(2 * spec_dot(d, n) * n.y, SCALE as int * SCALE as int)) as i64,
        z: (d.z - tdiv(2 * spec_dot(d, n) * n.z, SCALE as int * SCALE as int)) as i64,
    }
}

/// The mirror reflection direction.
pub fn reflect(d: Vec3, n: Vec3) -> (r: Vec3)
    requires
        vec_bounded(d, crate::num::DIR_MAX as int),
        vec_bounded(n, SCALE as int),
    ensures
        r == spec_reflect(d, n),
        vec_bounded(r, 0x4000_0000),
{
    proof {
        crate::vec3::lemma_dot_bound(d, n, crate::num::DIR_MAX as int, SCALE as int);
        lemma_reflect_component(d.x as int, spec_dot(d, n), n.x as int);
        lemma_reflect_component(d.y as int, spec_dot(d, n), n.y as int);
        lemma_reflect_component(d.z as int, spec_dot(d, n), n.z as int);
    }
    let dn: i128 = d.dot(n);
    let s2: i128 = (SCALE as i128) * (SCALE as i128);
    proof {
        assert((SCALE as i128) * (SCALE as i128) == SCALE as int * SCALE as int)
            by (nonlinear_arith);
    }
    Vec3 {
        x: (d.x as i128 - 2 * dn * (n.x as i128) / s2) as i64,
        y: (d.y as i128 - 2 * dn * (n.y as i128) / s2) as i64,
        z: (d.z as i128 - 2 * dn * (n.z as i128) / s2) as i64,
    }
}

/// One component of the reflection stays small: the correction term is at
/// most `2 * 3 * DIR_MAX` after rescaling.
proof fn lemma_reflect_component(dc: int, dn: int, nc: int)
    requires
        -crate::num::DIR_MAX as int <= dc <= crate::num::DIR_MAX as int,
        -3 * (crate::num::DIR_MAX as int * SCALE as int) <= dn <= 3 * (crate::num::DIR_MAX as int
            * SCALE as int),
        -SCALE as int <= nc <= SCALE as int,
    ensures
        -0x4000_0000 <= dc - tdiv(2 * dn * nc, SCALE as int * SCALE as int) <= 0x4000_0000,
        2 * dn * nc == 2 * (dn * nc),
{
    let s = SCALE as int;
    let dm = crate::num::DIR_MAX as int;
    crate::vec3::lemma_product_bound(dn, nc, 3 * (dm * s), s);
    assert(2 * (dn * nc) == 2 * dn * nc) by (nonlinear_arith);
    assert((3 * (dm * s)) * s == (3 * dm) * (s * s)) by (nonlinear_arith);
    assert(2 * dn * nc <= (6 * dm) * (s * s) && -((6 * dm) * (s * s)) <= 2 * dn * nc)
        by (nonlinear_arith)
        requires
            -((3 * dm) * (s * s)) <= dn * nc <= (3 * dm) * (s * s),
            2 * dn * nc == 2 * (dn * nc),
    ;
    assert((6 * dm) * (s * s) >= 0) by (nonlinear_arith)
        requires
            dm > 0,
            s > 0,
    ;
    crate::num::lemma_tdiv_bounded(2 * dn * nc, s * s, (6 * dm) * (s * s));
    assert(tdiv((6 * dm) * (s * s), s * s) == 6 * dm) by {
        vstd::arithmetic::div_mod::lemma_div_by_multiple(6 * dm, s * s);
        assert(s * s > 0) by (nonlinear_arith)
            requires
                s > 0,
        ;
        assert((6 * dm) * (s * s) >= 0) by (nonlinear_arith)
            requires
                dm > 0,
                s > 0,
        ;
    }
}

/// The ideal mirror reflection `r = d * |n|^2 - 2 (d . n) n` (scaled by
/// `|n|^2` to stay in integers) flips the normal component of the incident
/// direction and preserves its magnitude:
/// `r . n == -(d . n) * |n|^2` and `|r|^2 == |d|^2 * |n|^4`.
pub proof fn lemma_reflection_exact(d: Vec3, n: Vec3)
    ensures
        ({
            let nn = spec_dot(n, n);
            let dn = spec_dot(d, n);
            let rx = d.x * nn - 2 * dn * n.x;
            let ry = d.y * nn - 2 * dn * n.y;
            let rz = d.z * nn - 2 * dn * n.z;
            &&& rx * n.x + ry * n.y + rz * n.z == -(dn * nn)
            &&& rx * rx + ry * ry + rz * rz == (spec_dot(d, d) * nn) * nn
        }),
{
    let nn = spec_dot(n, n);
    let dn = spec_dot(d, n);
    let dd = spec_dot(d, d);
    let rx = d.x * nn - 2 * dn * n.x;
    let ry = d.y * nn - 2 * dn * n.y;
    let rz = d.z * nn - 2 * dn * n.z;
    assert(rx * n.x == (d.x * n.x) * nn - 2 * ((n.x * n.x) * dn)) by (nonlinear_arith)
        requires
            rx == d.x * nn - 2 * dn * n.x,
    ;
    assert(ry * n.y == (d.y * n.y) * nn - 2 * ((n.y * n.y) * dn)) by (nonlinear_arith)
        requires
            ry == d.y * nn - 2 * dn * n.y,
    ;
    assert(rz * n.z == (d.z * n.z) * nn - 2 * ((n.z * n.z) * dn)) by (nonlinear_arith)
        requires
            rz == d.z * nn - 2 * dn * n.z,
    ;
    assert((d.x * n.x) * nn + (d.y * n.y) * nn + (d.z * n.z) * nn == dn * nn) by (nonlinear_arith)
        requires
            dn == d.x * n.x + d.y * n.y + d.z * n.z,
    ;
    assert((n.x * n.x) * dn + (n.y * n.y) * dn + (n.z * n.z) * dn == nn * dn) by (nonlinear_arith)
        requires
            nn == n.x * n.x + n.y * n.y + n.z * n.z,
    ;
    assert(nn * dn == dn * nn) by (nonlinear_arith);
    assert(rx * n.x + ry * n.y + rz * n.z == -(dn * nn));
    lemma_sq_expand(d.x as int, n.x as int, dn, nn, rx);
    lemma_sq_expand(d.y as int, n.y as int, dn, nn, ry);
    lemma_sq_expand(d.z as int, n.z as int, dn, nn, rz);
    assert((d.x * d.x) * (nn * nn) + (d.y * d.y) * (nn * nn) + (d.z * d.z) * (nn * nn) == dd * (nn
        * nn)) by (nonlinear_arith)
        requires
            dd == d.x * d.x + d.y * d.y + d.z * d.z,
    ;
    assert((d.x * n.x) * (dn * nn) + (d.y * n.y) * (dn * nn) + (d.z * n.z) * (dn * nn) == dn * (dn
        * nn)) by (nonlinear_arith)
        requires
            dn == d.x * n.x + d.y * n.y + d.z * n.z,
    ;
    assert((n.x * n.x) * (dn * dn) + (n.y * n.y) * (dn * dn) + (n.z * n.z) * (dn * dn) == nn * (dn
        * dn)) by (nonlinear_arith)
        requires
            nn == n.x * n.x + n.y * n.y + n.z * n.z,
    ;
    assert(dn * (dn * nn) == nn * (dn * dn)) by (nonlinear_arith);
    assert(rx * rx + ry * ry + rz * rz == dd * (nn * nn));
    assert(dd * (nn * nn) == (dd * nn) * nn) by (nonlinear_arith);
}


/// Expansion of one squared reflection component.
proof fn lemma_sq_expand(dc: int, nc: int, dn: int, nn: int, r: int)
    requires
        r == dc * nn - 2 * dn * nc,
    ensures
        r * r == (dc * dc) * (nn * nn) - 4 * ((dc * nc) * (dn * nn)) + 4 * ((nc * nc) * (dn * dn)),
{
    let a = dc * nn;
    let b = 2 * dn * nc;
    assert(b == 2 * (dn * nc)) by (nonlinear_arith)
        requires
            b == 2 * dn * nc,
    ;
    assert(r * r == a * a - 2 * (a * b) + b * b) by (nonlinear_arith)
        requires
            r == a - b,
    ;
    assert(a * a == (dc * dc) * (nn * nn)) by (nonlinear_arith)
        requires
            a == dc * nn,
    ;
    assert(a * b == 2 * ((dc * nc) * (dn * nn))) by (nonlinear_arith)
        requires
            a == dc * nn,
            b == 2 * (dn * nc),
    ;
    assert(b * b == 4 * ((nc * nc) * (dn * dn))) by (nonlinear_arith)
        requires
            b == 2 * (dn * nc),
    ;
}

/// The Schlick Fresnel approximation for a scaled cosine of incidence:
/// `clamp(r0 + (1 - r0) * (1 - cos)^5, 0, 1)`.
pub open spec fn spec_fresnel(cos_x: int) -> int {
    let x = SCALE as int - cos_x;
    let x2 = tdiv(x * x, SCALE as int);
    let x4 = tdiv(x2 * x2, SCALE as int);
    let x5 = tdiv(x4 * x, SCALE as int);
    spec_clamp(
        FRESNEL_R0 as int + tdiv((SCALE as int - FRESNEL_R0 as int) * x5, SCALE as int),
        0,
        SCALE as int,
    )
}

/// The portal softening factor: one minus a squared-cosine variant of the
/// Fresnel term, reusing the same constants.
pub open spec fn spec_wormhole_factor(cos_x: int) -> int {
    let x = SCALE as int - cos_x;
    let x2 = tdiv(x * x, SCALE as int);
    SCALE as int - spec_clamp(
        FRESNEL_R0 as int + tdiv((SCALE as int - FRESNEL_R0 as int) * x2, SCALE as int),
        0,
        SCALE as int,
    )
}

/// Bounds for the intermediate powers in the Fresnel terms.
proof fn lemma_fresnel_bounds(cos_x: int)
    requires
        -SCALE as int <= cos_x <= SCALE as int,
    ensures
        ({
            let x = SCALE as int - cos_x;
            let x2 = tdiv(x * x, SCALE as int);
            let x4 = tdiv(x2 * x2, SCALE as int);
            let x5 = tdiv(x4 * x, SCALE as int);
            &&& 0 <= x <= 2 * SCALE as int
            &&& 0 <= x * x <= 0x4000_0000_0000_0000
            &&& 0 <= x2 <= 4 * SCALE as int
            &&& 0 <= x2 * x2 <= 0x4000_0000_0000_0000
            &&& 0 <= x4 <= 16 * SCALE as int
            &&& 0 <= x4 * x <= 0x4000_0000_0000_0000
            &&& 0 <= x5 <= 32 * SCALE as int
            &&& 0 <= (SCALE as int - FRESNEL_R0 as int) * x5 <= 0x4000_0000_0000_0000
            &&& 0 <= (SCALE as int - FRESNEL_R0 as int) * x2 <= 0x4000_0000_0000_0000
        }),
{
    let s = SCALE as int;
    let x = s - cos_x;
    assert((2 * s) * (2 * s) == 4 * (s * s)) by (nonlinear_arith);
    assert((4 * s) * (4 * s) == 16 * (s * s)) by (nonlinear_arith);
    assert((16 * s) * (2 * s) == 32 * (s * s)) by (nonlinear_arith);
    assert(s * (32 * s) == 32 * (s * s)) by (nonlinear_arith);
    assert(s * (4 * s) == 4 * (s * s)) by (nonlinear_arith);
    lemma_pow_step(x, x, 2 * s, 2 * s, 4);
    let x2 = tdiv(x * x, s);
    lemma_pow_step(x2, x2, 4 * s, 4 * s, 16);
    let x4 = tdiv(x2 * x2, s);
    lemma_pow_step(x4, x, 16 * s, 2 * s, 32);
    let x5 = tdiv(x4 * x, s);
    lemma_pow_step(s - FRESNEL_R0 as int, x5, s, 32 * s, 32);
    lemma_pow_step(s - FRESNEL_R0 as int, x2, s, 4 * s, 4);
}

/// A product of two nonnegative values bounded by small multiples of
/// `SCALE` stays in `mul_fp`'s domain, and its rescaled quotient is
/// bounded by the product of the multiples.
proof fn lemma_pow_step(a: int, b: int, ma: int, mb: int, k: int)
    requires
        0 <= a <= ma,
        0 <= b <= mb,
        ma * mb <= k * (SCALE as int * SCALE as int),
        0 <= k <= 64,
    ensures
        0 <= a * b <= 0x4000_0000_0000_0000,
        0 <= tdiv(a * b, SCALE as int) <= k * SCALE as int,
{
    let s = SCALE as int;
    crate::vec3::lemma_product_bound(a, b, ma, mb);
    assert(a * b >= 0) by (nonlinear_arith)
        requires
            a >= 0,
            b >= 0,
    ;
    assert(k * (s * s) <= 64 * (s * s)) by (nonlinear_arith)
        requires
            k <= 64,
            s > 0,
    ;
    assert(64 * (s * s) <= 0x4000_0000_0000_0000) by {
        lemma_sixtyfour_scale();
    }
    crate::num::lemma_tdiv_bounded(a * b, s, k * (s * s));
    assert(tdiv(k * (s * s), s) == k * s) by {
        assert(k * (s * s) == (k * s) * s) by (nonlinear_arith);
        assert(k * s >= 0) by (nonlinear_arith)
            requires
                k >= 0,
                s > 0,
        ;
        vstd::arithmetic::div_mod::lemma_div_by_multiple(k * s, s);
    }
}

/// `64 * SCALE^2` fits comfortably under `2^62`.
proof fn lemma_sixtyfour_scale()
    ensures
        64 * (SCALE as int * SCALE as int) <= 0x4000_0000_0000_0000,
{
    assert(SCALE as int * SCALE as int == 1_000_000_000_000) by (nonlinear_arith)
        requires
            SCALE == 1_000_000,
    ;
}

/// The Schlick Fresnel term; always within `[0, SCALE]`, whatever the
/// incidence angle.
pub fn fresnel(cos_x: i64) -> (f: i64)
    requires
        -SCALE as int <= cos_x <= SCALE as int,
    ensures
        f == spec_fresnel(cos_x as int),
        0 <= f <= SCALE,
{
    proof {
        lemma_fresnel_bounds(cos_x as int);
    }
    let x: i64 = SCALE - cos_x;
    let x2: i64 = mul_fp(x, x);
    let x4: i64 = mul_fp(x2, x2);
    let x5: i64 = mul_fp(x4, x);
    clamp(FRESNEL_R0 + mul_fp(SCALE - FRESNEL_R0, x5), 0, SCALE)
}

/// The portal softening factor; always within `[0, SCALE]`.
pub fn wormhole_factor(cos_x: i64) -> (f: i64)
    requires
        -SCALE as int <= cos_x <= SCALE as int,
    ensures
        f == spec_wormhole_factor(cos_x as int),
        0 <= f <= SCALE,
{
    proof {
        lemma_fresnel_bounds(cos_x as int);
    }
    let x: i64 = SCALE - cos_x;
    let x2: i64 = mul_fp(x, x);
    SCALE - clamp(FRESNEL_R0 + mul_fp(SCALE - FRESNEL_R0, x2), 0, SCALE)
}

/// The continuation ray as a spec value.
pub open spec fn spec_wormhole_continuation(ray: Ray, hit: Vec3, sphere: Sphere, factor: int) -> Ray {
    let off = sphere.material.wormhole_params.wormhole_offset;
    Ray {
        pos: Vec3 {
            x: (hit.x + tdiv(off.x * factor, SCALE as int)) as i64,
            y: (hit.y + tdiv(off.y * factor, SCALE as int)) as i64,
            z: (hit.z + tdiv(off.z * factor, SCALE as int)) as i64,
        },
        dir: ray.dir,
        from_wormhole: true,
        from_object_id: sphere.material.wormhole_params.other_end_object_id,
    }
}

/// The continuation ray that leaves a portal sphere: its origin is the
/// hit point displaced by the stored offset scaled with the softening
/// factor, the direction is unchanged, and the ray is marked as coming
/// out of the paired sphere.
pub fn wormhole_continuation(ray: &Ray, hit: Vec3, sphere: &Sphere, factor: i64) -> (r: Ray)
    requires
        ray_wf(*ray),
        vec_bounded(hit, 0x4_0000_0000_0000),
        sphere_wf(*sphere),
        0 <= factor <= SCALE,
    ensures
        r == spec_wormhole_continuation(*ray, hit, *sphere, factor as int),
        r.pos.x == hit.x + tdiv(sphere.material.wormhole_params.wormhole_offset.x * factor, SCALE as int),
        r.pos.y == hit.y + tdiv(sphere.material.wormhole_params.wormhole_offset.y * factor, SCALE as int),
        r.pos.z == hit.z + tdiv(sphere.material.wormhole_params.wormhole_offset.z * factor, SCALE as int),
        r.dir == ray.dir,
        r.from_wormhole,
        r.from_object_id == sphere.material.wormhole_params.other_end_object_id,
{
    let offset = sphere.material.wormhole_params.wormhole_offset;
    proof {
        lemma_offset_scale(offset.x as int, factor as int);
        lemma_offset_scale(offset.y as int, factor as int);
        lemma_offset_scale(offset.z as int, factor as int);
    }
    let shift = offset.scale(factor);
    Ray {
        pos: hit.add(shift),
        dir: ray.dir,
        from_wormhole: true,
        from_object_id: sphere.material.wormhole_params.other_end_object_id,
    }
}

/// An offset component scaled by a factor in `[0, SCALE]` keeps its
/// magnitude bound.
proof fn lemma_offset_scale(c: int, factor: int)
    requires
        -crate::num::POS_MAX as int <= c <= crate::num::POS_MAX as int,
        0 <= factor <= SCALE as int,
    ensures
        -0x4000_0000_0000_0000 <= c * factor <= 0x4000_0000_0000_0000,
        -crate::num::POS_MAX as int <= tdiv(c * factor, SCALE as int) <= crate::num::POS_MAX as int,
{
    let p = crate::num::POS_MAX as int;
    let s = SCALE as int;
    crate::vec3::lemma_product_bound(c, factor, p, s);
    assert(p * s <= 0x4000_0000_0000_0000) by (nonlinear_arith)
        requires
            p == 0x40_0000_0000,
            s == 1_000_000,
    ;
    crate::num::lemma_tdiv_bounded(c * factor, s, p * s);
    assert(tdiv(p * s, s) == p) by {
        vstd::arithmetic::div_mod::lemma_div_by_multiple(p, s);
        assert(p * s >= 0) by (nonlinear_arith)
            requires
                p > 0,
                s > 0,
        ;
    }
}


/// Whether the scan must ignore a sphere for this ray: a portal sphere is
/// skipped when the ray just left its paired end, an ordinary sphere when
/// it is the excluded (just-bounced) object.
pub open spec fn spec_skip(s: Sphere, ray: Ray, exclude: ObjectID) -> bool {
    if s.material.wormhole_params.is_wormhole {
        ray.from_wormhole && s.object_id == ray.from_object_id
    } else {
        s.object_id == exclude
    }
}

/// The nearest valid hit among the first `n` spheres: the smallest hit
/// distance, ties resolved to the earliest sphere in the list.
pub open spec fn spec_closest_upto(
    spheres: Seq<Sphere>,
    ray: Ray,
    exclude: ObjectID,
    n: int,
) -> Option<(int, i64)>
    decreases n,
{
    if n <= 0 {
        None
    } else {
        let prev = spec_closest_upto(spheres, ray, exclude, n - 1);
        let cur = if spec_skip(spheres[n - 1], ray, exclude) {
            None
        } else {
            spec_intersect(spheres[n - 1], ray)
        };
        match cur {
            Option::None => prev,
            Option::Some(t) => match prev {
                Option::None => Some((n - 1, t)),
                Option::Some(p) => if t < p.1 {
                    Some((n - 1, t))
                } else {
                    Some(p)
                },
            },
        }
    }
}

/// The nearest valid hit over the whole sphere list.
pub open spec fn spec_closest_hit(spheres: Seq<Sphere>, ray: Ray, exclude: ObjectID) -> Option<
    (int, i64),
> {
    spec_closest_upto(spheres, ray, exclude, spheres.len() as int)
}

/// Scans every sphere, skipping the excluded object and the portal end the
/// ray came out of, and returns the index and distance of the nearest
/// valid hit.
pub fn closest_hit(spheres: &Vec<Sphere>, ray: &Ray, exclude: ObjectID) -> (res: Option<
    (usize, i64),
>)
    requires
        forall|i: int| 0 <= i < spheres@.len() ==> sphere_wf(#[trigger] spheres@[i]),
        ray_wf(*ray),
    ensures
        ({
            let m = spec_closest_hit(spheres@, *ray, exclude);
            match res {
                Option::None => m is None,
                Option::Some((i, t)) => m == Some((i as int, t)) && i < spheres@.len(),
            }
        }),
{
    let mut best: Option<(usize, i64)> = None;
    let n = spheres.len();
    for i in 0..n
        invariant
            n == spheres@.len(),
            forall|j: int| 0 <= j < spheres@.len() ==> sphere_wf(#[trigger] spheres@[j]),
            ray_wf(*ray),
            ({
                let m = spec_closest_upto(spheres@, *ray, exclude, i as int);
                match best {
                    Option::None => m is None,
                    Option::Some((bi, bt)) => m == Some((bi as int, bt)) && bi < spheres@.len(),
                }
            }),
    {
        let s = spheres[i];
        let skip: bool = if s.material.wormhole_params.is_wormhole {
            ray.from_wormhole && s.object_id == ray.from_object_id
        } else {
            s.object_id == exclude
        };
        let cur: Option<i64> = if skip {
            None
        } else {
            s.intersect(ray)
        };
        match cur {
            Option::Some(t) => {
                match best {
                    Option::None => {
                        best = Some((i, t));
                    },
                    Option::Some((bi, bt)) => {
                        if t < bt {
                            best = Some((i, t));
                        }
                    },
                }
            },
            Option::None => {},
        }
    }
    best
}


/// Checks the ray well-formedness bounds at run time.
pub fn ray_ok(r: &Ray) -> (b: bool)
    ensures
        b == ray_wf(*r),
{
    let p = crate::num::POS_MAX;
    let d = crate::num::DIR_MAX;
    if r.pos.x < -p || r.pos.x > p || r.pos.y < -p || r.pos.y > p || r.pos.z < -p || r.pos.z > p {
        return false;
    }
    if r.dir.x < -d || r.dir.x > d || r.dir.y < -d || r.dir.y > d || r.dir.z < -d || r.dir.z > d {
        return false;
    }
    let nn: i128 = r.dir.dot(r.dir);
    nn >= DIR_MIN_NORM2 as i128
}

/// What `make_bounce_ray` returns: nothing exactly when the direction is
/// zero, the point lies outside the world bounds, or the normalised
/// direction collapses below the near-unit floor; otherwise the
/// normalised bounce ray.
pub open spec fn spec_make_bounce_ray(pos: Vec3, dir: Vec3) -> Option<Ray> {
    if dir.x == 0 && dir.y == 0 && dir.z == 0 {
        None
    } else if !vec_bounded(pos, crate::num::POS_MAX as int) {
        None
    } else {
        let n = spec_normalize(dir);
        if spec_dot(n, n) < DIR_MIN_NORM2 {
            None
        } else {
            Some(Ray { pos, dir: n, from_wormhole: false, from_object_id: ObjectID { val: 0i32 } })
        }
    }
}

/// Builds a well-formed bounce ray from a surface point and an
/// un-normalised direction, or reports that the pieces are out of range
/// (a zero direction, a point outside the world bounds, or a direction
/// that collapses under normalisation).
pub fn make_bounce_ray(pos: Vec3, dir: Vec3) -> (res: Option<Ray>)
    requires
        vec_bounded(pos, 0x4_0000_0000_0000),
        vec_bounded(dir, 0x8000_0000),
    ensures
        res == spec_make_bounce_ray(pos, dir),
        res matches Some(r) ==> ray_wf(r) && r.pos == pos && r.dir == spec_normalize(dir)
            && !r.from_wormhole && r.from_object_id == (ObjectID { val: 0i32 }),
{
    if dir.x == 0 && dir.y == 0 && dir.z == 0 {
        return None;
    }
    let p = crate::num::POS_MAX;
    if pos.x < -p || pos.x > p || pos.y < -p || pos.y > p || pos.z < -p || pos.z > p {
        return None;
    }
    let n = dir.normalize();
    let nn: i128 = n.dot(n);
    if nn < DIR_MIN_NORM2 as i128 {
        return None;
    }
    Some(Ray { pos, dir: n, from_wormhole: false, from_object_id: ObjectID { val: 0 } })
}

/// Upper bound on every radiance channel a shade call can return: one
/// channel unit per remaining bounce for the emission picked up along the
/// way, plus the backdrop and one unit of slack.
pub open spec fn spec_rad_bound(max_bounces: int, bounce_count: int) -> int {
    ((if max_bounces >= bounce_count {
        max_bounces - bounce_count
    } else {
        0
    }) + 2) * SCALE
}

/// One recursion step tightens the radiance bound by exactly one channel
/// unit, and the bounds stay within the fixed overall cap.
proof fn lemma_rad_bound_step(mb: int, bc: int)
    requires
        0 <= bc < mb <= 64,
    ensures
        spec_rad_bound(mb, bc + 1) + SCALE == spec_rad_bound(mb, bc),
        2 * SCALE as int <= spec_rad_bound(mb, bc + 1),
        spec_rad_bound(mb, bc) <= 66 * SCALE as int,
{
    let k1 = mb - bc + 1;
    let k0 = mb - bc + 2;
    assert(k1 * SCALE + SCALE == k0 * SCALE && 2 * SCALE as int <= k1 * SCALE && k0 * SCALE <= 66
        * SCALE as int) by (nonlinear_arith)
        requires
            k1 == mb - bc + 1,
            k0 == mb - bc + 2,
            0 <= bc < mb <= 64,
            SCALE == 1_000_000,
    ;
}

/// The radiance bound is at least two channel units.
proof fn lemma_rad_bound_min(mb: int, bc: int)
    ensures
        2 * SCALE as int <= spec_rad_bound(mb, bc),
        spec_rad_bound(mb, bc) >= 0,
{
    let k = (if mb >= bc {
        mb - bc
    } else {
        0
    }) + 2;
    assert(2 * SCALE as int <= k * SCALE) by (nonlinear_arith)
        requires
            k >= 2,
            SCALE == 1_000_000,
    ;
}

/// Tinting: a channel in `[0, m]` scaled by a factor in `[0, SCALE]`
/// stays in `[0, m]`.
proof fn lemma_tint_bound(a: int, c: int, m: int)
    requires
        0 <= a <= m,
        0 <= c <= SCALE as int,
        m <= 0x400_0000_0000,
    ensures
        0 <= a * c <= 0x4000_0000_0000_0000,
        0 <= tdiv(a * c, SCALE as int) <= m,
{
    let s = SCALE as int;
    crate::vec3::lemma_product_bound(a, c, m, s);
    assert(a * c >= 0) by (nonlinear_arith)
        requires
            a >= 0,
            c >= 0,
    ;
    assert(m * s <= 0x4000_0000_0000_0000) by (nonlinear_arith)
        requires
            0 <= m <= 0x400_0000_0000,
            s == 1_000_000,
    ;
    crate::num::lemma_tdiv_bounded(a * c, s, m * s);
    assert(tdiv(m * s, s) == m) by {
        vstd::arithmetic::div_mod::lemma_div_by_multiple(m, s);
        assert(m * s >= 0) by (nonlinear_arith)
            requires
                m >= 0,
                s > 0,
        ;
    }
}

/// Blending: two channels in `[0, m]` combined with complementary factors
/// stay in `[0, m]`.
proof fn lemma_blend_bound(a: int, b: int, mix: int, m: int)
    requires
        0 <= mix <= SCALE as int,
        0 <= a <= m,
        0 <= b <= m,
        m <= 0x400_0000_0000,
    ensures
        0 <= a * mix <= 0x4000_0000_0000_0000,
        0 <= b * (SCALE as int - mix) <= 0x4000_0000_0000_0000,
        0 <= tdiv(a * mix, SCALE as int) + tdiv(b * (SCALE as int - mix), SCALE as int) <= m,
{
    let s = SCALE as int;
    let x = a * mix;
    let y = b * (s - mix);
    lemma_tint_bound(a, mix, m);
    lemma_tint_bound(b, s - mix, m);
    assert(x + y <= m * s) by (nonlinear_arith)
        requires
            0 <= mix <= s,
            0 <= a <= m,
            0 <= b <= m,
            x == a * mix,
            y == b * (s - mix),
    ;
    vstd::arithmetic::div_mod::lemma_fundamental_div_mod(x, s);
    vstd::arithmetic::div_mod::lemma_fundamental_div_mod(y, s);
    assert(x / s + y / s <= (x + y) / s) by {
        let q = x / s + y / s;
        assert(x + y == s * q + (x % s + y % s));
        assert(0 <= x % s + y % s) by {
            vstd::arithmetic::div_mod::lemma_mod_division_less_than_divisor(x, s);
            vstd::arithmetic::div_mod::lemma_mod_division_less_than_divisor(y, s);
        }
        vstd::arithmetic::div_mod::lemma_div_is_ordered(s * q, x + y, s);
        vstd::arithmetic::div_mod::lemma_div_by_multiple(q, s);
        assert(q * s == s * q) by (nonlinear_arith);
    }
    assert((x + y) / s <= (m * s) / s) by {
        vstd::arithmetic::div_mod::lemma_div_is_ordered(x + y, m * s, s);
    }
    assert((m * s) / s == m) by {
        vstd::arithmetic::div_mod::lemma_div_by_multiple(m, s);
        assert(m * s >= 0) by (nonlinear_arith)
            requires
                m >= 0,
                s > 0,
        ;
    }
}

/// The grey level that the depth visualisation assigns to a hit at scaled
/// distance `t`: `1 - 1 / (t + 1)`, clamped.
pub open spec fn spec_depth_col(t: int) -> Col {
    let g = spec_clamp(
        SCALE as int - tdiv(SCALE as int * SCALE as int, t + SCALE as int),
        0,
        SCALE as int,
    ) as i64;
    Col { r: g, g: g, b: g }
}

/// What the depth pass shows for one ray.
pub open spec fn spec_depth_result(
    scene: Scene,
    ray: Ray,
    spheres: Seq<Sphere>,
    exclude: ObjectID,
    mb: int,
    bc: int,
) -> Col {
    match spec_closest_hit(spheres, ray, exclude) {
        Option::Some((i, t)) => if bc < mb {
            spec_depth_col(t as int)
        } else {
            spec_sky(scene, ray)
        },
        Option::None => spec_sky(scene, ray),
    }
}

/// The depth-pass grey for one hit distance.
fn depth_gray(t: i64) -> (c: Col)
    requires
        0 <= t <= HIT_T_MAX,
    ensures
        c == spec_depth_col(t as int),
        col_in_range(c, 0, SCALE as int),
{
    proof {
        crate::num::lemma_tdiv_shrinks(SCALE as int * SCALE as int, t + SCALE as int);
        assert(SCALE as int * SCALE as int == 1_000_000_000_000) by (nonlinear_arith)
            requires
                SCALE == 1_000_000,
        ;
    }
    let g: i64 = clamp(SCALE - (SCALE * SCALE) / (t + SCALE), 0, SCALE);
    Col { r: g, g: g, b: g }
}

/// Every entry of the nearest-hit scan's result is a real, in-range hit
/// on a sphere of the list that the scan was allowed to test.
proof fn lemma_closest_hit_props(spheres: Seq<Sphere>, ray: Ray, exclude: ObjectID, n: int)
    requires
        0 <= n <= spheres.len(),
    ensures
        spec_closest_upto(spheres, ray, exclude, n) matches Some((i, t)) ==> 0 <= i < n
            && spec_intersect(spheres[i], ray) == Some(t) && !spec_skip(spheres[i], ray, exclude),
    decreases n,
{
    if n > 0 {
        lemma_closest_hit_props(spheres, ray, exclude, n - 1);
    }
}


/// Channel-wise fixed-point tint as a spec value.
pub open spec fn spec_col_tint(a: Col, b: Col) -> Col {
    Col {
        r: tdiv(a.r * b.r, SCALE as int) as i64,
        g: tdiv(a.g * b.g, SCALE as int) as i64,
        b: tdiv(a.b * b.b, SCALE as int) as i64,
    }
}

/// Channel-wise fixed-point scaling as a spec value.
pub open spec fn spec_col_scale(c: Col, k: int) -> Col {
    Col {
        r: tdiv(c.r * k, SCALE as int) as i64,
        g: tdiv(c.g * k, SCALE as int) as i64,
        b: tdiv(c.b * k, SCALE as int) as i64,
    }
}

/// Channel-wise sum as a spec value.
pub open spec fn spec_col_add(a: Col, b: Col) -> Col {
    Col { r: (a.r + b.r) as i64, g: (a.g + b.g) as i64, b: (a.b + b.b) as i64 }
}

/// The complete model of one shade call: the returned colour and the
/// sampler state after the call, as a function of the arguments and the
/// starting state alone. It mirrors the bounce rules exactly: the depth
/// pass shows the nearest hit's grey; an exhausted budget or a miss gives
/// the backdrop; a portal hit recurses once along the continuation ray
/// with the wormhole budget spent; a partly metallic hit recurses along
/// the blended specular and the diffuse directions and combines them by
/// the Fresnel term, the emission and the metallic mix; a full mirror
/// recurses once and tints by the colour. Degenerate geometry (a hit at
/// the centre, a continuation or bounce ray out of range) contributes the
/// backdrop or nothing.
pub open spec fn spec_shade(
    mb: int,
    mwb: int,
    bc: int,
    wc: int,
    scene: Scene,
    depth_pass: bool,
    spheres: Seq<Sphere>,
    exclude: ObjectID,
    ray: Ray,
    s0: u64,
) -> (Col, u64)
    decreases mb - bc, mwb - wc,
{
    let sky = spec_sky(scene, ray);
    if depth_pass {
        (spec_depth_result(scene, ray, spheres, exclude, mb, bc), s0)
    } else if bc >= mb || wc >= mwb {
        (sky, s0)
    } else {
        match spec_closest_hit(spheres, ray, exclude) {
            Option::None => (sky, s0),
            Option::Some((i, t)) => {
                let sphere = spheres[i];
                let bp = spec_ray_point(ray, t as int);
                let n0 = bp.sub_spec(sphere.pos);
                if n0.x == 0 && n0.y == 0 && n0.z == 0 {
                    (sky, s0)
                } else {
                    let nrm = spec_normalize(n0);
                    let cos = spec_clamp(
                        tdiv(-spec_dot(nrm, ray.dir), SCALE as int),
                        -SCALE as int,
                        SCALE as int,
                    );
                    let rough = sphere.material.roughness as int;
                    let spec0 = spec_reflect(ray.dir, nrm);
                    let fres = spec_fresnel(cos);
                    let jx = spec_rand_pi(s0);
                    let s1 = crate::rng::spec_next_state(s0);
                    let jy = spec_rand_pi(s1);
                    let s2 = crate::rng::spec_next_state(s1);
                    let jz = spec_rand_pi(s2);
                    let s3 = crate::rng::spec_next_state(s2);
                    let diffuse = Vec3 {
                        x: (nrm.x + jx) as i64,
                        y: (nrm.y + jy) as i64,
                        z: (nrm.z + jz) as i64,
                    };
                    let specular = Vec3 {
                        x: (tdiv(diffuse.x * rough, SCALE as int) + tdiv(
                            spec0.x * (SCALE - rough),
                            SCALE as int,
                        )) as i64,
                        y: (tdiv(diffuse.y * rough, SCALE as int) + tdiv(
                            spec0.y * (SCALE - rough),
                            SCALE as int,
                        )) as i64,
                        z: (tdiv(diffuse.z * rough, SCALE as int) + tdiv(
                            spec0.z * (SCALE - rough),
                            SCALE as int,
                        )) as i64,
                    };
                    if sphere.material.wormhole_params.is_wormhole {
                        let factor = spec_wormhole_factor(cos);
                        let cont = spec_wormhole_continuation(ray, bp, sphere, factor);
                        if ray_wf(cont) {
                            spec_shade(
                                mb,
                                mwb,
                                bc,
                                wc + 1,
                                scene,
                                false,
                                spheres,
                                sphere.object_id,
                                cont,
                                s3,
                            )
                        } else {
                            (sky, s3)
                        }
                    } else if sphere.material.metallic < SCALE {
                        let spec_branch = match spec_make_bounce_ray(bp, specular) {
                            Option::Some(r2) => spec_shade(
                                mb,
                                mwb,
                                bc + 1,
                                wc,
                                scene,
                                false,
                                spheres,
                                sphere.object_id,
                                r2,
                                s3,
                            ),
                            Option::None => (Col { r: 0i64, g: 0i64, b: 0i64 }, s3),
                        };
                        let diff_branch = match spec_make_bounce_ray(bp, diffuse) {
                            Option::Some(r2) => spec_shade(
                                mb,
                                mwb,
                                bc + 1,
                                wc,
                                scene,
                                false,
                                spheres,
                                sphere.object_id,
                                r2,
                                spec_branch.1,
                            ),
                            Option::None => (Col { r: 0i64, g: 0i64, b: 0i64 }, spec_branch.1),
                        };
                        let color = sphere.material.color;
                        let diff_col = spec_col_tint(diff_branch.0, color);
                        let emission = spec_col_scale(
                            sphere.material.emission_color,
                            sphere.material.emission_intensity as int,
                        );
                        let dielectric = spec_col_add(
                            spec_col_add(
                                spec_col_scale(spec_branch.0, fres),
                                spec_col_scale(diff_col, SCALE as int - fres),
                            ),
                            emission,
                        );
                        let tinted = spec_col_tint(spec_branch.0, color);
                        let met = sphere.material.metallic as int;
                        (
                            spec_col_add(
                                spec_col_scale(dielectric, SCALE as int - met),
                                spec_col_scale(tinted, met),
                            ),
                            diff_branch.1,
                        )
                    } else {
                        let spec_branch = match spec_make_bounce_ray(bp, specular) {
                            Option::Some(r2) => spec_shade(
                                mb,
                                mwb,
                                bc + 1,
                                wc,
                                scene,
                                false,
                                spheres,
                                sphere.object_id,
                                r2,
                                s3,
                            ),
                            Option::None => (Col { r: 0i64, g: 0i64, b: 0i64 }, s3),
                        };
                        (spec_col_tint(spec_branch.0, sphere.material.color), spec_branch.1)
                    }
                }
            },
        }
    }
}

/// A spent bounce budget truncates the sample to exactly the backdrop,
/// whatever the scene holds.
pub proof fn lemma_shade_budget_exhausted(
    mb: int,
    mwb: int,
    bc: int,
    wc: int,
    scene: Scene,
    spheres: Seq<Sphere>,
    exclude: ObjectID,
    ray: Ray,
    s0: u64,
)
    requires
        bc >= mb || wc >= mwb,
    ensures
        spec_shade(mb, mwb, bc, wc, scene, false, spheres, exclude, ray, s0).0 == spec_sky(
            scene,
            ray,
        ),
        spec_shade(mb, mwb, bc, wc, scene, false, spheres, exclude, ray, s0).1 == s0,
{
}

/// A ray that hits nothing valid returns exactly the backdrop.
pub proof fn lemma_shade_miss(
    mb: int,
    mwb: int,
    bc: int,
    wc: int,
    scene: Scene,
    spheres: Seq<Sphere>,
    exclude: ObjectID,
    ray: Ray,
    s0: u64,
)
    requires
        spec_closest_hit(spheres, ray, exclude) is None,
    ensures
        spec_shade(mb, mwb, bc, wc, scene, false, spheres, exclude, ray, s0).0 == spec_sky(
            scene,
            ray,
        ),
{
}

/// The depth pass shows exactly the nearest hit's grey level, or the
/// backdrop.
pub proof fn lemma_shade_depth(
    mb: int,
    mwb: int,
    bc: int,
    wc: int,
    scene: Scene,
    spheres: Seq<Sphere>,
    exclude: ObjectID,
    ray: Ray,
    s0: u64,
)
    ensures
        spec_shade(mb, mwb, bc, wc, scene, true, spheres, exclude, ray, s0).0
            == spec_depth_result(scene, ray, spheres, exclude, mb, bc),
        spec_shade(mb, mwb, bc, wc, scene, true, spheres, exclude, ray, s0).1 == s0,
{
}

/// One radiance sample for one ray: scans for the nearest valid hit,
/// returns the backdrop when nothing is hit or a bounce budget is spent,
/// and otherwise recurses along the portal continuation, or along the
/// specular and diffuse bounce directions blended by the Fresnel term and
/// the material's metallic weight. The depth pass instead shows a grey
/// level for the nearest hit distance.
#[verifier::rlimit(100)]
#[verifier::spinoff_prover]
pub fn intersect_spheres(
    max_bounces: i32,
    max_wormhole_bounces: i32,
    bounce_count: i32,
    wormhole_bounce_count: i32,
    scene: &Scene,
    depth_pass: bool,
    spheres: &Vec<Sphere>,
    from_object_id: ObjectID,
    ray: &Ray,
    rng: &mut Prng,
) -> (col: Col)
    requires
        scene_wf(*scene),
        spheres@ == scene.spheres@,
        ray_wf(*ray),
        0 <= bounce_count,
        0 <= wormhole_bounce_count,
        0 <= max_bounces <= 64,
        0 <= max_wormhole_bounces <= 64,
    ensures
        col_in_range(col, 0, spec_rad_bound(max_bounces as int, bounce_count as int)),
        ({
            let m = spec_shade(
                max_bounces as int,
                max_wormhole_bounces as int,
                bounce_count as int,
                wormhole_bounce_count as int,
                *scene,
                depth_pass,
                spheres@,
                from_object_id,
                *ray,
                old(rng).state,
            );
            col == m.0 && final(rng).state == m.1
        }),
    decreases max_bounces - bounce_count, max_wormhole_bounces - wormhole_bounce_count,
{
    proof {
        lemma_rad_bound_min(max_bounces as int, bounce_count as int);
    }
    let mut col = sky_box(scene, ray);
    let closest = closest_hit(spheres, ray, from_object_id);
    proof {
        lemma_closest_hit_props(spheres@, *ray, from_object_id, spheres@.len() as int);
    }
    if depth_pass {
        if bounce_count < max_bounces {
            if let Some((i, t)) = closest {
                proof {
                    crate::intersect::lemma_intersect_some_range(spheres@[i as int], *ray);
                }
                col = depth_gray(t);
            }
        }
        return col;
    }
    let should_terminate = bounce_count >= max_bounces || wormhole_bounce_count
        >= max_wormhole_bounces;
    if should_terminate {
        return col;
    }
    if let Some((i, t)) = closest {
        let bounce_sphere = spheres[i];
        proof {
            assert(sphere_wf(spheres@[i as int]));
            crate::intersect::lemma_intersect_some_range(spheres@[i as int], *ray);
        }
        let bounce_point = ray_point(ray, t);
        let n0 = bounce_point.sub(bounce_sphere.pos);
        if n0.x == 0 && n0.y == 0 && n0.z == 0 {
            // A degenerate hit exactly at the centre leaves no usable
            // normal; the sample falls back to the backdrop.
            return col;
        }
        let nrm = n0.normalize();
        let d = ray.dir;
        let dp: i128 = nrm.dot(d);
        proof {
            crate::vec3::lemma_dot_bound(nrm, d, SCALE as int, crate::num::DIR_MAX as int);
            crate::num::lemma_tdiv_shrinks(-spec_dot(nrm, d), SCALE as int);
            crate::num::lemma_tdiv_shrinks(spec_dot(nrm, d), SCALE as int);
        }
        let cos_raw: i128 = (-dp) / (SCALE as i128);
        let cos_x: i64 = clamp(cos_raw as i64, -SCALE, SCALE);
        let roughness = bounce_sphere.material.roughness;
        let metallic = bounce_sphere.material.metallic;
        let specular0 = reflect(d, nrm);
        let fres = fresnel(cos_x);
        let jx = rand_pi(rng);
        let jy = rand_pi(rng);
        let jz = rand_pi(rng);
        let diffuse = Vec3 { x: nrm.x + jx, y: nrm.y + jy, z: nrm.z + jz };
        proof {
            lemma_blend_dir(diffuse.x as int, specular0.x as int, roughness as int);
            lemma_blend_dir(diffuse.y as int, specular0.y as int, roughness as int);
            lemma_blend_dir(diffuse.z as int, specular0.z as int, roughness as int);
        }
        let specular = Vec3 {
            x: mul_fp(diffuse.x, roughness) + mul_fp(specular0.x, SCALE - roughness),
            y: mul_fp(diffuse.y, roughness) + mul_fp(specular0.y, SCALE - roughness),
            z: mul_fp(diffuse.z, roughness) + mul_fp(specular0.z, SCALE - roughness),
        };
        proof {
            lemma_rad_bound_step(max_bounces as int, bounce_count as int);
        }
        if bounce_sphere.material.wormhole_params.is_wormhole {
            let factor = wormhole_factor(cos_x);
            let new_ray = wormhole_continuation(ray, bounce_point, &bounce_sphere, factor);
            if ray_ok(&new_ray) {
                col = intersect_spheres(
                    max_bounces,
                    max_wormhole_bounces,
                    bounce_count,
                    wormhole_bounce_count + 1,
                    scene,
                    depth_pass,
                    spheres,
                    bounce_sphere.object_id,
                    &new_ray,
                    rng,
                );
            }
            // A continuation that leaves the world bounds keeps the
            // backdrop sample instead.
            return col;
        } else if metallic < SCALE {
            let ghost brec = spec_rad_bound(max_bounces as int, bounce_count as int + 1);
            // A bounce direction that degenerates contributes no energy.
            let spec_res = match make_bounce_ray(bounce_point, specular) {
                Some(r2) => intersect_spheres(
                    max_bounces,
                    max_wormhole_bounces,
                    bounce_count + 1,
                    wormhole_bounce_count,
                    scene,
                    depth_pass,
                    spheres,
                    bounce_sphere.object_id,
                    &r2,
                    rng,
                ),
                None => Col::black(),
            };
            let diff_res = match make_bounce_ray(bounce_point, diffuse) {
                Some(r2) => intersect_spheres(
                    max_bounces,
                    max_wormhole_bounces,
                    bounce_count + 1,
                    wormhole_bounce_count,
                    scene,
                    depth_pass,
                    spheres,
                    bounce_sphere.object_id,
                    &r2,
                    rng,
                ),
                None => Col::black(),
            };
            let color = bounce_sphere.material.color;
            proof {
                lemma_tint_bound(diff_res.r as int, color.r as int, brec);
                lemma_tint_bound(diff_res.g as int, color.g as int, brec);
                lemma_tint_bound(diff_res.b as int, color.b as int, brec);
            }
            let diff_col = diff_res.mul(color);
            proof {
                lemma_tint_bound(
                    bounce_sphere.material.emission_color.r as int,
                    bounce_sphere.material.emission_intensity as int,
                    SCALE as int,
                );
                lemma_tint_bound(
                    bounce_sphere.material.emission_color.g as int,
                    bounce_sphere.material.emission_intensity as int,
                    SCALE as int,
                );
                lemma_tint_bound(
                    bounce_sphere.material.emission_color.b as int,
                    bounce_sphere.material.emission_intensity as int,
                    SCALE as int,
                );
            }
            let emission = bounce_sphere.material.emission_color.scale(
                bounce_sphere.material.emission_intensity,
            );
            proof {
                lemma_blend_bound(spec_res.r as int, diff_col.r as int, fres as int, brec);
                lemma_blend_bound(spec_res.g as int, diff_col.g as int, fres as int, brec);
                lemma_blend_bound(spec_res.b as int, diff_col.b as int, fres as int, brec);
            }
            let dielectric = spec_res.scale(fres).add(diff_col.scale(SCALE - fres)).add(emission);
            proof {
                lemma_tint_bound(spec_res.r as int, color.r as int, brec);
                lemma_tint_bound(spec_res.g as int, color.g as int, brec);
                lemma_tint_bound(spec_res.b as int, color.b as int, brec);
            }
            let tinted = spec_res.mul(color);
            let ghost b0 = spec_rad_bound(max_bounces as int, bounce_count as int);
            proof {
                lemma_blend_bound(tinted.r as int, dielectric.r as int, metallic as int, b0);
                lemma_blend_bound(tinted.g as int, dielectric.g as int, metallic as int, b0);
                lemma_blend_bound(tinted.b as int, dielectric.b as int, metallic as int, b0);
            }
            col = dielectric.scale(SCALE - metallic).add(tinted.scale(metallic));
            return col;
        } else {
            let ghost brec = spec_rad_bound(max_bounces as int, bounce_count as int + 1);
            let spec_res = match make_bounce_ray(bounce_point, specular) {
                Some(r2) => intersect_spheres(
                    max_bounces,
                    max_wormhole_bounces,
                    bounce_count + 1,
                    wormhole_bounce_count,
                    scene,
                    depth_pass,
                    spheres,
                    bounce_sphere.object_id,
                    &r2,
                    rng,
                ),
                None => Col::black(),
            };
            let color = bounce_sphere.material.color;
            proof {
                lemma_tint_bound(spec_res.r as int, color.r as int, brec);
                lemma_tint_bound(spec_res.g as int, color.g as int, brec);
                lemma_tint_bound(spec_res.b as int, color.b as int, brec);
            }
            col = spec_res.mul(color);
            return col;
        }
    }
    col
}

/// The diffuse jitter value one draw yields for stream state `s`: a
/// uniform value in half a turn, centred on zero.
pub open spec fn spec_rand_pi(s: u64) -> int {
    tdiv(
        (-500_000 + crate::rng::spec_output(crate::rng::spec_next_state(s)) % 1_000_000u64)
            * PI_FP,
        SCALE as int,
    )
}

/// A uniform draw from half a turn, centred on zero: the diffuse jitter
/// of one axis.
fn rand_pi(rng: &mut Prng) -> (j: i64)
    ensures
        -1_600_000 <= j <= 1_600_000,
        j == spec_rand_pi(old(rng).state),
        final(rng).state == crate::rng::spec_next_state(old(rng).state),
{
    let u = rng.gen_range(-500_000, 500_000);
    proof {
        crate::vec3::lemma_product_bound(u as int, PI_FP as int, 500_000, PI_FP as int);
        assert(500_000 * PI_FP as int <= 0x4000_0000_0000_0000) by (nonlinear_arith)
            requires
                PI_FP == 3_141_593,
        ;
        crate::num::lemma_tdiv_bounded(u * PI_FP, SCALE as int, 500_000 * PI_FP as int);
        crate::num::lemma_tdiv_shrinks(500_000 * PI_FP as int, SCALE as int);
        assert(tdiv(500_000 * PI_FP as int, SCALE as int) <= 1_600_000) by {
            vstd::arithmetic::div_mod::lemma_div_is_ordered(
                500_000 * PI_FP as int,
                1_600_000 * SCALE as int,
                SCALE as int,
            );
            vstd::arithmetic::div_mod::lemma_div_by_multiple(1_600_000, SCALE as int);
            assert(500_000 * PI_FP as int <= 1_600_000 * SCALE as int && 1_600_000 * SCALE as int
                == SCALE as int * 1_600_000) by (nonlinear_arith)
                requires
                    PI_FP == 3_141_593,
                    SCALE == 1_000_000,
            ;
        }
    }
    mul_fp(u, PI_FP)
}

/// A blended bounce direction component stays within `2^31`.
proof fn lemma_blend_dir(dc: int, sc: int, rough: int)
    requires
        -0x400_0000 <= dc <= 0x400_0000,
        -0x4000_0000 <= sc <= 0x4000_0000,
        0 <= rough <= SCALE as int,
    ensures
        -0x4000_0000_0000_0000 <= dc * rough <= 0x4000_0000_0000_0000,
        -0x4000_0000_0000_0000 <= sc * (SCALE as int - rough) <= 0x4000_0000_0000_0000,
        -0x8000_0000 <= tdiv(dc * rough, SCALE as int) + tdiv(
            sc * (SCALE as int - rough),
            SCALE as int,
        ) <= 0x8000_0000,
{
    let s = SCALE as int;
    crate::vec3::lemma_product_bound(dc, rough, 0x400_0000, s);
    crate::vec3::lemma_product_bound(sc, s - rough, 0x4000_0000, s);
    assert(0x400_0000 * s <= 0x4000_0000_0000_0000 && 0x4000_0000 * s <= 0x4000_0000_0000_0000)
        by (nonlinear_arith)
        requires
            s == 1_000_000,
    ;
    crate::num::lemma_tdiv_bounded(dc * rough, s, 0x400_0000 * s);
    crate::num::lemma_tdiv_bounded(sc * (s - rough), s, 0x4000_0000 * s);
    assert(tdiv(0x400_0000 * s, s) == 0x400_0000) by {
        vstd::arithmetic::div_mod::lemma_div_by_multiple(0x400_0000, s);
        assert(0x400_0000 * s >= 0) by (nonlinear_arith)
            requires
                s > 0,
        ;
    }
    assert(tdiv(0x4000_0000 * s, s) == 0x4000_0000) by {
        vstd::arithmetic::div_mod::lemma_div_by_multiple(0x4000_0000, s);
        assert(0x4000_0000 * s >= 0) by (nonlinear_arith)
            requires
                s > 0,
        ;
    }
}


/// The image-plane coordinate of pixel column (or row) `p` of `extent`
/// pixels: centred on zero and scaled by the plane size over the height.
pub open spec fn spec_plane_coord(p: int, extent: int, height: int, ips: int) -> int {
    tdiv((2 * p - extent) * ips, 2 * height)
}

/// The direction a camera ray is given from the rotated plane vector
/// `rd`: its normalised copy, or straight ahead if it degenerates.
pub open spec fn spec_camera_dir(rd: Vec3) -> Vec3 {
    if rd.x == 0 && rd.y == 0 && rd.z == 0 {
        Vec3 { x: 0i64, y: SCALE as i64, z: 0i64 }
    } else {
        let n = spec_normalize(rd);
        if spec_dot(n, n) >= DIR_MIN_NORM2 {
            n
        } else {
            Vec3 { x: 0i64, y: SCALE as i64, z: 0i64 }
        }
    }
}

/// The full model of one camera ray: the pixel's centred plane
/// coordinate, shifted by the anti-aliasing jitter and thrown off-axis by
/// the lens-disk jitter, rotated by the camera matrix and normalised; the
/// origin is the camera position shifted by the rotated combined jitter.
pub open spec fn spec_camera_ray(
    i: int,
    scene: Scene,
    image_plane_size: int,
    jitter_size: int,
    pixel_size: int,
    width: int,
    height: int,
    rot: Mat3,
    jitter_x: int,
    jitter_z: int,
    aa_x: int,
    aa_z: int,
) -> Ray {
    let cam = scene.cameras[0];
    let flipped = width * height - i - 1;
    let px = flipped % width;
    let py = flipped / width;
    let plane_x = -spec_plane_coord(px, width, height, image_plane_size) + tdiv(
        jitter_x * jitter_size,
        SCALE as int,
    );
    let plane_z = spec_plane_coord(py, height, height, image_plane_size) + tdiv(
        jitter_z * jitter_size,
        SCALE as int,
    );
    let ajx = tdiv(jitter_x * (2 * cam.aperture_radius), SCALE as int);
    let ajz = tdiv(jitter_z * (2 * cam.aperture_radius), SCALE as int);
    let aax = tdiv(aa_x * pixel_size, SCALE as int);
    let aaz = tdiv(aa_z * pixel_size, SCALE as int);
    let dir0 = Vec3 {
        x: (plane_x - ajx + aax) as i64,
        y: SCALE as i64,
        z: (plane_z - ajz + aaz) as i64,
    };
    let dir = spec_camera_dir(spec_rotate(rot, dir0));
    let cj = Vec3 { x: (ajx + aax) as i64, y: 0i64, z: (ajz + aaz) as i64 };
    let rcj = spec_rotate(rot, cj);
    let pos = Vec3 {
        x: (cam.pos.x + rcj.x) as i64,
        y: (cam.pos.y + rcj.y) as i64,
        z: (cam.pos.z + rcj.z) as i64,
    };
    Ray { pos, dir, from_wormhole: false, from_object_id: ObjectID { val: 0i32 } }
}

/// A jittered primary ray for pixel `i`: the lens-disk sample
/// `(jitter_x, jitter_z)` and the anti-aliasing sample `(aa_x, aa_z)` are
/// drawn by the caller, so the ray is a pure function of its arguments.
pub fn camera_ray(
    i: usize,
    scene: &Scene,
    image_plane_size: i64,
    jitter_size: i64,
    pixel_size: i64,
    width: usize,
    height: usize,
    rotation: &Mat3,
    jitter_x: i64,
    jitter_z: i64,
    aa_x: i64,
    aa_z: i64,
) -> (r: Ray)
    requires
        scene_wf(*scene),
        1 <= width <= 0x10000,
        1 <= height <= 0x10000,
        width * height <= 0x4000_0000,
        i < width * height,
        0 <= image_plane_size <= 0x1000_0000,
        0 <= jitter_size <= 4 * SCALE,
        0 <= pixel_size <= SCALE,
        -SCALE as int <= jitter_x <= SCALE as int,
        -SCALE as int <= jitter_z <= SCALE as int,
        jitter_x * jitter_x + jitter_z * jitter_z <= SCALE as int * SCALE as int,
        -SCALE as int <= aa_x <= SCALE as int,
        -SCALE as int <= aa_z <= SCALE as int,
        crate::vec3::mat_bounded(*rotation, 2 * SCALE as int),
    ensures
        r == spec_camera_ray(
            i as int,
            *scene,
            image_plane_size as int,
            jitter_size as int,
            pixel_size as int,
            width as int,
            height as int,
            *rotation,
            jitter_x as int,
            jitter_z as int,
            aa_x as int,
            aa_z as int,
        ),
        ray_wf(r),
        ({
            // The combined lens and anti-aliasing jitter, before rotation,
            // stays within twice the aperture plus one pixel per axis; the
            // rotated origin displacement then carries the matrix's
            // magnitude bound as a factor of six.
            let cam = scene.cameras[0];
            let jlim = 2 * cam.aperture_radius + pixel_size;
            let cjx = tdiv(jitter_x * (2 * cam.aperture_radius), SCALE as int) + tdiv(
                aa_x * pixel_size,
                SCALE as int,
            );
            let cjz = tdiv(jitter_z * (2 * cam.aperture_radius), SCALE as int) + tdiv(
                aa_z * pixel_size,
                SCALE as int,
            );
            let lim = 6 * jlim;
            &&& -jlim <= cjx <= jlim
            &&& -jlim <= cjz <= jlim
            &&& -lim <= r.pos.x - cam.pos.x <= lim
            &&& -lim <= r.pos.y - cam.pos.y <= lim
            &&& -lim <= r.pos.z - cam.pos.z <= lim
        }),
{
    let flipped: usize = width * height - i - 1;
    let px: usize = flipped % width;
    let py: usize = flipped / width;
    proof {
        vstd::arithmetic::div_mod::lemma_multiply_divide_lt(
            flipped as int,
            width as int,
            height as int,
        );
        lemma_plane_coord_bounds(px as int, width as int, height as int, image_plane_size as int);
        lemma_plane_coord_bounds(py as int, height as int, height as int, image_plane_size as int);
        lemma_jitter_product(jitter_x as int, jitter_size as int, 4 * SCALE as int);
        lemma_jitter_product(jitter_z as int, jitter_size as int, 4 * SCALE as int);
        lemma_jitter_product(
            jitter_x as int,
            2 * scene.cameras@[0].aperture_radius as int,
            2 * scene.cameras@[0].aperture_radius as int,
        );
        lemma_jitter_product(
            jitter_z as int,
            2 * scene.cameras@[0].aperture_radius as int,
            2 * scene.cameras@[0].aperture_radius as int,
        );
        lemma_jitter_product(aa_x as int, pixel_size as int, pixel_size as int);
        lemma_jitter_product(aa_z as int, pixel_size as int, pixel_size as int);
    }
    let cam = scene.cameras[0];
    let plane_x: i64 = -plane_coord(px, width, height, image_plane_size) + mul_fp(
        jitter_x,
        jitter_size,
    );
    let plane_z: i64 = plane_coord(py, height, height, image_plane_size) + mul_fp(
        jitter_z,
        jitter_size,
    );
    let ajx: i64 = mul_fp(jitter_x, 2 * cam.aperture_radius);
    let ajz: i64 = mul_fp(jitter_z, 2 * cam.aperture_radius);
    let aax: i64 = mul_fp(aa_x, pixel_size);
    let aaz: i64 = mul_fp(aa_z, pixel_size);
    let dir0 = Vec3 { x: plane_x - ajx + aax, y: SCALE, z: plane_z - ajz + aaz };
    let rd = rotation.rotate(dir0);
    let dir = camera_dir(rd);
    let cj = Vec3 { x: ajx + aax, y: 0, z: ajz + aaz };
    proof {
        crate::vec3::lemma_rotated_small(
            *rotation,
            cj,
            2 * scene.cameras@[0].aperture_radius + pixel_size,
        );
    }
    let rcj = rotation.rotate(cj);
    let pos = Vec3 { x: cam.pos.x + rcj.x, y: cam.pos.y + rcj.y, z: cam.pos.z + rcj.z };
    Ray { pos, dir, from_wormhole: false, from_object_id: ObjectID { val: 0 } }
}

/// The plain centre ray of pixel `i`, with no lens or anti-aliasing
/// jitter; the autofocus probe uses it.
#[verifier::rlimit(100)]
pub fn camera_ray_simple(
    i: usize,
    scene: &Scene,
    image_plane_size: i64,
    width: usize,
    height: usize,
    rotation: &Mat3,
) -> (r: Ray)
    requires
        scene_wf(*scene),
        1 <= width <= 0x10000,
        1 <= height <= 0x10000,
        width * height <= 0x4000_0000,
        i < width * height,
        0 <= image_plane_size <= 0x1000_0000,
        crate::vec3::mat_bounded(*rotation, 2 * SCALE as int),
    ensures
        r == spec_camera_ray(
            i as int,
            *scene,
            image_plane_size as int,
            0,
            0,
            width as int,
            height as int,
            *rotation,
            0,
            0,
            0,
            0,
        ),
        ray_wf(r),
        r.pos == scene.cameras[0].pos,
{
    let r = camera_ray(
        i,
        scene,
        image_plane_size,
        0,
        0,
        width,
        height,
        rotation,
        0,
        0,
        0,
        0,
    );
    proof {
        crate::num::lemma_tdiv_shrinks(0, SCALE as int);
        let z = Vec3 { x: 0i64, y: 0i64, z: 0i64 };
        crate::vec3::lemma_dot_bound(rotation.r0, z, 2 * SCALE as int, 0);
        crate::vec3::lemma_dot_bound(rotation.r1, z, 2 * SCALE as int, 0);
        crate::vec3::lemma_dot_bound(rotation.r2, z, 2 * SCALE as int, 0);
        assert(3 * ((2 * SCALE as int) * 0) == 0) by (nonlinear_arith);
    }
    r
}

/// One centred, scaled image-plane coordinate.
fn plane_coord(p: usize, extent: usize, height: usize, ips: i64) -> (c: i64)
    requires
        p < extent,
        extent <= 0x10000,
        1 <= height <= 0x10000,
        0 <= ips <= 0x1000_0000,
    ensures
        c == spec_plane_coord(p as int, extent as int, height as int, ips as int),
        -0x800_0000_0000 <= c <= 0x800_0000_0000,
{
    proof {
        lemma_plane_coord_bounds(p as int, extent as int, height as int, ips as int);
    }
    ((2 * (p as i64) - (extent as i64)) * ips) / (2 * (height as i64))
}

/// Bounds for a plane coordinate: the numerator fits and the quotient is
/// at most half the plane size times the aspect bound.
proof fn lemma_plane_coord_bounds(p: int, extent: int, height: int, ips: int)
    requires
        0 <= p < extent,
        extent <= 0x10000,
        1 <= height,
        0 <= ips <= 0x1000_0000,
    ensures
        -0x1000_0000_0000_0000 <= (2 * p - extent) * ips <= 0x1000_0000_0000_0000,
        -0x800_0000_0000 <= spec_plane_coord(p, extent, height, ips) <= 0x800_0000_0000,
{
    crate::vec3::lemma_product_bound(2 * p - extent, ips, 0x10000, 0x1000_0000);
    crate::num::lemma_tdiv_bounded(
        (2 * p - extent) * ips,
        2 * height,
        0x10000int * 0x1000_0000,
    );
    crate::num::lemma_tdiv_shrinks(0x10000int * 0x1000_0000, 2 * height);
    assert(tdiv(0x10000int * 0x1000_0000, 2 * height) <= 0x800_0000_0000) by {
        vstd::arithmetic::div_mod::lemma_div_is_ordered_by_denominator(
            0x10000int * 0x1000_0000,
            2,
            2 * height,
        );
        vstd::arithmetic::div_mod::lemma_div_by_multiple(0x800_0000_0000, 2);
        assert(0x10000int * 0x1000_0000 == 0x800_0000_0000 * 2);
    }
}

/// A jitter sample scaled by a bounded factor stays bounded by the
/// factor's bound.
proof fn lemma_jitter_product(a: int, b: int, mb: int)
    requires
        -SCALE as int <= a <= SCALE as int,
        0 <= b <= mb,
        0 <= mb <= 4 * SCALE as int,
    ensures
        -0x4000_0000_0000_0000 <= a * b <= 0x4000_0000_0000_0000,
        -mb <= tdiv(a * b, SCALE as int) <= mb,
{
    let s = SCALE as int;
    crate::vec3::lemma_product_bound(a, b, s, mb);
    assert(s * mb <= 0x4000_0000_0000_0000) by (nonlinear_arith)
        requires
            s == 1_000_000,
            0 <= mb <= 4 * s,
    ;
    assert(s * mb == mb * s) by (nonlinear_arith);
    crate::num::lemma_tdiv_bounded(a * b, s, mb * s);
    assert(tdiv(mb * s, s) == mb) by {
        vstd::arithmetic::div_mod::lemma_div_by_multiple(mb, s);
        assert(mb * s >= 0) by (nonlinear_arith)
            requires
                mb >= 0,
                s > 0,
        ;
    }
}

/// The normalised rotated direction, or straight ahead when it
/// degenerates.
fn camera_dir(rd: Vec3) -> (d: Vec3)
    requires
        vec_bounded(rd, 0x6_0000_0000_0000),
    ensures
        d == spec_camera_dir(rd),
        vec_bounded(d, SCALE as int),
        spec_dot(d, d) >= DIR_MIN_NORM2,
{
    let fallback = Vec3 { x: 0, y: SCALE, z: 0 };
    proof {
        assert(spec_dot(
            Vec3 { x: 0i64, y: SCALE as i64, z: 0i64 },
            Vec3 { x: 0i64, y: SCALE as i64, z: 0i64 },
        ) == SCALE as int * SCALE as int);
        assert(SCALE as int * SCALE as int >= DIR_MIN_NORM2) by (nonlinear_arith)
            requires
                SCALE == 1_000_000,
                DIR_MIN_NORM2 == 250_000_000_000,
    ;
    }
    if rd.x == 0 && rd.y == 0 && rd.z == 0 {
        return fallback;
    }
    let n = rd.normalize();
    let nn: i128 = n.dot(n);
    if nn >= DIR_MIN_NORM2 as i128 {
        n
    } else {
        fallback
    }
}


/// The nearest hit among the first `n` spheres with no exclusions, as the
/// focus probe sees the scene.
pub open spec fn spec_any_hit_upto(spheres: Seq<Sphere>, ray: Ray, n: int) -> Option<(int, i64)>
    decreases n,
{
    if n <= 0 {
        None
    } else {
        let prev = spec_any_hit_upto(spheres, ray, n - 1);
        match spec_intersect(spheres[n - 1], ray) {
            Option::None => prev,
            Option::Some(t) => match prev {
                Option::None => Some((n - 1, t)),
                Option::Some(p) => if t < p.1 {
                    Some((n - 1, t))
                } else {
                    Some(p)
                },
            },
        }
    }
}

/// The point a raycast reports for a hit at distance `t` on sphere `s`:
/// the hit point itself, displaced by the portal offset (scaled by the
/// softening factor at the hit) when the sphere is a portal.
pub open spec fn spec_raycast_point(s: Sphere, ray: Ray, t: i64) -> Vec3 {
    let p = spec_ray_point(ray, t as int);
    if s.material.wormhole_params.is_wormhole {
        let n0 = p.sub_spec(s.pos);
        if n0.x == 0 && n0.y == 0 && n0.z == 0 {
            p
        } else {
            let nrm = spec_normalize(n0);
            let cos = spec_clamp(
                tdiv(-spec_dot(nrm, ray.dir), SCALE as int),
                -SCALE as int,
                SCALE as int,
            );
            let f = spec_wormhole_factor(cos);
            let off = s.material.wormhole_params.wormhole_offset;
            Vec3 {
                x: (p.x + tdiv(off.x * f, SCALE as int)) as i64,
                y: (p.y + tdiv(off.y * f, SCALE as int)) as i64,
                z: (p.z + tdiv(off.z * f, SCALE as int)) as i64,
            }
        }
    } else {
        p
    }
}

/// Every entry of the unexcluded scan is a real hit in range.
proof fn lemma_any_hit_props(spheres: Seq<Sphere>, ray: Ray, n: int)
    requires
        0 <= n <= spheres.len(),
    ensures
        spec_any_hit_upto(spheres, ray, n) matches Some((i, t)) ==> 0 <= i < n && spec_intersect(
            spheres[i],
            ray,
        ) == Some(t),
    decreases n,
{
    if n > 0 {
        lemma_any_hit_props(spheres, ray, n - 1);
    }
}

/// The pure nearest-hit probe: the point where the ray first meets the
/// scene, honouring portal displacement, or nothing when it escapes.
#[verifier::rlimit(100)]
pub fn raycast(spheres: &Vec<Sphere>, ray: Ray) -> (res: Option<Vec3>)
    requires
        forall|i: int| 0 <= i < spheres@.len() ==> sphere_wf(#[trigger] spheres@[i]),
        ray_wf(ray),
    ensures
        ({
            let m = spec_any_hit_upto(spheres@, ray, spheres@.len() as int);
            match res {
                Option::None => m is None,
                Option::Some(p) => m matches Some((i, t)) && p == spec_raycast_point(
                    spheres@[i],
                    ray,
                    t,
                ) && vec_bounded(p, 0x8_0000_0000_0000),
            }
        }),
{
    let mut best: Option<(usize, i64)> = None;
    let n = spheres.len();
    for i in 0..n
        invariant
            n == spheres@.len(),
            forall|j: int| 0 <= j < spheres@.len() ==> sphere_wf(#[trigger] spheres@[j]),
            ray_wf(ray),
            ({
                let m = spec_any_hit_upto(spheres@, ray, i as int);
                match best {
                    Option::None => m is None,
                    Option::Some((bi, bt)) => m == Some((bi as int, bt)) && bi < spheres@.len(),
                }
            }),
    {
        let s = spheres[i];
        match s.intersect(&ray) {
            Option::Some(t) => {
                match best {
                    Option::None => {
                        best = Some((i, t));
                    },
                    Option::Some((bi, bt)) => {
                        if t < bt {
                            best = Some((i, t));
                        }
                    },
                }
            },
            Option::None => {},
        }
    }
    if let Some((i, t)) = best {
        proof {
            lemma_any_hit_props(spheres@, ray, spheres@.len() as int);
            crate::intersect::lemma_intersect_some_range(spheres@[i as int], ray);
        }
        let s = spheres[i];
        let p = ray_point(&ray, t);
        if s.material.wormhole_params.is_wormhole {
            let n0 = p.sub(s.pos);
            if n0.x == 0 && n0.y == 0 && n0.z == 0 {
                return Some(p);
            }
            let nrm = n0.normalize();
            let dp: i128 = nrm.dot(ray.dir);
            proof {
                crate::vec3::lemma_dot_bound(nrm, ray.dir, SCALE as int, crate::num::DIR_MAX as int);
                crate::num::lemma_tdiv_shrinks(-spec_dot(nrm, ray.dir), SCALE as int);
                crate::num::lemma_tdiv_shrinks(spec_dot(nrm, ray.dir), SCALE as int);
            }
            let cos_raw: i128 = (-dp) / (SCALE as i128);
            let cos_x: i64 = clamp(cos_raw as i64, -SCALE, SCALE);
            let f = wormhole_factor(cos_x);
            let off = s.material.wormhole_params.wormhole_offset;
            proof {
                lemma_offset_scale(off.x as int, f as int);
                lemma_offset_scale(off.y as int, f as int);
                lemma_offset_scale(off.z as int, f as int);
            }
            let shift = off.scale(f);
            return Some(p.add(shift));
        }
        return Some(p);
    }
    None
}

/// Probes the centre of the image with a plain ray and writes the
/// distance of the first thing it meets back into the camera's focal
/// length, or a far default when the probe escapes into the sky.
#[verifier::rlimit(100)]
pub fn autofocus(
    autofocus_enabled: bool,
    width: usize,
    height: usize,
    scene: &mut Scene,
    image_plane_size: i64,
    rotation: &Mat3,
) -> (probe: Option<Ray>)
    requires
        scene_wf(*old(scene)),
        1 <= width <= 0x10000,
        1 <= height <= 0x10000,
        width * height <= 0x4000_0000,
        0 <= image_plane_size <= 0x1000_0000,
        crate::vec3::mat_bounded(*rotation, 2 * SCALE as int),
    ensures
        scene_wf(*final(scene)),
        final(scene).spheres@ == old(scene).spheres@,
        final(scene).sky == old(scene).sky,
        final(scene).cameras@.len() == old(scene).cameras@.len(),
        !autofocus_enabled ==> final(scene).cameras@ == old(scene).cameras@,
        autofocus_enabled ==> ({
            let pr = spec_camera_ray(
                (width * height / 2 - width / 2) as int,
                *old(scene),
                image_plane_size as int,
                0,
                0,
                width as int,
                height as int,
                *rotation,
                0,
                0,
                0,
                0,
            );
            let cam0 = old(scene).cameras@[0];
            let f = match spec_any_hit_upto(
                old(scene).spheres@,
                pr,
                old(scene).spheres@.len() as int,
            ) {
                Option::Some((i, t)) => {
                    let p = spec_raycast_point(old(scene).spheres@[i], pr, t);
                    let diff = p.sub_spec(cam0.pos);
                    spec_clamp(
                        crate::num::int_sqrt(spec_dot(diff, diff)),
                        0,
                        crate::num::POS_MAX as int,
                    )
                },
                Option::None => 200 * SCALE as int,
            };
            &&& probe == Some(pr)
            &&& final(scene).cameras@ == old(scene).cameras@.update(
                0,
                Camera { focal_length: (f as i64), ..cam0 },
            )
            &&& final(scene).cameras@[0].focal_length == f
        }),
        !autofocus_enabled ==> probe is None,
{
    if !autofocus_enabled {
        proof {
            assert(old(scene).cameras@ =~= scene.cameras@);
        }
        return None;
    }
    proof {
        assert(width * height >= width) by (nonlinear_arith)
            requires
                1 <= width,
                1 <= height,
        ;
        vstd::arithmetic::div_mod::lemma_div_is_ordered(width as int, width * height, 2);
        assert(width * height / 2 - width / 2 < width * height) by (nonlinear_arith)
            requires
                1 <= width,
                1 <= height,
                width * height <= 0x4000_0000,
        ;
    }
    let center: usize = width * height / 2 - width / 2;
    let focus_probe = camera_ray_simple(center, scene, image_plane_size, width, height, rotation);
    let new_focal: i64 = match raycast(&scene.spheres, focus_probe) {
        Option::Some(point) => {
            let d = crate::vec3::distance(scene.cameras[0].pos, point);
            clamp(d, 0, crate::num::POS_MAX)
        },
        Option::None => 200 * SCALE,
    };
    let mut cam = scene.cameras[0];
    cam.focal_length = new_focal;
    scene.cameras.set(0, cam);
    proof {
        assert(scene.cameras@ =~= old(scene).cameras@.update(0, cam));
    }
    Some(focus_probe)
}

} // verus!

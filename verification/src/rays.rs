//! A standalone line–sphere solver that hands back the nearest root's
//! point rather than a distance: the line hits when the discriminant is
//! positive and the centre lies ahead of the origin.

use vstd::prelude::*;

use crate::intersect::{
    coef_a, coef_b, ray_point, root0_num, spec_disc, spec_ray_point, HIT_T_MAX,
};
use crate::num::{tdiv, SCALE};
use crate::scene::{ray_wf, sphere_wf, Ray, Sphere};
use crate::vec3::Vec3;

verus! {

/// The scaled distance of the near root, also meaningful when the origin
/// sits inside the sphere (it is then negative).
pub open spec fn spec_near_root(ray: Ray, sphere: Sphere) -> int {
    tdiv(root0_num(sphere, ray) * SCALE, coef_a(ray))
}

/// The model of `intersect_sphere`: the point of the near root whenever
/// the line meets the sphere with the centre ahead of the origin.
pub open spec fn spec_intersect_sphere(ray: Ray, sphere: Sphere) -> Option<Vec3> {
    if spec_disc(sphere, ray) > 0 && coef_b(sphere, ray) > 0 {
        Some(spec_ray_point(ray, spec_near_root(ray, sphere)))
    } else {
        None
    }
}

/// The point where a ray's line first meets a sphere, if the discriminant
/// is positive and the centre lies ahead.
pub fn intersect_sphere(ray: &Ray, sphere: &Sphere) -> (res: Option<Vec3>)
    requires
        ray_wf(*ray),
        sphere_wf(*sphere),
    ensures
        res == spec_intersect_sphere(*ray, *sphere),
{
    proof {
        crate::intersect::lemma_coef_bounds(*sphere, *ray);
        crate::intersect::lemma_disc_bounds(*sphere, *ray);
    }
    let oc = sphere.pos.sub(ray.pos);
    let a: i128 = ray.dir.dot(ray.dir);
    let b: i128 = oc.dot(ray.dir);
    let ll: i128 = oc.dot(oc);
    let rsq: i128 = (sphere.radius as i128) * (sphere.radius as i128);
    proof {
        assert((sphere.radius as i128) * (sphere.radius as i128) == sphere.radius * sphere.radius)
            by (nonlinear_arith);
        assert(b * b == coef_b(*sphere, *ray) * coef_b(*sphere, *ray));
        assert(a * (ll - rsq) == coef_a(*ray) * crate::intersect::coef_c(*sphere, *ray));
    }
    let c: i128 = ll - rsq;
    let disc: i128 = b * b - a * c;
    if disc > 0 && b > 0 {
        let sq: u64 = crate::num::isqrt(disc as u128);
        let t0_num: i128 = b - sq as i128;
        proof {
            crate::intersect::lemma_root_magnitude(*sphere, *ray);
            assert(t0_num * (SCALE as i128) == root0_num(*sphere, *ray) * SCALE)
                by (nonlinear_arith)
                requires
                    t0_num == root0_num(*sphere, *ray),
            ;
        }
        let t: i128 = t0_num * (SCALE as i128) / a;
        Some(ray_point(ray, t as i64))
    } else {
        None
    }
}

} // verus!

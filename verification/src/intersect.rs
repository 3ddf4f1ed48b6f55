//! Analytic ray–sphere intersection. The solver works on the quadratic
//! `t^2 * |d|^2 - 2 t (d . l) + |l|^2 - r^2 = 0` (with `l` the vector from
//! the ray origin to the centre), so directions need not be exactly unit
//! length. A candidate root is rejected when it lies behind the origin, or
//! when the surface normal at the computed hit point faces along the ray
//! (a hit on the exiting face, which only rounding can produce for rays
//! that start on a surface).

use vstd::prelude::*;

use crate::num::{int_sqrt, isqrt, tdiv, DIR_MAX, POS_MAX, SCALE, SQRT_DOM};
use crate::scene::{ray_wf, sphere_wf, Ray, Sphere, DIR_MIN_NORM2};
use crate::vec3::{spec_dot, vec_bounded, Vec3};

verus! {

/// Largest hit distance the solver can report (scaled).
pub const HIT_T_MAX: i64 = 0x8000_0000_0000;

/// Vector from the ray origin to the sphere centre.
pub open spec fn spec_oc(s: Sphere, r: Ray) -> Vec3 {
    s.pos.sub_spec(r.pos)
}

/// Quadratic coefficient `a = |d|^2`.
pub open spec fn coef_a(r: Ray) -> int {
    spec_dot(r.dir, r.dir)
}

/// Quadratic coefficient `b = d . l`.
pub open spec fn coef_b(s: Sphere, r: Ray) -> int {
    spec_dot(spec_oc(s, r), r.dir)
}

/// Quadratic coefficient `c = |l|^2 - radius^2`.
pub open spec fn coef_c(s: Sphere, r: Ray) -> int {
    spec_dot(spec_oc(s, r), spec_oc(s, r)) - s.radius * s.radius
}

/// Discriminant `b^2 - a c`; negative exactly when the line misses the
/// sphere (the squared closest approach exceeds the squared radius).
pub open spec fn spec_disc(s: Sphere, r: Ray) -> int {
    coef_b(s, r) * coef_b(s, r) - coef_a(r) * coef_c(s, r)
}

/// Numerator of the near root `t0 = (b - sqrt(disc)) / a`.
pub open spec fn root0_num(s: Sphere, r: Ray) -> int {
    coef_b(s, r) - int_sqrt(spec_disc(s, r))
}

/// Numerator of the far root `t1 = (b + sqrt(disc)) / a`.
pub open spec fn root1_num(s: Sphere, r: Ray) -> int {
    coef_b(s, r) + int_sqrt(spec_disc(s, r))
}

/// The near root if it is in front of the origin, else the far root.
pub open spec fn chosen_num(s: Sphere, r: Ray) -> int {
    if root0_num(s, r) >= 0 {
        root0_num(s, r)
    } else {
        root1_num(s, r)
    }
}

/// The reported hit distance, rescaled to fixed-point world units.
pub open spec fn spec_hit_t(s: Sphere, r: Ray) -> int {
    tdiv(chosen_num(s, r) * SCALE, coef_a(r))
}

/// The point `origin + t * direction` as the solver computes it.
pub open spec fn spec_ray_point(r: Ray, t: int) -> Vec3 {
    Vec3 {
        x: (r.pos.x + tdiv(r.dir.x * t, SCALE as int)) as i64,
        y: (r.pos.y + tdiv(r.dir.y * t, SCALE as int)) as i64,
        z: (r.pos.z + tdiv(r.dir.z * t, SCALE as int)) as i64,
    }
}

/// The outward-normal test value at the candidate hit: positive when the
/// normal points along the ray, i.e. the hit is on the exiting face.
pub open spec fn spec_exit_dot(s: Sphere, r: Ray) -> int {
    spec_dot(spec_ray_point(r, spec_hit_t(s, r)).sub_spec(s.pos), r.dir)
}

/// The full model of the solver. No hit is reported exactly when the line
/// misses the sphere, every root lies behind the origin, or the sole
/// forward root is on the exiting face.
pub open spec fn spec_intersect(s: Sphere, r: Ray) -> Option<i64> {
    if spec_disc(s, r) < 0 {
        None
    } else if chosen_num(s, r) < 0 {
        None
    } else if spec_exit_dot(s, r) > 0 {
        None
    } else {
        Some(spec_hit_t(s, r) as i64)
    }
}

/// Finding the nearest valid hit of a ray on a shape.
pub trait Intersect: Sized {
    /// When the solver's arithmetic bounds hold.
    spec fn hit_ready(&self, ray: Ray) -> bool;

    /// What the solver returns.
    spec fn hit_model(&self, ray: Ray) -> Option<i64>;

    /// The scaled distance to the nearest valid hit, if any.
    fn intersect(&self, ray: &Ray) -> (res: Option<i64>)
        requires
            self.hit_ready(*ray),
        ensures
            res == self.hit_model(*ray),
    ;
}

/// Bounds on the quadratic coefficients of a well-formed sphere and ray.
pub proof fn lemma_coef_bounds(s: Sphere, r: Ray)
    requires
        sphere_wf(s),
        ray_wf(r),
    ensures
        vec_bounded(spec_oc(s, r), 2 * POS_MAX as int),
        DIR_MIN_NORM2 <= coef_a(r) <= 3 * (DIR_MAX as int * DIR_MAX as int),
        -0x6000_0000_0000_0000 <= coef_b(s, r) <= 0x6000_0000_0000_0000,
        0 <= spec_dot(spec_oc(s, r), spec_oc(s, r)) <= 3 * ((2 * POS_MAX as int) * (2 * POS_MAX
            as int)),
        0 <= s.radius * s.radius <= POS_MAX as int * POS_MAX as int,
{
    let oc = spec_oc(s, r);
    crate::vec3::lemma_dot_bound(r.dir, r.dir, DIR_MAX as int, DIR_MAX as int);
    crate::vec3::lemma_dot_bound(oc, r.dir, 2 * POS_MAX as int, DIR_MAX as int);
    crate::vec3::lemma_dot_bound(oc, oc, 2 * POS_MAX as int, 2 * POS_MAX as int);
    crate::vec3::lemma_square_nonneg(oc.x as int);
    crate::vec3::lemma_square_nonneg(oc.y as int);
    crate::vec3::lemma_square_nonneg(oc.z as int);
    assert(3 * ((2 * POS_MAX as int) * DIR_MAX as int) == 0x6000_0000_0000_0000)
        by (nonlinear_arith);
    crate::vec3::lemma_product_bound(s.radius as int, s.radius as int, POS_MAX as int, POS_MAX as int);
    crate::vec3::lemma_square_nonneg(s.radius as int);
}

/// When the discriminant is nonnegative it stays inside the square-root
/// domain: `disc <= b^2 + a * radius^2`.
pub proof fn lemma_disc_bounds(s: Sphere, r: Ray)
    requires
        sphere_wf(s),
        ray_wf(r),
    ensures
        -0x8000_0000_0000_0000_0000_0000_0000_0000 < spec_disc(s, r) < SQRT_DOM as int,
        0 <= coef_b(s, r) * coef_b(s, r) <= 0x2400_0000_0000_0000_0000_0000_0000_0000,
        -0x2800_0000_0000_0000_0000_0000_0000_0000 <= coef_a(r) * coef_c(s, r)
            <= 0x2800_0000_0000_0000_0000_0000_0000_0000,
{
    lemma_coef_bounds(s, r);
    let a = coef_a(r);
    let b = coef_b(s, r);
    let c = coef_c(s, r);
    let rsq = s.radius * s.radius;
    assert(b * b <= 0x6000_0000_0000_0000 * 0x6000_0000_0000_0000) by (nonlinear_arith)
        requires
            -0x6000_0000_0000_0000 <= b <= 0x6000_0000_0000_0000,
    ;
    assert(b * b >= 0) by (nonlinear_arith);
    assert(a * c <= a * (3 * ((2 * POS_MAX as int) * (2 * POS_MAX as int)))) by (nonlinear_arith)
        requires
            0 <= a,
            c <= 3 * ((2 * POS_MAX as int) * (2 * POS_MAX as int)),
    ;
    assert(a * c >= -(a * rsq)) by (nonlinear_arith)
        requires
            0 <= a,
            -rsq <= c,
    ;
    assert(a * (3 * ((2 * POS_MAX as int) * (2 * POS_MAX as int))) <= (3 * (DIR_MAX as int
        * DIR_MAX as int)) * (3 * ((2 * POS_MAX as int) * (2 * POS_MAX as int))))
        by (nonlinear_arith)
        requires
            0 <= a <= 3 * (DIR_MAX as int * DIR_MAX as int),
    ;
    assert(a * rsq <= (3 * (DIR_MAX as int * DIR_MAX as int)) * (POS_MAX as int * POS_MAX as int))
        by (nonlinear_arith)
        requires
            0 <= a <= 3 * (DIR_MAX as int * DIR_MAX as int),
            0 <= rsq <= POS_MAX as int * POS_MAX as int,
    ;
    assert(0x6000_0000_0000_0000 * 0x6000_0000_0000_0000 + (3 * (DIR_MAX as int * DIR_MAX as int))
        * (POS_MAX as int * POS_MAX as int) < SQRT_DOM as int) by (nonlinear_arith);
    assert((3 * (DIR_MAX as int * DIR_MAX as int)) * (3 * ((2 * POS_MAX as int) * (2 * POS_MAX
        as int))) < 0x8000_0000_0000_0000_0000_0000_0000_0000) by (nonlinear_arith);
    assert(0x6000_0000_0000_0000 * 0x6000_0000_0000_0000
        == 0x2400_0000_0000_0000_0000_0000_0000_0000) by (nonlinear_arith);
    assert((3 * (DIR_MAX as int * DIR_MAX as int)) * (3 * ((2 * POS_MAX as int) * (2 * POS_MAX
        as int))) <= 0x2800_0000_0000_0000_0000_0000_0000_0000) by (nonlinear_arith);
    assert(a * rsq <= 0x2800_0000_0000_0000_0000_0000_0000_0000) by (nonlinear_arith)
        requires
            0 <= a <= 3 * (DIR_MAX as int * DIR_MAX as int),
            0 <= rsq <= POS_MAX as int * POS_MAX as int,
    ;
}

impl Intersect for Sphere {
    open spec fn hit_ready(&self, ray: Ray) -> bool {
        sphere_wf(*self) && ray_wf(ray)
    }

    open spec fn hit_model(&self, ray: Ray) -> Option<i64> {
        spec_intersect(*self, ray)
    }

    fn intersect(&self, ray: &Ray) -> (res: Option<i64>) {
        proof {
            lemma_coef_bounds(*self, *ray);
            lemma_disc_bounds(*self, *ray);
        }
        let oc = self.pos.sub(ray.pos);
        let a: i128 = ray.dir.dot(ray.dir);
        let b: i128 = oc.dot(ray.dir);
        let ll: i128 = oc.dot(oc);
        let rsq: i128 = (self.radius as i128) * (self.radius as i128);
        proof {
            assert((self.radius as i128) * (self.radius as i128) == self.radius * self.radius)
                by (nonlinear_arith);
            assert(b * b == coef_b(*self, *ray) * coef_b(*self, *ray));
            assert(a * (ll - rsq) == coef_a(*ray) * coef_c(*self, *ray));
        }
        let c: i128 = ll - rsq;
        proof {
            assert(coef_b(*self, *ray) * coef_b(*self, *ray) <= 0x2400_0000_0000_0000_0000_0000_0000_0000);
        }
        let disc: i128 = b * b - a * c;
        if disc < 0 {
            return None;
        }
        let sq: u64 = isqrt(disc as u128);
        proof {
            assert(sq == int_sqrt(spec_disc(*self, *ray)));
            crate::num::lemma_int_sqrt_exists(spec_disc(*self, *ray));
        }
        let t0_num: i128 = b - sq as i128;
        let t1_num: i128 = b + sq as i128;
        let chosen: i128 = if t0_num < 0 {
            t1_num
        } else {
            t0_num
        };
        if chosen < 0 {
            return None;
        }
        proof {
            assert(chosen == chosen_num(*self, *ray));
            lemma_hit_t_bounds(*self, *ray);
        }
        let t128: i128 = chosen * (SCALE as i128) / a;
        let t: i64 = t128 as i64;
        proof {
            lemma_point_bounds(*ray, t as int);
        }
        let hit = Vec3 {
            x: (ray.pos.x as i128 + (ray.dir.x as i128) * (t as i128) / (SCALE as i128)) as i64,
            y: (ray.pos.y as i128 + (ray.dir.y as i128) * (t as i128) / (SCALE as i128)) as i64,
            z: (ray.pos.z as i128 + (ray.dir.z as i128) * (t as i128) / (SCALE as i128)) as i64,
        };
        proof {
            assert(hit == spec_ray_point(*ray, spec_hit_t(*self, *ray)));
        }
        let hc = hit.sub(self.pos);
        let exit_dot: i128 = hc.dot(ray.dir);
        if exit_dot > 0 {
            return None;
        }
        Some(t)
    }
}

/// In the forward-root case the rescaled hit distance lies in
/// `[0, HIT_T_MAX]`.
proof fn lemma_hit_t_bounds(s: Sphere, r: Ray)
    requires
        sphere_wf(s),
        ray_wf(r),
        spec_disc(s, r) >= 0,
        chosen_num(s, r) >= 0,
    ensures
        0 <= spec_hit_t(s, r) <= HIT_T_MAX,
        chosen_num(s, r) * SCALE <= 0x1_0000_0000_0000_0000 * SCALE as int,
{
    lemma_coef_bounds(s, r);
    crate::num::lemma_int_sqrt_exists(spec_disc(s, r));
    let sq = int_sqrt(spec_disc(s, r));
    lemma_disc_bounds(s, r);
    assert(sq <= 0x8000_0000_0000_0000) by (nonlinear_arith)
        requires
            sq >= 0,
            sq * sq < 0x4000_0000_0000_0000_0000_0000_0000_0000,
    ;
    let ch = chosen_num(s, r);
    assert(ch <= 0x1_0000_0000_0000_0000);
    assert(ch * SCALE <= 0x1_0000_0000_0000_0000 * SCALE as int) by (nonlinear_arith)
        requires
            0 <= ch <= 0x1_0000_0000_0000_0000,
    ;
    assert(ch * SCALE >= 0) by (nonlinear_arith)
        requires
            ch >= 0,
    ;
    crate::num::lemma_tdiv_shrinks(ch * SCALE, coef_a(r));
    vstd::arithmetic::div_mod::lemma_div_is_ordered(
        0,
        ch * SCALE,
        coef_a(r),
    );
    vstd::arithmetic::div_mod::lemma_div_is_ordered(
        ch * SCALE,
        0x1_0000_0000_0000_0000 * SCALE as int,
        coef_a(r),
    );
    vstd::arithmetic::div_mod::lemma_div_is_ordered_by_denominator(
        0x1_0000_0000_0000_0000 * SCALE as int,
        DIR_MIN_NORM2 as int,
        coef_a(r),
    );
    assert(0x1_0000_0000_0000_0000 * SCALE as int / (DIR_MIN_NORM2 as int) <= HIT_T_MAX as int)
        by (nonlinear_arith);
}

/// Components of the computed hit point stay well inside the dot-product
/// domain.
pub proof fn lemma_point_bounds(r: Ray, t: int)
    requires
        ray_wf(r),
        -HIT_T_MAX as int <= t <= HIT_T_MAX,
    ensures
        vec_bounded(spec_ray_point(r, t), 0x4_0000_0000_0000),
        -0x20_0000_0000_0000_0000 <= r.dir.x * t <= 0x20_0000_0000_0000_0000,
        -0x20_0000_0000_0000_0000 <= r.dir.y * t <= 0x20_0000_0000_0000_0000,
        -0x20_0000_0000_0000_0000 <= r.dir.z * t <= 0x20_0000_0000_0000_0000,
        spec_ray_point(r, t).x == r.pos.x + tdiv(r.dir.x * t, SCALE as int),
        spec_ray_point(r, t).y == r.pos.y + tdiv(r.dir.y * t, SCALE as int),
        spec_ray_point(r, t).z == r.pos.z + tdiv(r.dir.z * t, SCALE as int),
{
    lemma_point_component(r.pos.x as int, r.dir.x as int, t);
    lemma_point_component(r.pos.y as int, r.dir.y as int, t);
    lemma_point_component(r.pos.z as int, r.dir.z as int, t);
}

/// One component of a ray point: `pos + dir * t / SCALE` stays within
/// `4 * 2^50` for bounded inputs.
proof fn lemma_point_component(p: int, d: int, t: int)
    requires
        -POS_MAX as int <= p <= POS_MAX as int,
        -DIR_MAX as int <= d <= DIR_MAX as int,
        -HIT_T_MAX as int <= t <= HIT_T_MAX,
    ensures
        -0x20_0000_0000_0000_0000 <= d * t <= 0x20_0000_0000_0000_0000,
        -0x4_0000_0000_0000 <= p + tdiv(d * t, SCALE as int) <= 0x4_0000_0000_0000,
{
    crate::vec3::lemma_product_bound(d, t, DIR_MAX as int, HIT_T_MAX as int);
    assert(DIR_MAX as int * HIT_T_MAX as int >= 0) by (nonlinear_arith);
    assert(DIR_MAX as int * HIT_T_MAX as int <= 0x20_0000_0000_0000_0000) by (nonlinear_arith);
    crate::num::lemma_tdiv_bounded(d * t, SCALE as int, DIR_MAX as int * HIT_T_MAX as int);
    assert(tdiv(DIR_MAX as int * HIT_T_MAX as int, SCALE as int) <= 0x3_0000_0000_0000) by {
        crate::num::lemma_tdiv_shrinks(DIR_MAX as int * HIT_T_MAX as int, SCALE as int);
        vstd::arithmetic::div_mod::lemma_div_is_ordered(
            DIR_MAX as int * HIT_T_MAX as int,
            0x3_0000_0000_0000 * SCALE as int,
            SCALE as int,
        );
        vstd::arithmetic::div_mod::lemma_div_by_multiple(0x3_0000_0000_0000, SCALE as int);
        assert(0x3_0000_0000_0000 * SCALE as int == SCALE as int * 0x3_0000_0000_0000)
            by (nonlinear_arith);
        assert(DIR_MAX as int * HIT_T_MAX as int <= 0x3_0000_0000_0000 * SCALE as int)
            by (nonlinear_arith);
    }
}

/// The point `origin + t * direction`, each component rounded toward
/// zero, as the shading and focus passes use it.
pub fn ray_point(r: &Ray, t: i64) -> (p: Vec3)
    requires
        ray_wf(*r),
        -HIT_T_MAX as int <= t <= HIT_T_MAX,
    ensures
        p == spec_ray_point(*r, t as int),
        vec_bounded(p, 0x4_0000_0000_0000),
{
    proof {
        lemma_point_bounds(*r, t as int);
    }
    Vec3 {
        x: (r.pos.x as i128 + (r.dir.x as i128) * (t as i128) / (SCALE as i128)) as i64,
        y: (r.pos.y as i128 + (r.dir.y as i128) * (t as i128) / (SCALE as i128)) as i64,
        z: (r.pos.z as i128 + (r.dir.z as i128) * (t as i128) / (SCALE as i128)) as i64,
    }
}

/// The rescaled near root has magnitude at most `HIT_T_MAX`, whether it
/// lies in front of or behind the origin.
pub proof fn lemma_root_magnitude(s: Sphere, r: Ray)
    requires
        sphere_wf(s),
        ray_wf(r),
        spec_disc(s, r) >= 0,
    ensures
        -0x1_0000_0000_0000_0000 <= root0_num(s, r) <= 0x1_0000_0000_0000_0000,
        -(0x1_0000_0000_0000_0000 * SCALE as int) <= root0_num(s, r) * SCALE
            <= 0x1_0000_0000_0000_0000 * SCALE as int,
        -HIT_T_MAX as int <= tdiv(root0_num(s, r) * SCALE, coef_a(r)) <= HIT_T_MAX as int,
{
    lemma_coef_bounds(s, r);
    lemma_disc_bounds(s, r);
    crate::num::lemma_int_sqrt_exists(spec_disc(s, r));
    let sq = int_sqrt(spec_disc(s, r));
    assert(sq <= 0x8000_0000_0000_0000) by (nonlinear_arith)
        requires
            sq >= 0,
            sq * sq < 0x4000_0000_0000_0000_0000_0000_0000_0000,
    ;
    let r0 = root0_num(s, r);
    crate::vec3::lemma_product_bound(r0, SCALE as int, 0x1_0000_0000_0000_0000, SCALE as int);
    crate::num::lemma_tdiv_bounded(r0 * SCALE, coef_a(r), 0x1_0000_0000_0000_0000 * SCALE as int);
    vstd::arithmetic::div_mod::lemma_div_is_ordered_by_denominator(
        0x1_0000_0000_0000_0000 * SCALE as int,
        DIR_MIN_NORM2 as int,
        coef_a(r),
    );
    crate::num::lemma_tdiv_shrinks(0x1_0000_0000_0000_0000 * SCALE as int, DIR_MIN_NORM2 as int);
    assert(0x1_0000_0000_0000_0000 * SCALE as int / (DIR_MIN_NORM2 as int) <= HIT_T_MAX as int)
        by (nonlinear_arith);
}

/// A reported hit distance always lies in `[0, HIT_T_MAX]`.
pub proof fn lemma_intersect_some_range(s: Sphere, r: Ray)
    requires
        sphere_wf(s),
        ray_wf(r),
    ensures
        spec_intersect(s, r) matches Some(t) ==> 0 <= t <= HIT_T_MAX,
{
    if spec_disc(s, r) >= 0 && chosen_num(s, r) >= 0 {
        lemma_hit_t_bounds(s, r);
    }
}

/// The no-hit characterisation of the solver: it reports no hit exactly
/// when the line's squared closest approach exceeds the squared radius
/// (negative discriminant), or every root lies behind the origin, or the
/// sole forward root is on the exiting face.
pub proof fn lemma_no_hit_iff(s: Sphere, r: Ray)
    ensures
        spec_intersect(s, r) is None <==> (spec_disc(s, r) < 0 || (root0_num(s, r) < 0
            && root1_num(s, r) < 0) || (spec_disc(s, r) >= 0 && chosen_num(s, r) >= 0
            && spec_exit_dot(s, r) > 0)),
{
}

} // verus!

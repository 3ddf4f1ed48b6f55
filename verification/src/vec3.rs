//! Integer 3-vectors and row-major 3x3 matrices. Components follow the
//! crate's fixed-point convention: a direction of unit length has components
//! of magnitude up to `SCALE`, and a dot product of two scaled vectors
//! carries a factor of `SCALE * SCALE`.

use vstd::prelude::*;

use crate::num::{isqrt, tdiv, SCALE};

verus! {

/// Components small enough to feed the exact 128-bit dot product.
pub const DOT_ARG_MAX: i64 = 0x1000_0000_0000_0000;

#[derive(Clone, Copy, Debug, PartialEq, Eq, Structural)]
pub struct Vec3 {
    pub x: i64,
    pub y: i64,
    pub z: i64,
}

/// Every component of `v` has magnitude at most `m`.
pub open spec fn vec_bounded(v: Vec3, m: int) -> bool {
    &&& -m <= v.x <= m
    &&& -m <= v.y <= m
    &&& -m <= v.z <= m
}

/// The exact mathematical dot product.
pub open spec fn spec_dot(a: Vec3, b: Vec3) -> int {
    a.x * b.x + a.y * b.y + a.z * b.z
}

/// A dot product of bounded vectors is bounded by three times the product
/// of the bounds.
pub proof fn lemma_dot_bound(a: Vec3, b: Vec3, ma: int, mb: int)
    requires
        0 <= ma,
        0 <= mb,
        vec_bounded(a, ma),
        vec_bounded(b, mb),
    ensures
        -3 * (ma * mb) <= spec_dot(a, b) <= 3 * (ma * mb),
{
    lemma_product_bound(a.x as int, b.x as int, ma, mb);
    lemma_product_bound(a.y as int, b.y as int, ma, mb);
    lemma_product_bound(a.z as int, b.z as int, ma, mb);
}

/// `|x| <= mx` and `|y| <= my` bound the product `x * y` by `mx * my`.
pub proof fn lemma_product_bound(x: int, y: int, mx: int, my: int)
    requires
        0 <= mx,
        0 <= my,
        -mx <= x <= mx,
        -my <= y <= my,
    ensures
        -(mx * my) <= x * y <= mx * my,
{
    assert(-(mx * my) <= x * y <= mx * my) by (nonlinear_arith)
        requires
            0 <= mx,
            0 <= my,
            -mx <= x <= mx,
            -my <= y <= my,
    ;
}

/// A square is never negative.
pub proof fn lemma_square_nonneg(x: int)
    ensures
        x * x >= 0,
{
    assert(x * x >= 0) by (nonlinear_arith);
}

/// The square of a nonzero integer is at least one.
pub proof fn lemma_square_pos(x: int)
    requires
        x != 0,
    ensures
        x * x >= 1,
{
    assert(x * x >= 1) by (nonlinear_arith)
        requires
            x != 0,
    ;
}

impl Vec3 {
    pub fn new(x: i64, y: i64, z: i64) -> (v: Vec3)
        ensures
            v == (Vec3 { x, y, z }),
    {
        Vec3 { x, y, z }
    }

    pub fn zero() -> (v: Vec3)
        ensures
            v == (Vec3 { x: 0i64, y: 0i64, z: 0i64 }),
    {
        Vec3 { x: 0, y: 0, z: 0 }
    }

    /// Component-wise sum.
    pub fn add(self, other: Vec3) -> (v: Vec3)
        requires
            i64::MIN <= self.x + other.x <= i64::MAX,
            i64::MIN <= self.y + other.y <= i64::MAX,
            i64::MIN <= self.z + other.z <= i64::MAX,
        ensures
            v.x == self.x + other.x,
            v.y == self.y + other.y,
            v.z == self.z + other.z,
    {
        Vec3 { x: self.x + other.x, y: self.y + other.y, z: self.z + other.z }
    }

    /// Component-wise difference.
    pub fn sub(self, other: Vec3) -> (v: Vec3)
        requires
            i64::MIN <= self.x - other.x <= i64::MAX,
            i64::MIN <= self.y - other.y <= i64::MAX,
            i64::MIN <= self.z - other.z <= i64::MAX,
        ensures
            v.x == self.x - other.x,
            v.y == self.y - other.y,
            v.z == self.z - other.z,
    {
        Vec3 { x: self.x - other.x, y: self.y - other.y, z: self.z - other.z }
    }

    /// Every component multiplied by the scaled factor `k` and rescaled.
    pub fn scale(self, k: i64) -> (v: Vec3)
        requires
            -0x4000_0000_0000_0000 <= self.x * k <= 0x4000_0000_0000_0000,
            -0x4000_0000_0000_0000 <= self.y * k <= 0x4000_0000_0000_0000,
            -0x4000_0000_0000_0000 <= self.z * k <= 0x4000_0000_0000_0000,
        ensures
            v.x == tdiv(self.x * k, SCALE as int),
            v.y == tdiv(self.y * k, SCALE as int),
            v.z == tdiv(self.z * k, SCALE as int),
    {
        Vec3 {
            x: crate::num::mul_fp(self.x, k),
            y: crate::num::mul_fp(self.y, k),
            z: crate::num::mul_fp(self.z, k),
        }
    }

    /// Exact dot product, computed in 128 bits.
    pub fn dot(self, other: Vec3) -> (r: i128)
        requires
            vec_bounded(self, DOT_ARG_MAX as int),
            vec_bounded(other, DOT_ARG_MAX as int),
        ensures
            r == spec_dot(self, other),
    {
        proof {
            lemma_dot_bound(self, other, DOT_ARG_MAX as int, DOT_ARG_MAX as int);
            lemma_product_bound(self.x as int, other.x as int, DOT_ARG_MAX as int, DOT_ARG_MAX as int);
            lemma_product_bound(self.y as int, other.y as int, DOT_ARG_MAX as int, DOT_ARG_MAX as int);
            lemma_product_bound(self.z as int, other.z as int, DOT_ARG_MAX as int, DOT_ARG_MAX as int);
            assert((self.x as i128) * (other.x as i128) == self.x * other.x) by (nonlinear_arith);
            assert((self.y as i128) * (other.y as i128) == self.y * other.y) by (nonlinear_arith);
            assert((self.z as i128) * (other.z as i128) == self.z * other.z) by (nonlinear_arith);
        }
        (self.x as i128) * (other.x as i128) + (self.y as i128) * (other.y as i128) + (
        self.z as i128) * (other.z as i128)
    }

    /// Squared magnitude, exact.
    pub fn norm2(self) -> (r: i128)
        requires
            vec_bounded(self, DOT_ARG_MAX as int),
        ensures
            r == spec_dot(self, self),
            r >= 0,
    {
        proof {
            lemma_square_nonneg(self.x as int);
            lemma_square_nonneg(self.y as int);
            lemma_square_nonneg(self.z as int);
        }
        self.dot(self)
    }
}

/// Scaled magnitude of a vector: the integer square root of the squared
/// magnitude, so a scaled unit vector has length close to `SCALE`.
pub fn length(vector: Vec3) -> (r: i64)
    requires
        vec_bounded(vector, DOT_ARG_MAX as int),
    ensures
        0 <= r,
        r * r <= spec_dot(vector, vector) < (r + 1) * (r + 1),
        r == crate::num::int_sqrt(spec_dot(vector, vector)),
{
    proof {
        lemma_dot_bound(vector, vector, DOT_ARG_MAX as int, DOT_ARG_MAX as int);
        lemma_square_nonneg(vector.x as int);
        lemma_square_nonneg(vector.y as int);
        lemma_square_nonneg(vector.z as int);
        assert(3 * (DOT_ARG_MAX as int * DOT_ARG_MAX as int) < crate::num::SQRT_DOM)
            by (nonlinear_arith);
    }
    let n2: i128 = vector.norm2();
    let r: u64 = isqrt(n2 as u128);
    proof {
        crate::num::lemma_int_sqrt_unique(n2 as int, r as int);
        assert(r * r <= n2);
        assert(r as int * r as int <= 3 * (DOT_ARG_MAX as int * DOT_ARG_MAX as int));
        assert(r < 0x4000_0000_0000_0000u64) by (nonlinear_arith)
            requires
                r as int * r as int <= 3 * (DOT_ARG_MAX as int * DOT_ARG_MAX as int),
        ;
    }
    r as i64
}

/// Scaled distance between two points.
pub fn distance(p1: Vec3, p2: Vec3) -> (r: i64)
    requires
        vec_bounded(p1, 0x800_0000_0000_0000),
        vec_bounded(p2, 0x800_0000_0000_0000),
    ensures
        0 <= r,
        r * r <= spec_dot(p2.sub_spec(p1), p2.sub_spec(p1)) < (r + 1) * (r + 1),
        r == crate::num::int_sqrt(spec_dot(p2.sub_spec(p1), p2.sub_spec(p1))),
{
    length(p2.sub(p1))
}

impl Vec3 {
    /// Spec-level component-wise difference.
    pub open spec fn sub_spec(self, other: Vec3) -> Vec3 {
        Vec3 {
            x: (self.x - other.x) as i64,
            y: (self.y - other.y) as i64,
            z: (self.z - other.z) as i64,
        }
    }

    /// Rescales a nonzero vector to (approximately) unit length: each
    /// component becomes `c * SCALE / |self|`, rounded toward zero. The
    /// result never exceeds `SCALE` in any component.
    pub fn normalize(self) -> (v: Vec3)
        requires
            vec_bounded(self, DOT_ARG_MAX as int),
            !(self.x == 0 && self.y == 0 && self.z == 0),
        ensures
            ({
                let len = spec_len(self);
                &&& v == spec_normalize(self)
                &&& v.x == tdiv(self.x * SCALE, len)
                &&& v.y == tdiv(self.y * SCALE, len)
                &&& v.z == tdiv(self.z * SCALE, len)
                &&& vec_bounded(v, SCALE as int)
            }),
    {
        let len: i64 = length(self);
        proof {
            lemma_len_properties(self);
            crate::num::lemma_int_sqrt_unique(spec_dot(self, self), len as int);
            assert(len == spec_len(self));
            lemma_normalize_component(self.x as int, len as int);
            lemma_normalize_component(self.y as int, len as int);
            lemma_normalize_component(self.z as int, len as int);
            assert((self.x as i128) * (SCALE as i128) == self.x * SCALE) by (nonlinear_arith);
            assert((self.y as i128) * (SCALE as i128) == self.y * SCALE) by (nonlinear_arith);
            assert((self.z as i128) * (SCALE as i128) == self.z * SCALE) by (nonlinear_arith);
        }
        Vec3 {
            x: ((self.x as i128) * (SCALE as i128) / (len as i128)) as i64,
            y: ((self.y as i128) * (SCALE as i128) / (len as i128)) as i64,
            z: ((self.z as i128) * (SCALE as i128) / (len as i128)) as i64,
        }
    }
}

/// The scaled length of `v` as a spec value.
pub open spec fn spec_len(v: Vec3) -> int {
    crate::num::int_sqrt(spec_dot(v, v))
}

/// The normalised copy of `v` as a spec value.
pub open spec fn spec_normalize(v: Vec3) -> Vec3 {
    Vec3 {
        x: tdiv(v.x * SCALE, spec_len(v)) as i64,
        y: tdiv(v.y * SCALE, spec_len(v)) as i64,
        z: tdiv(v.z * SCALE, spec_len(v)) as i64,
    }
}

/// For a nonzero bounded vector, the normalised copy has all components
/// within `[-SCALE, SCALE]`.
pub proof fn lemma_normalize_bounded(v: Vec3)
    requires
        vec_bounded(v, DOT_ARG_MAX as int),
        !(v.x == 0 && v.y == 0 && v.z == 0),
    ensures
        vec_bounded(spec_normalize(v), SCALE as int),
        spec_normalize(v).x == tdiv(v.x * SCALE, spec_len(v)),
        spec_normalize(v).y == tdiv(v.y * SCALE, spec_len(v)),
        spec_normalize(v).z == tdiv(v.z * SCALE, spec_len(v)),
{
    lemma_len_properties(v);
    let len = spec_len(v);
    lemma_normalize_component(v.x as int, len);
    lemma_normalize_component(v.y as int, len);
    lemma_normalize_component(v.z as int, len);
}

/// `spec_len` is well defined and bounds each component: for a nonzero
/// bounded vector the length is at least 1 and at least every `|c|`.
pub proof fn lemma_len_properties(v: Vec3)
    requires
        vec_bounded(v, DOT_ARG_MAX as int),
        !(v.x == 0 && v.y == 0 && v.z == 0),
    ensures
        1 <= spec_len(v),
        spec_len(v) * spec_len(v) <= spec_dot(v, v) < (spec_len(v) + 1) * (spec_len(v) + 1),
        -spec_len(v) <= v.x <= spec_len(v),
        -spec_len(v) <= v.y <= spec_len(v),
        -spec_len(v) <= v.z <= spec_len(v),
{
    lemma_square_nonneg(v.x as int);
    lemma_square_nonneg(v.y as int);
    lemma_square_nonneg(v.z as int);
    if v.x != 0 {
        lemma_square_pos(v.x as int);
    } else if v.y != 0 {
        lemma_square_pos(v.y as int);
    } else {
        lemma_square_pos(v.z as int);
    }
    assert(spec_dot(v, v) >= 1);
    crate::num::lemma_int_sqrt_exists(spec_dot(v, v));
    let r = spec_len(v);
    assert(r >= 0 && r * r <= spec_dot(v, v) < (r + 1) * (r + 1));
    if r < 1 {
        assert(r == 0);
        assert((r + 1) * (r + 1) == 1) by (nonlinear_arith)
            requires
                r == 0,
        ;
        assert(false);
    }
    lemma_component_le_len(v.x as int, r, spec_dot(v, v), v.y * v.y + v.z * v.z);
    lemma_component_le_len(v.y as int, r, spec_dot(v, v), v.x * v.x + v.z * v.z);
    lemma_component_le_len(v.z as int, r, spec_dot(v, v), v.x * v.x + v.y * v.y);
}

/// A component's square never exceeds the squared magnitude, so its
/// magnitude never exceeds the root of the magnitude.
proof fn lemma_component_le_len(c: int, r: int, n: int, rest: int)
    requires
        r >= 0,
        rest >= 0,
        n == c * c + rest,
        r * r <= n < (r + 1) * (r + 1),
    ensures
        -r <= c <= r,
{
    assert(c * c <= n);
    if c > r {
        assert(c * c >= (r + 1) * (r + 1)) by (nonlinear_arith)
            requires
                c >= r + 1,
                r >= 0,
        ;
        assert(false);
    }
    if c < -r {
        assert(c * c >= (r + 1) * (r + 1)) by (nonlinear_arith)
            requires
                c <= -(r + 1),
                r >= 0,
        ;
        assert(false);
    }
}

/// For `|c| <= len` and `len >= 1`, the normalised component
/// `c * SCALE / len` stays within `[-SCALE, SCALE]`.
proof fn lemma_normalize_component(c: int, len: int)
    requires
        1 <= len,
        -len <= c <= len,
    ensures
        -(SCALE as int) <= tdiv(c * SCALE, len) <= SCALE as int,
        -(len * SCALE) <= c * SCALE <= len * SCALE,
{
    lemma_product_bound(c, SCALE as int, len, SCALE as int);
    crate::num::lemma_tdiv_bounded(c * SCALE, len, len * SCALE);
    assert(tdiv(len * SCALE, len) == SCALE as int) by {
        vstd::arithmetic::div_mod::lemma_div_by_multiple(SCALE as int, len);
        assert(SCALE * len == len * SCALE) by (nonlinear_arith);
    }
}

/// A row-major 3x3 matrix of scaled entries; the camera rotation is one.
#[derive(Clone, Copy, Debug, PartialEq, Eq, Structural)]
pub struct Mat3 {
    pub r0: Vec3,
    pub r1: Vec3,
    pub r2: Vec3,
}

/// Every entry of the matrix has magnitude at most `m`.
pub open spec fn mat_bounded(m: Mat3, b: int) -> bool {
    &&& vec_bounded(m.r0, b)
    &&& vec_bounded(m.r1, b)
    &&& vec_bounded(m.r2, b)
}

impl Mat3 {
    /// The identity rotation.
    pub fn identity() -> (m: Mat3)
        ensures
            m.r0 == (Vec3 { x: SCALE as i64, y: 0i64, z: 0i64 }),
            m.r1 == (Vec3 { x: 0i64, y: SCALE as i64, z: 0i64 }),
            m.r2 == (Vec3 { x: 0i64, y: 0i64, z: SCALE as i64 }),
            mat_bounded(m, SCALE as int),
    {
        Mat3 {
            r0: Vec3 { x: SCALE, y: 0, z: 0 },
            r1: Vec3 { x: 0, y: SCALE, z: 0 },
            r2: Vec3 { x: 0, y: 0, z: SCALE },
        }
    }

    pub fn new(r0: Vec3, r1: Vec3, r2: Vec3) -> (m: Mat3)
        ensures
            m == (Mat3 { r0, r1, r2 }),
    {
        Mat3 { r0, r1, r2 }
    }

    /// Matrix-vector product with rescaling: row `i` of the result is
    /// `dot(row_i, v) / SCALE`, rounded toward zero.
    pub fn rotate(self, v: Vec3) -> (r: Vec3)
        requires
            mat_bounded(self, 2 * SCALE as int),
            vec_bounded(v, 0x1000_0000_0000),
        ensures
            r == spec_rotate(self, v),
            r.x == tdiv(spec_dot(self.r0, v), SCALE as int),
            r.y == tdiv(spec_dot(self.r1, v), SCALE as int),
            r.z == tdiv(spec_dot(self.r2, v), SCALE as int),
            vec_bounded(r, 0x6_0000_0000_0000),
    {
        proof {
            lemma_rotate_row(self.r0, v);
            lemma_rotate_row(self.r1, v);
            lemma_rotate_row(self.r2, v);
        }
        let x: i128 = self.r0.dot(v) / (SCALE as i128);
        let y: i128 = self.r1.dot(v) / (SCALE as i128);
        let z: i128 = self.r2.dot(v) / (SCALE as i128);
        Vec3 { x: x as i64, y: y as i64, z: z as i64 }
    }
}

/// One row of a bounded matrix applied to a bounded vector stays small.
proof fn lemma_rotate_row(row: Vec3, v: Vec3)
    requires
        vec_bounded(row, 2 * SCALE as int),
        vec_bounded(v, 0x1000_0000_0000),
    ensures
        -0x6_0000_0000_0000 <= tdiv(spec_dot(row, v), SCALE as int) <= 0x6_0000_0000_0000,
{
    lemma_dot_bound(row, v, 2 * SCALE as int, 0x1000_0000_0000);
    let m = 3 * ((2 * SCALE as int) * 0x1000_0000_0000);
    lemma_three_double(SCALE as int, 0x1000_0000_0000);
    assert(m == (6 * 0x1000_0000_0000) * SCALE as int);
    assert(m >= 0) by (nonlinear_arith)
        requires
            m == (6 * 0x1000_0000_0000) * SCALE as int,
            SCALE as int > 0,
    ;
    crate::num::lemma_tdiv_bounded(spec_dot(row, v), SCALE as int, m);
    assert(tdiv(m, SCALE as int) == 6 * 0x1000_0000_0000) by {
        vstd::arithmetic::div_mod::lemma_div_by_multiple(6int * 0x1000_0000_0000, SCALE as int);
    }
}

/// The matrix-vector product with rescaling, as a spec value.
pub open spec fn spec_rotate(m: Mat3, v: Vec3) -> Vec3 {
    Vec3 {
        x: tdiv(spec_dot(m.r0, v), SCALE as int) as i64,
        y: tdiv(spec_dot(m.r1, v), SCALE as int) as i64,
        z: tdiv(spec_dot(m.r2, v), SCALE as int) as i64,
    }
}

/// A rotation by a bounded matrix scales a vector's component bound by at
/// most six.
pub proof fn lemma_rotated_small(m: Mat3, v: Vec3, bound: int)
    requires
        mat_bounded(m, 2 * SCALE as int),
        0 <= bound <= 0x1000_0000_0000,
        vec_bounded(v, bound),
    ensures
        -6 * bound <= tdiv(spec_dot(m.r0, v), SCALE as int) <= 6 * bound,
        -6 * bound <= tdiv(spec_dot(m.r1, v), SCALE as int) <= 6 * bound,
        -6 * bound <= tdiv(spec_dot(m.r2, v), SCALE as int) <= 6 * bound,
{
    lemma_rotated_small_row(m.r0, v, bound);
    lemma_rotated_small_row(m.r1, v, bound);
    lemma_rotated_small_row(m.r2, v, bound);
}

proof fn lemma_rotated_small_row(row: Vec3, v: Vec3, bound: int)
    requires
        vec_bounded(row, 2 * SCALE as int),
        0 <= bound <= 0x1000_0000_0000,
        vec_bounded(v, bound),
    ensures
        -6 * bound <= tdiv(spec_dot(row, v), SCALE as int) <= 6 * bound,
{
    lemma_dot_bound(row, v, 2 * SCALE as int, bound);
    let m = 3 * ((2 * SCALE as int) * bound);
    lemma_three_double(SCALE as int, bound);
    assert(m == (6 * bound) * SCALE as int);
    assert(m >= 0) by (nonlinear_arith)
        requires
            m == (6 * bound) * SCALE as int,
            SCALE as int > 0,
            bound >= 0,
    ;
    crate::num::lemma_tdiv_bounded(spec_dot(row, v), SCALE as int, m);
    assert(tdiv(m, SCALE as int) == 6 * bound) by {
        vstd::arithmetic::div_mod::lemma_div_by_multiple(6 * bound, SCALE as int);
    }
}

/// The algebraic identity `3 * ((2 * a) * b) == (6 * b) * a`.
proof fn lemma_three_double(a: int, b: int)
    ensures
        3 * ((2 * a) * b) == (6 * b) * a,
{
    assert(3 * ((2 * a) * b) == (6 * b) * a) by (nonlinear_arith);
}

} // verus!

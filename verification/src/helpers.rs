//! Small shared pieces: interval clamping, fixed-point colours, pixel
//! packing, object identifiers and the cycling split axis used by the
//! bounding-volume builder.

use vstd::prelude::*;

use crate::num::{mul_fp, tdiv, SCALE};

verus! {

/// Clamps `val` into the closed interval `[min, max]`.
pub fn clamp(val: i64, min: i64, max: i64) -> (r: i64)
    ensures
        val < min ==> r == min,
        val > max && val >= min ==> r == max,
        min <= val <= max ==> r == val,
{
    if val < min {
        min
    } else if val > max {
        max
    } else {
        val
    }
}

/// Clamps `val` from below.
pub fn clamp_min(val: i64, min: i64) -> (r: i64)
    ensures
        r == if val < min { min } else { val },
{
    if val < min {
        min
    } else {
        val
    }
}

/// Clamps `val` from above.
pub fn clamp_max(val: i64, max: i64) -> (r: i64)
    ensures
        r == if val > max { max } else { val },
{
    if val > max {
        max
    } else {
        val
    }
}

/// Spec-level clamp, the model of `clamp` for in-order bounds.
pub open spec fn spec_clamp(val: int, min: int, max: int) -> int {
    if val < min {
        min
    } else if val > max {
        max
    } else {
        val
    }
}

/// A fractional position on the image plane, both axes scaled by `SCALE`.
#[derive(Clone, Copy, Debug)]
pub struct UV {
    pub x: i64,
    pub y: i64,
}

/// A linear RGB colour; `SCALE` is full intensity of a channel. Values are
/// not clamped: radiance may exceed one channel unit.
#[derive(Clone, Copy, Debug, PartialEq, Eq, Structural)]
pub struct Col {
    pub r: i64,
    pub g: i64,
    pub b: i64,
}

/// Channels of a colour all within `[lo, hi]`.
pub open spec fn col_in_range(c: Col, lo: int, hi: int) -> bool {
    &&& lo <= c.r <= hi
    &&& lo <= c.g <= hi
    &&& lo <= c.b <= hi
}

impl Col {
    pub fn new(r: i64, g: i64, b: i64) -> (c: Col)
        ensures
            c == (Col { r, g, b }),
    {
        Col { r, g, b }
    }

    /// Clamps every channel into `[min, max]`.
    pub fn clamp(&self, min: i64, max: i64) -> (c: Col)
        requires
            min <= max,
        ensures
            c.r == spec_clamp(self.r as int, min as int, max as int),
            c.g == spec_clamp(self.g as int, min as int, max as int),
            c.b == spec_clamp(self.b as int, min as int, max as int),
            col_in_range(c, min as int, max as int),
    {
        Col {
            r: clamp(self.r, min, max),
            g: clamp(self.g, min, max),
            b: clamp(self.b, min, max),
        }
    }

    /// Mean of the three channels, rounded toward zero.
    pub fn luminance(&self) -> (l: i64)
        requires
            col_in_range(*self, -0x1000_0000_0000_0000, 0x1000_0000_0000_0000),
        ensures
            l == tdiv(self.r + self.g + self.b, 3),
    {
        proof {
            crate::num::lemma_tdiv_shrinks(self.r + self.g + self.b, 3);
        }
        let s: i64 = (self.r + self.g) + self.b;
        s / 3
    }

    /// Channel-wise sum.
    pub fn add(self, other: Col) -> (c: Col)
        requires
            i64::MIN <= self.r + other.r <= i64::MAX,
            i64::MIN <= self.g + other.g <= i64::MAX,
            i64::MIN <= self.b + other.b <= i64::MAX,
        ensures
            c.r == self.r + other.r,
            c.g == self.g + other.g,
            c.b == self.b + other.b,
    {
        Col { r: self.r + other.r, g: self.g + other.g, b: self.b + other.b }
    }

    /// Channel-wise difference.
    pub fn sub(self, other: Col) -> (c: Col)
        requires
            i64::MIN <= self.r - other.r <= i64::MAX,
            i64::MIN <= self.g - other.g <= i64::MAX,
            i64::MIN <= self.b - other.b <= i64::MAX,
        ensures
            c.r == self.r - other.r,
            c.g == self.g - other.g,
            c.b == self.b - other.b,
    {
        Col { r: self.r - other.r, g: self.g - other.g, b: self.b - other.b }
    }

    /// Channel-wise fixed-point product (a tint).
    pub fn mul(self, other: Col) -> (c: Col)
        requires
            -0x4000_0000_0000_0000 <= self.r * other.r <= 0x4000_0000_0000_0000,
            -0x4000_0000_0000_0000 <= self.g * other.g <= 0x4000_0000_0000_0000,
            -0x4000_0000_0000_0000 <= self.b * other.b <= 0x4000_0000_0000_0000,
        ensures
            c.r == tdiv(self.r * other.r, SCALE as int),
            c.g == tdiv(self.g * other.g, SCALE as int),
            c.b == tdiv(self.b * other.b, SCALE as int),
    {
        Col {
            r: mul_fp(self.r, other.r),
            g: mul_fp(self.g, other.g),
            b: mul_fp(self.b, other.b),
        }
    }

    /// Every channel multiplied by the scaled factor `k`.
    pub fn scale(self, k: i64) -> (c: Col)
        requires
            -0x4000_0000_0000_0000 <= self.r * k <= 0x4000_0000_0000_0000,
            -0x4000_0000_0000_0000 <= self.g * k <= 0x4000_0000_0000_0000,
            -0x4000_0000_0000_0000 <= self.b * k <= 0x4000_0000_0000_0000,
        ensures
            c.r == tdiv(self.r * k, SCALE as int),
            c.g == tdiv(self.g * k, SCALE as int),
            c.b == tdiv(self.b * k, SCALE as int),
    {
        Col { r: mul_fp(self.r, k), g: mul_fp(self.g, k), b: mul_fp(self.b, k) }
    }

    pub fn red() -> (c: Col)
        ensures
            c == (Col { r: SCALE as i64, g: 0i64, b: 0i64 }),
    {
        Col { r: SCALE, g: 0, b: 0 }
    }

    pub fn green() -> (c: Col)
        ensures
            c == (Col { r: 0i64, g: SCALE as i64, b: 0i64 }),
    {
        Col { r: 0, g: SCALE, b: 0 }
    }

    pub fn blue() -> (c: Col)
        ensures
            c == (Col { r: 0i64, g: 0i64, b: SCALE as i64 }),
    {
        Col { r: 0, g: 0, b: SCALE }
    }

    pub fn yellow() -> (c: Col)
        ensures
            c == (Col { r: SCALE as i64, g: SCALE as i64, b: 0i64 }),
    {
        Col { r: SCALE, g: SCALE, b: 0 }
    }

    pub fn cyan() -> (c: Col)
        ensures
            c == (Col { r: 0i64, g: SCALE as i64, b: SCALE as i64 }),
    {
        Col { r: 0, g: SCALE, b: SCALE }
    }

    pub fn magenta() -> (c: Col)
        ensures
            c == (Col { r: SCALE as i64, g: 0i64, b: SCALE as i64 }),
    {
        Col { r: SCALE, g: 0, b: SCALE }
    }

    pub fn black() -> (c: Col)
        ensures
            c == (Col { r: 0i64, g: 0i64, b: 0i64 }),
    {
        Col { r: 0, g: 0, b: 0 }
    }

    pub fn white() -> (c: Col)
        ensures
            c == (Col { r: SCALE as i64, g: SCALE as i64, b: SCALE as i64 }),
    {
        Col { r: SCALE, g: SCALE, b: SCALE }
    }

    pub fn grey() -> (c: Col)
        ensures
            c == (Col { r: 500_000i64, g: 500_000i64, b: 500_000i64 }),
    {
        Col { r: SCALE / 2, g: SCALE / 2, b: SCALE / 2 }
    }

    pub fn light_grey() -> (c: Col)
        ensures
            c == (Col { r: 750_000i64, g: 750_000i64, b: 750_000i64 }),
    {
        Col { r: SCALE / 4 * 3, g: SCALE / 4 * 3, b: SCALE / 4 * 3 }
    }

    pub fn dark_grey() -> (c: Col)
        ensures
            c == (Col { r: 250_000i64, g: 250_000i64, b: 250_000i64 }),
    {
        Col { r: SCALE / 4, g: SCALE / 4, b: SCALE / 4 }
    }

    /// A saturated colour from a hue in `[0, 1)`: a piecewise-linear walk
    /// around the colour wheel, clamped per channel.
    pub fn from_hue(hue: i64) -> (c: Col)
        requires
            0 <= hue < SCALE,
        ensures
            c == Col::spec_from_hue(hue as int),
            col_in_range(c, 0, SCALE as int),
    {
        let x: i64 = 6 * hue;
        let c = if hue < SCALE / 2 {
            Col { r: -(x - 2 * SCALE), g: x, b: x - 2 * SCALE }
        } else {
            Col { r: x - 4 * SCALE, g: -(x - 4 * SCALE), b: -(x - 6 * SCALE) }
        };
        c.clamp(0, SCALE)
    }

    /// The hue walk as a spec value.
    pub open spec fn spec_from_hue(hue: int) -> Col {
        let x = 6 * hue;
        let s = SCALE as int;
        if hue < s / 2 {
            Col {
                r: spec_clamp(-(x - 2 * s), 0, s) as i64,
                g: spec_clamp(x, 0, s) as i64,
                b: spec_clamp(x - 2 * s, 0, s) as i64,
            }
        } else {
            Col {
                r: spec_clamp(x - 4 * s, 0, s) as i64,
                g: spec_clamp(-(x - 4 * s), 0, s) as i64,
                b: spec_clamp(-(x - 6 * s), 0, s) as i64,
            }
        }
    }

    /// A saturated colour with a hue drawn from the stream: exactly the
    /// hue walk of the drawn value.
    pub fn from_random_hue(rng: &mut crate::rng::Prng) -> (c: Col)
        ensures
            col_in_range(c, 0, SCALE as int),
            final(rng).state == crate::rng::spec_next_state(old(rng).state),
            c == Col::spec_from_hue(
                (crate::rng::spec_output(crate::rng::spec_next_state(old(rng).state))
                    % 1_000_000u64) as int,
            ),
    {
        let hue = rng.gen_range(0, SCALE);
        Col::from_hue(hue)
    }
}

/// The blend `col1 * mix + col2 * (1 - mix)` as a spec value.
pub open spec fn spec_mix(col1: Col, col2: Col, mix: int) -> Col {
    Col {
        r: (tdiv(col1.r * mix, SCALE as int) + tdiv(col2.r * (SCALE - mix), SCALE as int)) as i64,
        g: (tdiv(col1.g * mix, SCALE as int) + tdiv(col2.g * (SCALE - mix), SCALE as int)) as i64,
        b: (tdiv(col1.b * mix, SCALE as int) + tdiv(col2.b * (SCALE - mix), SCALE as int)) as i64,
    }
}

/// A blend of colours with channels in `[0, SCALE]` by a factor in
/// `[0, SCALE]` stays in `[0, SCALE]`.
pub proof fn lemma_mix_range(col1: Col, col2: Col, mix: int)
    requires
        0 <= mix <= SCALE,
        col_in_range(col1, 0, SCALE as int),
        col_in_range(col2, 0, SCALE as int),
    ensures
        col_in_range(spec_mix(col1, col2, mix), 0, SCALE as int),
{
    lemma_mix_channel(col1.r as int, col2.r as int, mix);
    lemma_mix_channel(col1.g as int, col2.g as int, mix);
    lemma_mix_channel(col1.b as int, col2.b as int, mix);
}

proof fn lemma_mix_channel(a: int, b: int, mix: int)
    requires
        0 <= mix <= SCALE,
        0 <= a <= SCALE,
        0 <= b <= SCALE,
    ensures
        0 <= tdiv(a * mix, SCALE as int) + tdiv(b * (SCALE - mix), SCALE as int) <= SCALE as int,
{
    let s = SCALE as int;
    let x = a * mix;
    let y = b * (s - mix);
    assert(0 <= x && 0 <= y && x + y <= s * s) by (nonlinear_arith)
        requires
            0 <= mix <= s,
            0 <= a <= s,
            0 <= b <= s,
            x == a * mix,
            y == b * (s - mix),
    ;
    crate::num::lemma_tdiv_shrinks(x, s);
    crate::num::lemma_tdiv_shrinks(y, s);
    vstd::arithmetic::div_mod::lemma_fundamental_div_mod(x, s);
    vstd::arithmetic::div_mod::lemma_fundamental_div_mod(y, s);
    assert(x / s + y / s <= (x + y) / s) by {
        let q = x / s + y / s;
        let r = x % s + y % s;
        assert(x + y == s * q + r);
        assert(0 <= r) by {
            vstd::arithmetic::div_mod::lemma_mod_division_less_than_divisor(x, s);
            vstd::arithmetic::div_mod::lemma_mod_division_less_than_divisor(y, s);
        }
        assert((x + y) / s >= (s * q) / s) by {
            vstd::arithmetic::div_mod::lemma_div_is_ordered(s * q, x + y, s);
            assert(s * q <= x + y);
        }
        assert((s * q) / s == q) by {
            vstd::arithmetic::div_mod::lemma_div_by_multiple(q, s);
            assert(q * s == s * q) by (nonlinear_arith);
        }
    }
    assert((x + y) / s <= (s * s) / s) by {
        vstd::arithmetic::div_mod::lemma_div_is_ordered(x + y, s * s, s);
    }
    assert((s * s) / s == s) by {
        vstd::arithmetic::div_mod::lemma_div_by_multiple(s, s);
    }
}

/// Blend of two colours: `col1 * mix + col2 * (1 - mix)`, `mix` scaled.
pub fn mix_col(col1: Col, col2: Col, mix: i64) -> (c: Col)
    requires
        0 <= mix <= SCALE,
        col_in_range(col1, -0x400_0000_0000, 0x400_0000_0000),
        col_in_range(col2, -0x400_0000_0000, 0x400_0000_0000),
    ensures
        c == spec_mix(col1, col2, mix as int),
        c.r == tdiv(col1.r * mix, SCALE as int) + tdiv(col2.r * (SCALE - mix), SCALE as int),
        c.g == tdiv(col1.g * mix, SCALE as int) + tdiv(col2.g * (SCALE - mix), SCALE as int),
        c.b == tdiv(col1.b * mix, SCALE as int) + tdiv(col2.b * (SCALE - mix), SCALE as int),
{
    proof {
        lemma_scale_product_bounded(col1.r as int, mix as int);
        lemma_scale_product_bounded(col1.g as int, mix as int);
        lemma_scale_product_bounded(col1.b as int, mix as int);
        lemma_scale_product_bounded(col2.r as int, SCALE - mix);
        lemma_scale_product_bounded(col2.g as int, SCALE - mix);
        lemma_scale_product_bounded(col2.b as int, SCALE - mix);
        crate::num::lemma_tdiv_bounded(col1.r * mix, SCALE as int, 0x4000_0000_0000_0000);
        crate::num::lemma_tdiv_bounded(col1.g * mix, SCALE as int, 0x4000_0000_0000_0000);
        crate::num::lemma_tdiv_bounded(col1.b * mix, SCALE as int, 0x4000_0000_0000_0000);
        crate::num::lemma_tdiv_bounded(col2.r * (SCALE - mix), SCALE as int, 0x4000_0000_0000_0000);
        crate::num::lemma_tdiv_bounded(col2.g * (SCALE - mix), SCALE as int, 0x4000_0000_0000_0000);
        crate::num::lemma_tdiv_bounded(col2.b * (SCALE - mix), SCALE as int, 0x4000_0000_0000_0000);
    }
    col1.scale(mix).add(col2.scale(SCALE - mix))
}

/// A product of a moderate colour channel and a factor in `[0, SCALE]`
/// stays within the range `mul_fp` accepts.
proof fn lemma_scale_product_bounded(c: int, k: int)
    requires
        -0x400_0000_0000 <= c <= 0x400_0000_0000,
        0 <= k <= SCALE,
    ensures
        -0x4000_0000_0000_0000 <= c * k <= 0x4000_0000_0000_0000,
{
    assert(-0x400_0000_0000 * 0x100000 <= c * k <= 0x400_0000_0000 * 0x100000)
        by (nonlinear_arith)
        requires
            -0x400_0000_0000 <= c <= 0x400_0000_0000,
            0 <= k <= 0x100000,
    ;
}

/// Packs three channel bytes into one `0x00RRGGBB` word.
pub fn rgb_u32(r: u32, g: u32, b: u32) -> (w: u32)
    requires
        r < 256,
        g < 256,
        b < 256,
    ensures
        w == r * 0x10000 + g * 0x100 + b,
{
    let rg: u32 = (r << 8) | g;
    let w: u32 = (rg << 8) | b;
    proof {
        assert((((r << 8u32) | g) << 8u32) | b == r * 0x10000 + g * 0x100 + b) by (bit_vector)
            requires
                r < 256u32,
                g < 256u32,
                b < 256u32,
        ;
    }
    w
}

/// Converts a colour with channels in `[0, SCALE]` to a packed pixel;
/// out-of-range channels are clamped first.
pub fn col_to_rgb_u32(rgb: Col) -> (w: u32)
    ensures
        w == spec_channel_byte(rgb.r as int) * 0x10000 + spec_channel_byte(rgb.g as int) * 0x100
            + spec_channel_byte(rgb.b as int),
{
    let c = rgb.clamp(0, SCALE);
    proof {
        crate::num::lemma_tdiv_bounded(c.r * 255, SCALE as int, 255 * SCALE);
        crate::num::lemma_tdiv_bounded(c.g * 255, SCALE as int, 255 * SCALE);
        crate::num::lemma_tdiv_bounded(c.b * 255, SCALE as int, 255 * SCALE);
        lemma_channel_byte_in_range(rgb.r as int);
        lemma_channel_byte_in_range(rgb.g as int);
        lemma_channel_byte_in_range(rgb.b as int);
    }
    let r: i64 = mul_fp(c.r, 255);
    let g: i64 = mul_fp(c.g, 255);
    let b: i64 = mul_fp(c.b, 255);
    rgb_u32(r as u32, g as u32, b as u32)
}

/// The display byte of one linear channel: clamp to `[0, SCALE]`, then
/// scale to `0..=255`.
pub open spec fn spec_channel_byte(c: int) -> int {
    tdiv(spec_clamp(c, 0, SCALE as int) * 255, SCALE as int)
}

proof fn lemma_channel_byte_in_range(c: int)
    ensures
        0 <= spec_channel_byte(c) <= 255,
{
    let v = spec_clamp(c, 0, SCALE as int);
    assert(0 <= v * 255 <= 255 * SCALE) by (nonlinear_arith)
        requires
            0 <= v <= SCALE,
    ;
    crate::num::lemma_tdiv_bounded(v * 255, SCALE as int, 255 * SCALE);
    assert(tdiv(255 * SCALE, SCALE as int) == 255);
}

/// Fractional image-plane position of pixel `index`, both axes in
/// `[0, SCALE)`.
pub fn uv(index: usize, width: usize, height: usize) -> (r: UV)
    requires
        1 <= width <= 0x10000,
        1 <= height <= 0x10000,
        index < width * height,
    ensures
        r.x == tdiv((index as int % width as int) * SCALE, width as int),
        r.y == tdiv((index as int / width as int) * SCALE, height as int),
        0 <= r.x < SCALE,
        0 <= r.y <= SCALE,
{
    let px: usize = index % width;
    let py: usize = index / width;
    proof {
        assert(px < width);
        vstd::arithmetic::div_mod::lemma_multiply_divide_lt(
            index as int,
            width as int,
            height as int,
        );
        assert(py < height);
        assert(px * SCALE < width * SCALE) by (nonlinear_arith)
            requires
                px < width,
                SCALE > 0,
        ;
        assert(py * SCALE < height * SCALE) by (nonlinear_arith)
            requires
                py < height,
                SCALE > 0,
        ;
        vstd::arithmetic::div_mod::lemma_multiply_divide_lt(
            px * SCALE,
            width as int,
            SCALE as int,
        );
        vstd::arithmetic::div_mod::lemma_multiply_divide_lt(
            py * SCALE,
            height as int,
            SCALE as int,
        );
        vstd::arithmetic::div_mod::lemma_div_pos_is_pos(px * SCALE, width as int);
        vstd::arithmetic::div_mod::lemma_div_pos_is_pos(py * SCALE, height as int);
    }
    let x: i64 = ((px as i64) * SCALE) / (width as i64);
    let y: i64 = ((py as i64) * SCALE) / (height as i64);
    UV { x, y }
}

/// The pixel column and row that a fractional position falls in.
pub fn uv_to_pixel_coordinates(uv: UV, width: usize, height: usize) -> (r: (i64, i64))
    requires
        0 <= uv.x <= SCALE,
        0 <= uv.y <= SCALE,
        width <= 0x10000,
        height <= 0x10000,
    ensures
        r.0 == tdiv(uv.x * width as int, SCALE as int),
        r.1 == tdiv(uv.y * height as int, SCALE as int),
{
    proof {
        assert(0 <= uv.x * width <= 0x4000_0000_0000_0000) by (nonlinear_arith)
            requires
                0 <= uv.x <= SCALE,
                0 <= width <= 0x10000,
        ;
        assert(0 <= uv.y * height <= 0x4000_0000_0000_0000) by (nonlinear_arith)
            requires
                0 <= uv.y <= SCALE,
                0 <= height <= 0x10000,
        ;
        crate::num::lemma_tdiv_bounded(uv.x * width as int, SCALE as int, 0x4000_0000_0000_0000);
        crate::num::lemma_tdiv_bounded(uv.y * height as int, SCALE as int, 0x4000_0000_0000_0000);
    }
    let x: i64 = (uv.x * (width as i64)) / SCALE;
    let y: i64 = (uv.y * (height as i64)) / SCALE;
    (x, y)
}

/// Degrees to scaled radians.
pub fn rad(deg: i64) -> (r: i64)
    requires
        -360 * SCALE <= deg <= 360 * SCALE,
    ensures
        r == tdiv(deg * crate::pathtrace::PI_FP, 180 * SCALE),
{
    proof {
        crate::vec3::lemma_product_bound(
            deg as int,
            crate::pathtrace::PI_FP as int,
            360 * SCALE as int,
            crate::pathtrace::PI_FP as int,
        );
        assert((360 * SCALE as int) * crate::pathtrace::PI_FP < 0x4000_0000_0000_0000_0000)
            by (nonlinear_arith)
            requires
                SCALE == 1_000_000,
                crate::pathtrace::PI_FP == 3_141_593,
        ;
        crate::num::lemma_tdiv_shrinks(deg * crate::pathtrace::PI_FP, 180 * SCALE as int);
        crate::num::lemma_tdiv_shrinks(-(deg * crate::pathtrace::PI_FP), 180 * SCALE as int);
    }
    let p: i128 = (deg as i128) * (crate::pathtrace::PI_FP as i128);
    proof {
        assert((deg as i128) * (crate::pathtrace::PI_FP as i128) == deg * crate::pathtrace::PI_FP)
            by (nonlinear_arith);
    }
    (p / (180 * SCALE as i128)) as i64
}

/// An identifier for one renderable object of the scene.
#[derive(Clone, Copy, Debug, PartialEq, Eq, Structural)]
pub struct ObjectID {
    pub val: i32,
}

impl ObjectID {
    /// Advances the counter and hands out the fresh identifier.
    pub fn next(&mut self) -> (id: ObjectID)
        requires
            old(self).val < i32::MAX,
        ensures
            final(self).val == old(self).val + 1,
            id.val == old(self).val + 1,
    {
        self.val = self.val + 1;
        ObjectID { val: self.val }
    }
}

impl From<i32> for ObjectID {
    fn from(w: i32) -> (id: ObjectID) {
        ObjectID { val: w }
    }
}

impl vstd::std_specs::convert::FromSpecImpl<i32> for ObjectID {
    open spec fn obeys_from_spec() -> bool {
        true
    }

    open spec fn from_spec(w: i32) -> ObjectID {
        ObjectID { val: w }
    }
}

/// A coordinate axis that cycles round-robin through the available
/// dimensions.
#[derive(Clone, Copy, Debug, PartialEq, Eq, Structural)]
pub struct Axis {
    pub axis: usize,
    pub dimensions: usize,
}

impl Axis {
    /// The first axis of a space with `dimensions` axes.
    pub fn new(dimensions: usize) -> (a: Axis)
        requires
            dimensions >= 1,
        ensures
            a.axis == 0,
            a.dimensions == dimensions,
    {
        Axis { axis: 0, dimensions }
    }

    /// The following axis as a spec value.
    pub open spec fn spec_next(self) -> Axis {
        Axis {
            axis: ((self.axis + 1) % self.dimensions as int) as usize,
            dimensions: self.dimensions,
        }
    }

    /// The following axis, wrapping around after the last one.
    pub fn next(&self) -> (a: Axis)
        requires
            self.axis < self.dimensions,
        ensures
            a == self.spec_next(),
            a.axis == (self.axis + 1) % self.dimensions as int,
            a.dimensions == self.dimensions,
            a.axis < a.dimensions,
    {
        Axis { axis: (self.axis + 1) % self.dimensions, dimensions: self.dimensions }
    }

    /// The conventional letter of the axis.
    pub fn char(self) -> (c: char)
        ensures
            self.axis == 0 ==> c == 'x',
            self.axis == 1 ==> c == 'y',
            self.axis == 2 ==> c == 'z',
            self.axis == 3 ==> c == 't',
            self.axis > 3 ==> c == '?',
    {
        match self.axis {
            0 => 'x',
            1 => 'y',
            2 => 'z',
            3 => 't',
            _ => '?',
        }
    }
}

} // verus!

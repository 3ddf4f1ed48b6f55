//! The sky and ground backdrop: a vertical gradient between the scene's two
//! sky colours, with a procedurally tiled ground plane overlaid for rays
//! pointing below the horizon. The tiling is a pure function of the ray's
//! origin and direction: thin dark grid lines at two spatial frequencies.

use vstd::prelude::*;

use crate::helpers::{clamp_min, col_in_range, lemma_mix_range, mix_col, spec_mix, Col};
use crate::num::{tdiv, POS_MAX, SCALE};
use crate::scene::{ray_wf, scene_wf, sky_wf, Ray, Scene};
use crate::vec3::{lemma_normalize_bounded, spec_normalize};

verus! {

/// Spacing of the coarse ground grid, in scaled world units.
pub const TILE_PERIOD: i64 = 5_000_000;

/// Half-width of a coarse grid line.
pub const TILE_EDGE: i64 = 112_500;

/// Spacing of the fine ground grid.
pub const SMALL_PERIOD: i64 = 1_000_000;

/// Half-width of a fine grid line.
pub const SMALL_EDGE: i64 = 22_500;

/// Height used to fan the grid out from the camera: the ray origin's
/// height above the plane twelve units below the origin, never negative.
pub open spec fn spec_up(r: Ray) -> int {
    if r.pos.z + 12 * SCALE > 0 {
        r.pos.z + 12 * SCALE
    } else {
        0
    }
}

/// The ground-plane grid coordinate that a ray with normalised direction
/// component `d` (and downward component `z > 0`) reads at origin offset
/// `p`.
pub open spec fn spec_ground_coord(p: int, d: int, z: int, up: int) -> int {
    tdiv(d * up, z) - p
}

/// Whether a grid coordinate lies on a line of the grid with the given
/// period and line half-width. The remainder is Euclidean, so the grid is
/// periodic across the whole plane.
pub open spec fn spec_on_line(g: int, period: int, edge: int) -> bool {
    g % period < edge || g % period > period - edge
}

/// Both grids sampled at both ground coordinates: full intensity between
/// the lines, zero on any line.
pub open spec fn spec_tile_factor(gx: int, gy: int) -> int {
    if spec_on_line(gx, TILE_PERIOD as int, TILE_EDGE as int) || spec_on_line(
        gy,
        TILE_PERIOD as int,
        TILE_EDGE as int,
    ) || spec_on_line(gx, SMALL_PERIOD as int, SMALL_EDGE as int) || spec_on_line(
        gy,
        SMALL_PERIOD as int,
        SMALL_EDGE as int,
    ) {
        0
    } else {
        SCALE as int
    }
}

/// The light and dark ground colours.
pub open spec fn spec_ground_light() -> Col {
    Col { r: 800_000i64, g: 800_000i64, b: 800_000i64 }
}

pub open spec fn spec_ground_dark() -> Col {
    Col { r: 200_000i64, g: 300_000i64, b: 400_000i64 }
}

/// The whole backdrop: the vertical gradient for upward rays, the tiled
/// ground for downward rays (`z` grows downwards in the camera frame).
pub open spec fn spec_sky(s: Scene, r: Ray) -> Col {
    let n = spec_normalize(r.dir);
    let m = if n.z >= 0 {
        n.z as int
    } else {
        -n.z as int
    };
    if n.z > 0 {
        let up = spec_up(r);
        let gx = spec_ground_coord(r.pos.x as int, n.x as int, n.z as int, up);
        let gy = spec_ground_coord(r.pos.y as int, n.y as int, n.z as int, up);
        spec_mix(spec_ground_light(), spec_ground_dark(), spec_tile_factor(gx, gy))
    } else {
        spec_mix(s.sky.colors[0], s.sky.colors[1], m)
    }
}

/// The backdrop colour always has channels in `[0, SCALE]`.
pub proof fn lemma_sky_range(s: Scene, r: Ray)
    requires
        sky_wf(s.sky),
        ray_wf(r),
    ensures
        col_in_range(spec_sky(s, r), 0, SCALE as int),
{
    lemma_normalize_bounded(r.dir);
    let n = spec_normalize(r.dir);
    let m = if n.z >= 0 {
        n.z as int
    } else {
        -n.z as int
    };
    lemma_mix_range(s.sky.colors[0], s.sky.colors[1], m);
    let up = spec_up(r);
    let gx = spec_ground_coord(r.pos.x as int, n.x as int, n.z as int, up);
    let gy = spec_ground_coord(r.pos.y as int, n.y as int, n.z as int, up);
    lemma_mix_range(spec_ground_light(), spec_ground_dark(), spec_tile_factor(gx, gy));
}

/// The backdrop of a ray: the sky gradient, or the tiled ground plane
/// below the horizon.
pub fn sky_box(scene: &Scene, ray: &Ray) -> (col: Col)
    requires
        scene_wf(*scene),
        ray_wf(*ray),
    ensures
        col == spec_sky(*scene, *ray),
        col_in_range(col, 0, SCALE as int),
{
    proof {
        lemma_sky_range(*scene, *ray);
        lemma_normalize_bounded(ray.dir);
    }
    let n = ray.dir.normalize();
    let m: i64 = if n.z >= 0 {
        n.z
    } else {
        -n.z
    };
    if n.z > 0 {
        let up: i64 = clamp_min(ray.pos.z + 12 * SCALE, 0);
        let gx: i64 = ground_coord(ray.pos.x, n.x, n.z, up);
        let gy: i64 = ground_coord(ray.pos.y, n.y, n.z, up);
        let factor: i64 = if on_line(gx, TILE_PERIOD, TILE_EDGE) || on_line(
            gy,
            TILE_PERIOD,
            TILE_EDGE,
        ) || on_line(gx, SMALL_PERIOD, SMALL_EDGE) || on_line(gy, SMALL_PERIOD, SMALL_EDGE) {
            0
        } else {
            SCALE
        };
        let light = Col { r: 800_000, g: 800_000, b: 800_000 };
        let dark = Col { r: 200_000, g: 300_000, b: 400_000 };
        mix_col(light, dark, factor)
    } else {
        mix_col(scene.sky.colors[0], scene.sky.colors[1], m)
    }
}

/// One ground-plane coordinate, computed in 128 bits.
fn ground_coord(p: i64, d: i64, z: i64, up: i64) -> (g: i64)
    requires
        -POS_MAX as int <= p <= POS_MAX as int,
        -SCALE as int <= d <= SCALE as int,
        0 < z <= SCALE,
        0 <= up <= POS_MAX as int + 12 * SCALE as int,
    ensures
        g == spec_ground_coord(p as int, d as int, z as int, up as int),
        -0x1000_0000_0000_0000 <= g <= 0x1000_0000_0000_0000,
{
    proof {
        crate::vec3::lemma_product_bound(
            d as int,
            up as int,
            SCALE as int,
            POS_MAX as int + 12 * SCALE as int,
        );
        assert(SCALE as int * (POS_MAX as int + 12 * SCALE as int) < 0x1000_0000_0000_0000_0000)
            by (nonlinear_arith);
        crate::num::lemma_tdiv_bounded(
            d * up,
            z as int,
            SCALE as int * (POS_MAX as int + 12 * SCALE as int),
        );
        crate::num::lemma_tdiv_shrinks(
            SCALE as int * (POS_MAX as int + 12 * SCALE as int),
            z as int,
        );
        assert((d as i128) * (up as i128) == d * up) by (nonlinear_arith);
    }
    let q: i128 = (d as i128) * (up as i128) / (z as i128);
    (q as i64) - p
}

/// Whether `g` falls on a grid line, using the Euclidean remainder.
fn on_line(g: i64, period: i64, edge: i64) -> (r: bool)
    requires
        0 < period,
        0 < edge < period,
        period < 0x1000_0000,
        -0x7fff_ffff_f000_0000 <= g <= 0x7fff_ffff_f000_0000,
    ensures
        r == spec_on_line(g as int, period as int, edge as int),
{
    proof {
        lemma_trunc_rem(g as int, period as int);
        crate::num::lemma_tdiv_shrinks(g as int, period as int);
    }
    let q: i64 = g / period;
    proof {
        assert(q * period == period * tdiv(g as int, period as int)) by (nonlinear_arith)
            requires
                q == tdiv(g as int, period as int),
        ;
        assert(-period < g - period * tdiv(g as int, period as int) < period);
    }
    let m0: i64 = g - q * period;
    let m: i64 = if m0 < 0 {
        m0 + period
    } else {
        m0
    };
    m < edge || m > period - edge
}

/// Relates the truncating remainder `g - period * tdiv(g, period)` to the
/// Euclidean remainder `g % period`: they agree for `g >= 0`, and differ
/// by one modulus for negative `g` off a multiple.
proof fn lemma_trunc_rem(g: int, period: int)
    requires
        period > 0,
    ensures
        ({
            let m0 = g - period * tdiv(g, period);
            &&& -period < m0 < period
            &&& (m0 >= 0 ==> g % period == m0)
            &&& (m0 < 0 ==> g % period == m0 + period)
        }),
{
    let m0 = g - period * tdiv(g, period);
    if g >= 0 {
        vstd::arithmetic::div_mod::lemma_fundamental_div_mod(g, period);
        vstd::arithmetic::div_mod::lemma_mod_division_less_than_divisor(g, period);
        assert(m0 == g % period);
    } else {
        vstd::arithmetic::div_mod::lemma_fundamental_div_mod(-g, period);
        vstd::arithmetic::div_mod::lemma_mod_division_less_than_divisor(-g, period);
        let q = (-g) / period;
        let r = (-g) % period;
        assert(-g == period * q + r);
        assert(tdiv(g, period) == -q);
        assert(m0 == g + period * q) by (nonlinear_arith)
            requires
                m0 == g - period * (-q),
        ;
        assert(m0 == -r);
        if r == 0 {
            assert(g == (-q) * period + 0) by (nonlinear_arith)
                requires
                    -g == period * q,
            ;
            vstd::arithmetic::div_mod::lemma_fundamental_div_mod_converse_mod(g, period, -q, 0);
        } else {
            assert(g == (-q - 1) * period + (period - r)) by (nonlinear_arith)
                requires
                    -g == period * q + r,
            ;
            vstd::arithmetic::div_mod::lemma_fundamental_div_mod_converse_mod(
                g,
                period,
                -q - 1,
                period - r,
            );
        }
    }
}

} // verus!

//! The progressive accumulation buffer: per pixel a running sum of squared
//! linear radiance samples, plus one frame counter shared by the whole
//! image. Tone mapping divides by the counter, takes the square root to
//! undo the squaring, clamps and packs to one word per pixel.

use vstd::prelude::*;

use crate::helpers::{clamp, col_in_range, col_to_rgb_u32, spec_channel_byte, spec_clamp, Col};
use crate::num::{int_sqrt, isqrt, tdiv, SCALE};

verus! {

/// Largest accepted radiance channel of one sample.
pub const RAD_CAP: i64 = 0x2000_0000;

/// Largest squared sample channel, after rescaling.
pub const SQ_CAP: i64 = 0x100_0000_0000;

/// Largest accepted frame count.
pub const COUNT_CAP: u32 = 0x40_0000;

/// The squared radiance that one sample channel adds to its sum.
pub open spec fn spec_sq(c: int) -> int {
    tdiv(c * c, SCALE as int)
}

/// A per-pixel running sum of squared samples and the shared frame
/// counter.
pub struct RenderBuffer {
    pub sums: Vec<Col>,
    pub sample_count: u32,
}

/// The buffer invariant: the counter is within its cap and every channel
/// sum is nonnegative and bounded by the counter times the per-sample
/// cap, so the next frame cannot overflow.
pub open spec fn buffer_wf(b: RenderBuffer) -> bool {
    &&& b.sample_count <= COUNT_CAP
    &&& forall|i: int|
        0 <= i < b.sums@.len() ==> col_in_range(
            #[trigger] b.sums@[i],
            0,
            b.sample_count as int * SQ_CAP as int,
        )
}

/// One accumulation step: the counter advances by exactly one (whatever
/// the resolution), and every channel sum grows by the squared sample.
pub open spec fn accum_step(pre: RenderBuffer, post: RenderBuffer, frame: Seq<Col>) -> bool {
    &&& pre.sums@.len() == frame.len()
    &&& post.sums@.len() == frame.len()
    &&& post.sample_count == pre.sample_count + 1
    &&& forall|i: int|
        0 <= i < frame.len() ==> {
            &&& (#[trigger] post.sums@[i]).r == pre.sums@[i].r + spec_sq(frame[i].r as int)
            &&& post.sums@[i].g == pre.sums@[i].g + spec_sq(frame[i].g as int)
            &&& post.sums@[i].b == pre.sums@[i].b + spec_sq(frame[i].b as int)
        }
}

/// A squared in-range sample channel stays within the per-sample cap.
proof fn lemma_sq_cap(c: int)
    requires
        0 <= c <= RAD_CAP,
    ensures
        0 <= c * c <= 0x4000_0000_0000_0000,
        0 <= spec_sq(c) <= SQ_CAP,
{
    crate::vec3::lemma_product_bound(c, c, RAD_CAP as int, RAD_CAP as int);
    assert(c * c >= 0) by (nonlinear_arith);
    assert(RAD_CAP as int * RAD_CAP as int <= 0x4000_0000_0000_0000) by (nonlinear_arith)
        requires
            RAD_CAP == 0x2000_0000,
    ;
    crate::num::lemma_tdiv_bounded(c * c, SCALE as int, RAD_CAP as int * RAD_CAP as int);
    crate::num::lemma_tdiv_shrinks(RAD_CAP as int * RAD_CAP as int, SCALE as int);
    assert(tdiv(RAD_CAP as int * RAD_CAP as int, SCALE as int) <= SQ_CAP as int) by {
        vstd::arithmetic::div_mod::lemma_div_is_ordered(
            RAD_CAP as int * RAD_CAP as int,
            SQ_CAP as int * SCALE as int,
            SCALE as int,
        );
        vstd::arithmetic::div_mod::lemma_div_by_multiple(SQ_CAP as int, SCALE as int);
        assert(RAD_CAP as int * RAD_CAP as int <= SQ_CAP as int * SCALE as int && SQ_CAP as int
            * SCALE as int == SCALE as int * SQ_CAP as int) by (nonlinear_arith)
            requires
                RAD_CAP == 0x2000_0000,
                SQ_CAP == 0x100_0000_0000,
                SCALE == 1_000_000,
        ;
    }
}

/// A channel sum within the invariant plus one more squared sample fits
/// the next invariant bound.
proof fn lemma_sum_grows(sum: int, sq: int, count: int)
    requires
        0 <= sq <= SQ_CAP,
        0 <= count < COUNT_CAP,
        0 <= sum <= count * SQ_CAP as int,
    ensures
        0 <= sum + sq <= (count + 1) * SQ_CAP as int,
        sum + sq <= i64::MAX,
{
    assert((count + 1) * SQ_CAP as int == count * SQ_CAP as int + SQ_CAP as int)
        by (nonlinear_arith);
    assert((count + 1) * SQ_CAP as int <= 0x40_0001int * 0x100_0000_0000) by (nonlinear_arith)
        requires
            count + 1 <= 0x40_0001,
            SQ_CAP == 0x100_0000_0000,
    ;
}

impl RenderBuffer {
    /// A cleared buffer for `size` pixels.
    pub fn new(size: usize) -> (b: RenderBuffer)
        ensures
            buffer_wf(b),
            b.sums@.len() == size,
            b.sample_count == 0,
            forall|i: int|
                0 <= i < size ==> #[trigger] b.sums@[i] == (Col { r: 0i64, g: 0i64, b: 0i64 }),
    {
        let mut sums: Vec<Col> = Vec::new();
        let mut k: usize = 0;
        while k < size
            invariant
                k <= size,
                sums@.len() == k,
                forall|i: int|
                    0 <= i < k ==> #[trigger] sums@[i] == (Col { r: 0i64, g: 0i64, b: 0i64 }),
            decreases size - k,
        {
            sums.push(Col { r: 0, g: 0, b: 0 });
            k = k + 1;
        }
        RenderBuffer { sums, sample_count: 0 }
    }

    /// Clears the sums and the counter; the pixel count is kept. Called
    /// whenever the camera, the lens or a render mode changes.
    pub fn reset(&mut self)
        ensures
            buffer_wf(*final(self)),
            final(self).sums@.len() == old(self).sums@.len(),
            final(self).sample_count == 0,
            forall|i: int|
                0 <= i < final(self).sums@.len() ==> #[trigger] final(self).sums@[i] == (Col {
                    r: 0i64,
                    g: 0i64,
                    b: 0i64,
                }),
    {
        let size = self.sums.len();
        let cleared = RenderBuffer::new(size);
        self.sums = cleared.sums;
        self.sample_count = 0;
    }

    /// Folds one frame of radiance samples into the buffer: each channel
    /// sum grows by the squared sample, and the frame counter advances by
    /// exactly one, however many pixels there are.
    pub fn add_frame(&mut self, frame: &Vec<Col>)
        requires
            buffer_wf(*old(self)),
            frame@.len() == old(self).sums@.len(),
            old(self).sample_count < COUNT_CAP,
            forall|i: int| 0 <= i < frame@.len() ==> col_in_range(#[trigger] frame@[i], 0, RAD_CAP as int),
        ensures
            buffer_wf(*final(self)),
            accum_step(*old(self), *final(self), frame@),
    {
        let n = self.sums.len();
        let mut k: usize = 0;
        while k < n
            invariant
                n == old(self).sums@.len(),
                n == frame@.len(),
                self.sums@.len() == n,
                self.sample_count == old(self).sample_count,
                old(self).sample_count < COUNT_CAP,
                buffer_wf(*old(self)),
                forall|i: int| 0 <= i < n ==> col_in_range(#[trigger] frame@[i], 0, RAD_CAP as int),
                k <= n,
                forall|i: int| k <= i < n ==> #[trigger] self.sums@[i] == old(self).sums@[i],
                forall|i: int|
                    0 <= i < k ==> {
                        &&& (#[trigger] self.sums@[i]).r == old(self).sums@[i].r + spec_sq(
                            frame@[i].r as int,
                        )
                        &&& self.sums@[i].g == old(self).sums@[i].g + spec_sq(frame@[i].g as int)
                        &&& self.sums@[i].b == old(self).sums@[i].b + spec_sq(frame@[i].b as int)
                        &&& col_in_range(
                            self.sums@[i],
                            0,
                            (old(self).sample_count + 1) * SQ_CAP as int,
                        )
                    },
            decreases n - k,
        {
            let sample = frame[k];
            proof {
                lemma_sq_cap(sample.r as int);
                lemma_sq_cap(sample.g as int);
                lemma_sq_cap(sample.b as int);
                lemma_sum_grows(
                    self.sums@[k as int].r as int,
                    spec_sq(sample.r as int),
                    self.sample_count as int,
                );
                lemma_sum_grows(
                    self.sums@[k as int].g as int,
                    spec_sq(sample.g as int),
                    self.sample_count as int,
                );
                lemma_sum_grows(
                    self.sums@[k as int].b as int,
                    spec_sq(sample.b as int),
                    self.sample_count as int,
                );
            }
            let prev = self.sums[k];
            let updated = Col {
                r: prev.r + crate::num::mul_fp(sample.r, sample.r),
                g: prev.g + crate::num::mul_fp(sample.g, sample.g),
                b: prev.b + crate::num::mul_fp(sample.b, sample.b),
            };
            self.sums.set(k, updated);
            k = k + 1;
        }
        self.sample_count = self.sample_count + 1;
        proof {
            assert forall|i: int|
                0 <= i < self.sums@.len() implies col_in_range(
                #[trigger] self.sums@[i],
                0,
                self.sample_count as int * SQ_CAP as int,
            ) by {
                assert(col_in_range(
                    self.sums@[i],
                    0,
                    (old(self).sample_count + 1) * SQ_CAP as int,
                ));
            }
        }
    }

    /// The displayed value of one channel sum after `n` frames:
    /// `clamp(sqrt(sum / n), 0, 1)`, scaled.
    pub open spec fn spec_display_channel(sum: int, n: int) -> int {
        spec_clamp(int_sqrt(tdiv(sum, n) * SCALE), 0, SCALE as int)
    }

    /// Tone-maps the buffer to one packed `0x00RRGGBB` word per pixel.
    pub fn tone_map(&self) -> (out: Vec<u32>)
        requires
            buffer_wf(*self),
            1 <= self.sample_count,
        ensures
            out@.len() == self.sums@.len(),
            forall|i: int|
                0 <= i < out@.len() ==> #[trigger] out@[i] as int == {
                    let n = self.sample_count as int;
                    let s = self.sums@[i];
                    spec_channel_byte(Self::spec_display_channel(s.r as int, n)) * 0x10000
                        + spec_channel_byte(Self::spec_display_channel(s.g as int, n)) * 0x100
                        + spec_channel_byte(Self::spec_display_channel(s.b as int, n))
                },
    {
        let mut out: Vec<u32> = Vec::new();
        let n = self.sums.len();
        for i in 0..n
            invariant
                n == self.sums@.len(),
                buffer_wf(*self),
                1 <= self.sample_count,
                out@.len() == i,
                forall|j: int|
                    0 <= j < i ==> #[trigger] out@[j] as int == {
                        let c = self.sample_count as int;
                        let s = self.sums@[j];
                        spec_channel_byte(Self::spec_display_channel(s.r as int, c)) * 0x10000
                            + spec_channel_byte(Self::spec_display_channel(s.g as int, c)) * 0x100
                            + spec_channel_byte(Self::spec_display_channel(s.b as int, c))
                    },
        {
            let s = self.sums[i];
            let dr = display_channel(s.r, self.sample_count);
            let dg = display_channel(s.g, self.sample_count);
            let db = display_channel(s.b, self.sample_count);
            let word = col_to_rgb_u32(Col { r: dr, g: dg, b: db });
            out.push(word);
        }
        out
    }
}

/// One tone-mapped channel.
fn display_channel(sum: i64, count: u32) -> (d: i64)
    requires
        1 <= count,
        0 <= sum,
    ensures
        d == RenderBuffer::spec_display_channel(sum as int, count as int),
        0 <= d <= SCALE,
{
    proof {
        crate::num::lemma_tdiv_shrinks(sum as int, count as int);
    }
    let avg: i64 = sum / (count as i64);
    proof {
        assert((avg as i128) * (SCALE as i128) == avg * SCALE) by (nonlinear_arith);
        assert(avg * SCALE < 0x8_0000_0000_0000_0000_0000 && avg * SCALE >= 0) by (nonlinear_arith)
            requires
                0 <= avg <= 0x7fff_ffff_ffff_ffff,
                SCALE == 1_000_000,
        ;
        assert(0x8_0000_0000_0000_0000_0000 < crate::num::SQRT_DOM as int);
    }
    let scaled: i128 = (avg as i128) * (SCALE as i128);
    let root: u64 = isqrt(scaled as u128);
    proof {
        let avg_g = tdiv(sum as int, count as int);
        assert(root as int == int_sqrt(avg_g * SCALE));
        crate::num::lemma_int_sqrt_exists(avg_g * SCALE);
        if root > 0x7fff_ffff_ffff_ffffu64 {
            assert(root * root >= 0x8_0000_0000_0000_0000_0000) by (nonlinear_arith)
                requires
                    root >= 0x8000_0000_0000_0000u64,
            ;
            assert(false);
        }
    }
    clamp(root as i64, 0, SCALE)
}

/// Folding the same deterministic frame twice into a cleared buffer gives
/// sums exactly double those after one frame, and a frame count of two:
/// the accumulation update is additive and counts one per frame.
pub proof fn lemma_accumulation_doubles(
    b0: RenderBuffer,
    b1: RenderBuffer,
    b2: RenderBuffer,
    frame: Seq<Col>,
)
    requires
        b0.sample_count == 0,
        forall|i: int|
            0 <= i < b0.sums@.len() ==> #[trigger] b0.sums@[i] == (Col {
                r: 0i64,
                g: 0i64,
                b: 0i64,
            }),
        accum_step(b0, b1, frame),
        accum_step(b1, b2, frame),
    ensures
        b1.sample_count == 1,
        b2.sample_count == 2,
        forall|i: int|
            0 <= i < frame.len() ==> (#[trigger] b2.sums@[i]).r == 2 * b1.sums@[i].r
                && b2.sums@[i].g == 2 * b1.sums@[i].g && b2.sums@[i].b == 2 * b1.sums@[i].b,
{
    assert forall|i: int|
        0 <= i < frame.len() implies (#[trigger] b2.sums@[i]).r == 2 * b1.sums@[i].r
        && b2.sums@[i].g == 2 * b1.sums@[i].g && b2.sums@[i].b == 2 * b1.sums@[i].b by {
        assert(b0.sums@[i].r == 0);
        assert(b1.sums@[i].r == spec_sq(frame[i].r as int));
        assert(b2.sums@[i].r == b1.sums@[i].r + spec_sq(frame[i].r as int));
    }
}

} // verus!

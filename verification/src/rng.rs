//! A small deterministic pseudo-random stream, one per rendering task, so
//! that a pixel's sample sequence is reproducible from its seed. The state
//! update and output mixing follow the additive-constant / multiply-xor
//! scheme of the splitmix generator.

use vstd::prelude::*;

verus! {

/// Additive state constant.
pub const STATE_STEP: u64 = 0x9E37_79B9_7F4A_7C15;

/// First output multiplier.
pub const MIX_MUL_1: u64 = 0xBF58_476D_1CE4_E5B9;

/// Second output multiplier.
pub const MIX_MUL_2: u64 = 0x94D0_49BB_1331_11EB;

/// The state after one draw.
pub open spec fn spec_next_state(s: u64) -> u64 {
    vstd::wrapping::u64_specs::wrapping_add(s, STATE_STEP)
}

/// The value one draw hands out for state `s`.
pub open spec fn spec_output(s: u64) -> u64 {
    let z1 = s ^ (s >> 30u64);
    let z2 = vstd::wrapping::u64_specs::wrapping_mul(z1, MIX_MUL_1);
    let z3 = z2 ^ (z2 >> 27u64);
    let z4 = vstd::wrapping::u64_specs::wrapping_mul(z3, MIX_MUL_2);
    z4 ^ (z4 >> 31u64)
}

/// A deterministic pseudo-random stream.
#[derive(Clone, Copy, Debug, PartialEq, Eq, Structural)]
pub struct Prng {
    pub state: u64,
}

/// Relies on rand::random::<u64>: one draw from the thread-local
/// generator, used only to seed a stream; nothing is promised of the
/// value.
#[verifier::external_body]
fn entropy_u64() -> u64 {
    rand::random::<u64>()
}

impl Prng {
    /// A stream that will replay exactly for the same seed.
    pub fn from_seed(seed: u64) -> (r: Prng)
        ensures
            r.state == seed,
    {
        Prng { state: seed }
    }

    /// A stream seeded from the process's entropy source.
    pub fn from_entropy() -> Prng {
        Prng { state: entropy_u64() }
    }

    /// One raw draw.
    pub fn next_u64(&mut self) -> (r: u64)
        ensures
            final(self).state == spec_next_state(old(self).state),
            r == spec_output(spec_next_state(old(self).state)),
    {
        self.state = self.state.wrapping_add(STATE_STEP);
        let z1: u64 = self.state ^ (self.state >> 30);
        let z2: u64 = z1.wrapping_mul(MIX_MUL_1);
        let z3: u64 = z2 ^ (z2 >> 27);
        let z4: u64 = z3.wrapping_mul(MIX_MUL_2);
        z4 ^ (z4 >> 31)
    }

    /// A draw mapped into `[lo, hi)`.
    pub fn gen_range(&mut self, lo: i64, hi: i64) -> (r: i64)
        requires
            lo < hi,
        ensures
            lo <= r < hi,
            final(self).state == spec_next_state(old(self).state),
            r == lo + spec_output(spec_next_state(old(self).state)) % ((hi - lo) as u64),
    {
        let span: u64 = ((hi as i128) - (lo as i128)) as u64;
        let m: u64 = self.next_u64() % span;
        proof {
            assert(m < span);
        }
        ((lo as i128) + (m as i128)) as i64
    }
}

} // verus!

//! A small counter-based pseudo-random generator whose whole state is one `u64`.

use vstd::prelude::*;

verus! {

/// Added to the state before every draw.
pub const INCREMENT: u64 = 0xA0761D6478BD642F;

/// Mixed into the second factor of the output product.
pub const MIX: u64 = 0xE7037ED1A0B428DB;

/// The state that follows `s`.
pub open spec fn advance(s: u64) -> u64 {
    s.wrapping_add(INCREMENT)
}

/// The value produced from the (already advanced) state `s`: the full
/// 128-bit product `s * (s ^ MIX)`, low half XOR high half.
pub open spec fn mix(s: u64) -> u64 {
    let t: int = s as int * (s ^ MIX) as int;
    ((t % 0x1_0000_0000_0000_0000) as u64) ^ ((t / 0x1_0000_0000_0000_0000) as u64)
}

/// The value drawn from state `s`.
pub open spec fn output(s: u64) -> u64 {
    mix(advance(s))
}

/// The state after `k` draws starting from `s`.
pub open spec fn state_after(s: u64, k: nat) -> u64
    decreases k,
{
    if k == 0 {
        s
    } else {
        advance(state_after(s, (k - 1) as nat))
    }
}

/// The value that `range(low, high)` yields on state `s`.
pub open spec fn range_output(s: u64, low: u8, high: u8) -> u8
    recommends
        low < high,
{
    (low + output(s) % (high - low) as u64) as u8
}

/// Generator state, threaded explicitly through every draw.
pub struct Rng {
    pub state: u64,
}

impl Rng {
    pub fn new(seed: u64) -> (r: Rng)
        ensures
            r.state == seed,
    {
        Rng { state: seed }
    }

    /// Advances the state and returns the mixed value of the new state.
    pub fn gen(&mut self) -> (r: u64)
        ensures
            final(self).state == advance(old(self).state),
            r == output(old(self).state),
    {
        let s = self.state.wrapping_add(INCREMENT);
        self.state = s;
        let a: u128 = s as u128;
        let b: u128 = (s ^ MIX) as u128;
        proof {
            assert(a * b <= 0xFFFF_FFFF_FFFF_FFFF * 0xFFFF_FFFF_FFFF_FFFF) by (nonlinear_arith)
                requires
                    a <= 0xFFFF_FFFF_FFFF_FFFF,
                    b <= 0xFFFF_FFFF_FFFF_FFFF,
            ;
        }
        let t: u128 = a * b;
        let lo: u64 = #[verifier::truncate] (t as u64);
        let hi: u64 = #[verifier::truncate] ((t >> 64) as u64);
        proof {
            assert(lo == t % 0x1_0000_0000_0000_0000) by (bit_vector)
                requires
                    lo == #[verifier::truncate] (t as u64),
            ;
            assert(hi == t / 0x1_0000_0000_0000_0000) by (bit_vector)
                requires
                    hi == #[verifier::truncate] ((t >> 64) as u64),
            ;
        }
        lo ^ hi
    }

    /// Draws one value and reduces it into `[low, high)`.
    pub fn gen_range(&mut self, low: u8, high: u8) -> (r: u8)
        requires
            low < high,
        ensures
            final(self).state == advance(old(self).state),
            r == range_output(old(self).state, low, high),
            low <= r < high,
    {
        let v = self.gen();
        let m: u64 = v % ((high - low) as u64);
        low + m as u8
    }
}

} // verus!

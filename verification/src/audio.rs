//! Minimal pseudo-random generator for procedural sound.

use vstd::prelude::*;

verus! {

/// One xorshift32 step.
pub open spec fn spec_xorshift(s: u32) -> u32 {
    let a = s ^ (s << 13u32);
    let b = a ^ (a >> 17u32);
    b ^ (b << 5u32)
}

/// Xorshift32 generator. Its state is never 0 (0 is the one fixed point of the step).
pub struct Xorshift32 {
    state: u32,
}

impl Xorshift32 {
    #[verifier::type_invariant]
    spec fn state_nonzero(self) -> bool {
        self.state != 0
    }

    /// Current state.
    pub closed spec fn state(self) -> u32 {
        self.state
    }

    /// New generator; a zero seed becomes 1.
    pub fn new(seed: u32) -> (g: Xorshift32)
        ensures
            g.state() == (if seed == 0 {
                1u32
            } else {
                seed
            }),
    {
        Xorshift32 {
            state: if seed >= 1 {
                seed
            } else {
                1
            },
        }
    }

    /// Advance one xorshift step and return the new state.
    pub fn next_u32(&mut self) -> (r: u32)
        ensures
            r == spec_xorshift(old(self).state()),
            final(self).state() == r,
            r != 0,
    {
        proof {
            use_type_invariant(&*self);
        }
        let s0 = self.state;
        proof {
            lemma_xorshift_nonzero(s0);
        }
        let mut s = s0;
        s = s ^ (s << 13u32);
        s = s ^ (s >> 17u32);
        s = s ^ (s << 5u32);
        self.state = s;
        s
    }
}

/// The xorshift step never reaches 0 from a nonzero state.
pub proof fn lemma_xorshift_nonzero(s: u32)
    by (bit_vector)
    requires
        s != 0,
    ensures
        spec_xorshift(s) != 0,
{
}

} // verus!

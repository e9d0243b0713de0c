//! The tiny xorshift generator behind the synthesized sound effects' noise bursts (so a one-off
//! crack of noise needs no random-number dependency). Turning its 32-bit states into samples in
//! -1..1 is floating point and is done by the caller.
use vstd::prelude::*;

verus! {

/// Marsaglia's 32-bit xorshift step with shifts 13, 17, 5.
pub open spec fn xorshift32(x: u32) -> u32 {
    let a = x ^ (x << 13u32);
    let b = a ^ (a >> 17u32);
    b ^ (b << 5u32)
}

/// A xorshift generator; the field is its current state.
pub struct Xorshift(pub u32);

impl Xorshift {
    /// Advances the generator one step and returns the new state.
    pub fn next_bits(&mut self) -> (r: u32)
        ensures
            r == xorshift32(old(self).0),
            final(self).0 == r,
    {
        let mut x = self.0;
        x = x ^ (x << 13u32);
        x = x ^ (x >> 17u32);
        x = x ^ (x << 5u32);
        self.0 = x;
        x
    }
}

/// A generator seeded with a nonzero state never reaches the all-zero state, where it would
/// stay for ever (each of the three xor-shifts is invertible and maps zero to zero).
pub proof fn lemma_xorshift_nonzero(x: u32)
    requires
        x != 0,
    ensures
        xorshift32(x) != 0,
{
    let a = x ^ (x << 13u32);
    assert(a != 0) by (bit_vector)
        requires
            x != 0,
            a == x ^ (x << 13u32),
    ;
    let b = a ^ (a >> 17u32);
    assert(b != 0) by (bit_vector)
        requires
            a != 0,
            b == a ^ (a >> 17u32),
    ;
    let c = b ^ (b << 5u32);
    assert(c != 0) by (bit_vector)
        requires
            b != 0,
            c == b ^ (b << 5u32),
    ;
}

} // verus!

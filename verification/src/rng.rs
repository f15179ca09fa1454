use vstd::prelude::*;

verus! {

/// One step of the xorshift generator.
pub open spec fn xorshift(x: u64) -> u64 {
    let a = x ^ (x << 13u64);
    let b = a ^ (a >> 7u64);
    b ^ (b << 17u64)
}

/// The state after `n` steps from `x`.
pub open spec fn xorshift_n(x: u64, n: nat) -> u64
    decreases n,
{
    if n == 0 {
        x
    } else {
        xorshift(xorshift_n(x, (n - 1) as nat))
    }
}

/// The fixed seed that every generator starts from.
pub const XORSHIFT_SEED: u64 = 0x4F52_414E_4A46_4D54u64;

/// A small deterministic pseudo-random generator (xorshift64).
#[derive(Clone, Copy, Debug, PartialEq, Eq)]
pub struct XorShiftState {
    pub state: u64,
}

impl XorShiftState {
    pub fn new() -> (r: XorShiftState)
        ensures
            r.state == XORSHIFT_SEED,
    {
        XorShiftState { state: XORSHIFT_SEED }
    }

    /// The next output, together with the advanced generator.
    pub fn next_self(self) -> (r: (u64, XorShiftState))
        ensures
            r.0 == xorshift(self.state),
            r.1.state == xorshift(self.state),
    {
        let mut x = self.state;
        x ^= x << 13;
        x ^= x >> 7;
        x ^= x << 17;
        (x, XorShiftState { state: x })
    }

    /// Advances the generator and returns its new state.
    pub fn random(&mut self) -> (r: u64)
        ensures
            r == xorshift(old(self).state),
            final(self).state == r,
    {
        let (x, next) = self.next_self();
        *self = next;
        x
    }

    /// A random word with few set bits: the AND of three outputs.
    pub fn random_few_bits(&mut self) -> (r: u64)
        ensures
            final(self).state == xorshift_n(old(self).state, 3),
            r == xorshift_n(old(self).state, 1) & xorshift_n(old(self).state, 2) & xorshift_n(old(self).state, 3),
    {
        let a = self.random();
        let b = self.random();
        let c = self.random();
        proof {
            reveal_with_fuel(xorshift_n, 4);
        }
        a & b & c
    }
}

} // verus!

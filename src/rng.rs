use vstd::prelude::*;

verus! {

/// State used in place of a zero seed, which xorshift would never leave.
pub const DEFAULT_STATE: u64 = 0x9E37_79B9_7F4A_7C15;

/// One xorshift64 step.
pub open spec fn next_state(x: u64) -> u64 {
    let a = x ^ (x << 13u64);
    let b = a ^ (a >> 7u64);
    b ^ (b << 17u64)
}

pub open spec fn seed_state(seed: u64) -> u64 {
    if seed == 0 { DEFAULT_STATE } else { seed }
}

/// A seeded xorshift64 generator: the random source of a simulation.
/// Two generators built from the same seed yield the same numbers.
#[derive(Debug, Clone, Copy)]
pub struct Rng64 {
    pub state: u64,
}

impl Rng64 {
    pub fn new(seed: u64) -> (r: Rng64)
        ensures
            r.state == seed_state(seed),
    {
        let state = if seed == 0 { DEFAULT_STATE } else { seed };
        Rng64 { state }
    }

    /// Advances the generator and returns its new state.
    pub fn next_u64(&mut self) -> (r: u64)
        ensures
            final(self).state == next_state(old(self).state),
            r == final(self).state,
    {
        let x = self.state;
        let a = x ^ (x << 13u64);
        let b = a ^ (a >> 7u64);
        let c = b ^ (b << 17u64);
        self.state = c;
        c
    }

    /// A number below `n`, from one step of the generator.
    pub fn below(&mut self, n: u64) -> (r: u64)
        requires
            n > 0,
        ensures
            final(self).state == next_state(old(self).state),
            r == next_state(old(self).state) % n,
            r < n,
    {
        let x = self.next_u64();
        x % n
    }
}

} // verus!

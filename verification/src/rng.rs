//! Pseudo-random generator used for mine placement: the xorshift64
//! transform over a 64-bit state, plus modulo-based range sampling.

use vstd::prelude::*;

verus! {

/// One step of the xorshift64 transform.
pub open spec fn xorshift64(x: u64) -> u64 {
    let a = x ^ (x << 13);
    let b = a ^ (a >> 7);
    b ^ (b << 17)
}

/// Deterministic pseudo-random generator. The state is the last value
/// produced; a zero seed yields the degenerate all-zero stream, so seed
/// sources must supply a non-zero seed.
pub struct Rng {
    pub seed: u64,
}

impl Rng {
    pub fn new(seed: u64) -> (r: Self)
        ensures
            r.seed == seed,
    {
        Self { seed }
    }

    /// Advances the state by one xorshift64 step and returns it.
    pub fn next(&mut self) -> (r: u64)
        ensures
            r == xorshift64(old(self).seed),
            final(self).seed == r,
    {
        let mut x = self.seed;
        x = x ^ (x << 13);
        x = x ^ (x >> 7);
        x = x ^ (x << 17);
        self.seed = x;
        x
    }

    /// Draws from `[lo, hi)` as `lo + next() % (hi - lo)`. The modulo
    /// introduces slight non-uniformity when `hi - lo` does not divide
    /// 2^64 evenly; that bias is part of the generator's behaviour and
    /// is kept as such.
    pub fn next_in_range(&mut self, lo: usize, hi: usize) -> (r: usize)
        requires
            lo < hi,
        ensures
            r == lo + xorshift64(old(self).seed) % ((hi - lo) as u64),
            final(self).seed == xorshift64(old(self).seed),
            lo <= r < hi,
    {
        let start = lo as u64;
        let end = hi as u64;
        let draw = self.next();
        let m = draw % (end - start);
        assert(start + m < end);
        (start + m) as usize
    }
}

} // verus!

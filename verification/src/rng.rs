use vstd::prelude::*;

verus! {

pub const LCG_MUL: u64 = 6364136223846793005;
pub const LCG_ADD: u64 = 1442695040888963407;

/// The successor state of the linear congruential generator.
pub open spec fn lcg_next_spec(s: u64) -> u64 {
    ((s as int * LCG_MUL as int + LCG_ADD as int) % 0x1_0000_0000_0000_0000) as u64
}

/// The value drawn from a state: the high half mixes better than the low.
pub open spec fn lcg_out_spec(s: u64) -> u64 {
    lcg_next_spec(s) >> 24
}

/// Deterministic pseudo-random source, owned by the simulation context and
/// passed explicitly so that runs with the same seed are reproducible.
pub struct Rng {
    pub state: u64,
}

impl Rng {
    pub fn new(seed: u64) -> (r: Rng)
        ensures
            r.state == seed,
    {
        Rng { state: seed }
    }

    pub fn next_u64(&mut self) -> (r: u64)
        ensures
            final(self).state == lcg_next_spec(old(self).state),
            r == lcg_out_spec(old(self).state),
    {
        let next: u64 = self.state.wrapping_mul(LCG_MUL).wrapping_add(LCG_ADD);
        self.state = next;
        next >> 24
    }

    /// A draw in the half-open range [lo, hi).
    pub fn range_u64(&mut self, lo: u64, hi: u64) -> (r: u64)
        requires
            lo < hi,
        ensures
            lo <= r < hi,
            final(self).state == lcg_next_spec(old(self).state),
    {
        let span: u64 = hi - lo;
        let draw: u64 = self.next_u64();
        lo + draw % span
    }

    /// A draw in the half-open range [lo, hi).
    pub fn range_usize(&mut self, lo: usize, hi: usize) -> (r: usize)
        requires
            lo < hi,
        ensures
            lo <= r < hi,
            final(self).state == lcg_next_spec(old(self).state),
    {
        let r: u64 = self.range_u64(lo as u64, hi as u64);
        r as usize
    }

    /// A draw in the inclusive range [lo, hi].
    pub fn range_incl_usize(&mut self, lo: usize, hi: usize) -> (r: usize)
        requires
            lo <= hi,
            hi < usize::MAX,
        ensures
            lo <= r <= hi,
            final(self).state == lcg_next_spec(old(self).state),
    {
        self.range_usize(lo, hi + 1)
    }

    /// A fixed-point draw in the half-open range [lo, hi).
    pub fn range_fx(&mut self, lo: i64, hi: i64) -> (r: i64)
        requires
            0 <= lo < hi,
        ensures
            lo <= r < hi,
            final(self).state == lcg_next_spec(old(self).state),
    {
        let r: u64 = self.range_u64(lo as u64, hi as u64);
        r as i64
    }
}

} // verus!

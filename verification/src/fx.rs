//! A fast hash for small keys: rotate, mix in, multiply.

use vstd::prelude::*;

verus! {

/// Multiplier.
pub const FX_SEED: u64 = 0x517c_c1b7_2722_0a95;

/// State after one more word.
pub open spec fn mixed(hash: u64, w: u64) -> u64 {
    let turned = (hash << 5) | (hash >> 59);
    (((turned ^ w) * FX_SEED) % 0x1_0000_0000_0000_0000) as u64
}

/// State after the first `n` words.
pub open spec fn mixed_all(hash: u64, ws: Seq<u64>, n: int) -> u64
    decreases n,
{
    if n <= 0 {
        hash
    } else {
        mixed(mixed_all(hash, ws, n - 1), ws[n - 1])
    }
}

/// The hasher.
#[derive(Clone, Copy, Debug, PartialEq, Eq, Structural)]
pub struct FxHasher {
    pub hash: u64,
}

impl FxHasher {
    /// Takes one word in.
    pub fn add(&mut self, w: u64)
        ensures
            final(self).hash == mixed(old(self).hash, w),
    {
        let turned: u64 = (self.hash << 5) | (self.hash >> 59);
        self.hash = (turned ^ w).wrapping_mul(FX_SEED);
    }

    /// Takes words in, one after the other.
    pub fn add_all(&mut self, ws: &Vec<u64>)
        ensures
            final(self).hash == mixed_all(old(self).hash, ws@, ws@.len() as int),
    {
        let ghost start = self.hash;
        let n: usize = ws.len();
        let mut i: usize = 0;
        while i < n
            invariant
                i <= n,
                n == ws@.len(),
                start == old(self).hash,
                self.hash == mixed_all(start, ws@, i as int),
            decreases n - i,
        {
            self.add(ws[i]);
            i += 1;
        }
    }
}

impl Default for FxHasher {
    fn default() -> (h: FxHasher)
        ensures
            h.hash == 0,
    {
        FxHasher { hash: 0 }
    }
}

} // verus!

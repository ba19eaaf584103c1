//! Table sizes by processor cache: the largest power of two of entries that fits each
//! cache level.

use crate::num;
use vstd::prelude::*;

verus! {

/// Index bits when the caches are unknown.
pub const FALLBACK_START_BITS: usize = 9;

pub const FALLBACK_L2_BITS: usize = 11;

pub const FALLBACK_L3_BITS: usize = 16;

/// One cache as the processor describes it.
#[derive(Clone, Copy, Debug, PartialEq, Eq, Structural)]
pub struct CacheLeaf {
    /// Number of the cache that was asked about.
    pub sub: u32,
    pub eax: u32,
    pub ebx: u32,
    pub ecx: u32,
}

/// Asks the processor about its cache number `sub`, with
/// `std::arch::x86_64::__cpuid_count` on leaf 4. The number asked about is noted with the
/// answer. Nothing is claimed of the answer itself: it depends on the machine.
#[verifier::external_body]
fn read_cache_leaf(sub: u32) -> (leaf: CacheLeaf)
    ensures
        leaf.sub == sub,
{
    let r = std::arch::x86_64::__cpuid_count(4, sub);
    CacheLeaf { sub, eax: r.eax, ebx: r.ebx, ecx: r.ecx }
}

/// Kind of cache: zero ends the list, odd kinds hold data.
pub open spec fn leaf_kind(l: CacheLeaf) -> int {
    l.eax as int % 32
}

pub open spec fn leaf_level(l: CacheLeaf) -> int {
    (l.eax as int / 32) % 8
}

/// Bytes: line size, partitions, ways and sets, each counted from zero.
pub open spec fn leaf_bytes(l: CacheLeaf) -> int {
    num::smaller(
        (l.ebx as int % 4096 + 1) * ((l.ebx as int / 4096) % 1024 + 1) * ((l.ebx as int
            / 4_194_304) % 1024 + 1) * (l.ecx as int + 1),
        usize::MAX as int,
    )
}

/// Size of the first data cache of a level among the first `n` leaves; zero for none. The
/// list ends at the first leaf of kind zero.
pub open spec fn level_bytes(leaves: Seq<CacheLeaf>, level: int, n: int) -> int
    decreases n,
{
    if n <= 0 {
        0
    } else {
        let before = level_bytes(leaves, level, n - 1);
        let l = leaves[n - 1];
        if before == 0 && list_open(leaves, n) && leaf_kind(l) % 2 == 1 && leaf_level(l) == level {
            leaf_bytes(l)
        } else {
            before
        }
    }
}

/// None of the first `n` leaves ends the list.
pub open spec fn list_open(leaves: Seq<CacheLeaf>, n: int) -> bool {
    forall|i: int| 0 <= i < n ==> leaf_kind(#[trigger] leaves[i]) != 0
}

/// Sizes of the three levels, if all are there.
pub open spec fn cache_sizes(leaves: Seq<CacheLeaf>) -> Option<(int, int, int)> {
    let n = leaves.len() as int;
    let (a, b, c) = (
        level_bytes(leaves, 1, n),
        level_bytes(leaves, 2, n),
        level_bytes(leaves, 3, n),
    );
    if a > 0 && b > 0 && c > 0 {
        Some((a, b, c))
    } else {
        None
    }
}

fn bytes_of(l: CacheLeaf) -> (n: usize)
    ensures
        n == leaf_bytes(l),
        n > 0,
{
    let line: u128 = (l.ebx % 4096) as u128 + 1;
    let partitions: u128 = ((l.ebx / 4096) % 1024) as u128 + 1;
    let ways: u128 = ((l.ebx / 4_194_304) % 1024) as u128 + 1;
    let sets: u128 = l.ecx as u128 + 1;
    assert(1 <= line * partitions <= 4_194_304) by (nonlinear_arith)
        requires
            1 <= line <= 4096,
            1 <= partitions <= 1024,
    ;
    let lp: u128 = line * partitions;
    assert(1 <= lp * ways <= 4_294_967_296) by (nonlinear_arith)
        requires
            1 <= lp <= 4_194_304,
            1 <= ways <= 1024,
    ;
    let lpw: u128 = lp * ways;
    assert(1 <= lpw * sets <= 0x1_0000_0000_0000_0000) by (nonlinear_arith)
        requires
            1 <= lpw <= 4_294_967_296,
            1 <= sets <= 4_294_967_296,
    ;
    let size: u128 = lpw * sets;
    if size > usize::MAX as u128 {
        usize::MAX
    } else {
        size as usize
    }
}

/// Sizes of the three levels from the processor's description.
pub fn scan_cache_leaves(leaves: &Vec<CacheLeaf>) -> (r: Option<(usize, usize, usize)>)
    ensures
        match r {
            Some((a, b, c)) => cache_sizes(leaves@) == Some((a as int, b as int, c as int)),
            None => cache_sizes(leaves@) is None,
        },
{
    let n: usize = leaves.len();
    let (mut l1, mut l2, mut l3): (usize, usize, usize) = (0, 0, 0);
    let mut open: bool = true;
    let mut i: usize = 0;
    while i < n
        invariant
            i <= n,
            n == leaves@.len(),
            open == list_open(leaves@, i as int),
            l1 == level_bytes(leaves@, 1, i as int),
            l2 == level_bytes(leaves@, 2, i as int),
            l3 == level_bytes(leaves@, 3, i as int),
        decreases n - i,
    {
        let l = leaves[i];
        let kind: u32 = l.eax % 32;
        proof {
            if open && kind != 0 {
                assert(list_open(leaves@, i + 1));
            } else if !open {
                assert(!list_open(leaves@, i + 1)) by {
                    let k = choose|k: int|
                        0 <= k < i && leaf_kind(#[trigger] leaves@[k]) == 0;
                    assert(leaf_kind(leaves@[k]) == 0);
                }
            } else {
                assert(leaf_kind(leaves@[i as int]) == 0);
                assert(!list_open(leaves@, i + 1));
            }
        }
        open = open && kind != 0;
        if open && kind % 2 == 1 {
            let level: u32 = (l.eax / 32) % 8;
            let size: usize = bytes_of(l);
            if level == 1 && l1 == 0 {
                l1 = size;
            } else if level == 2 && l2 == 0 {
                l2 = size;
            } else if level == 3 && l3 == 0 {
                l3 = size;
            }
        }
        i += 1;
    }
    if l1 > 0 && l2 > 0 && l3 > 0 {
        Some((l1, l2, l3))
    } else {
        None
    }
}

/// The sizes as whole numbers.
pub open spec fn wide(r: Option<(usize, usize, usize)>) -> Option<(int, int, int)> {
    match r {
        Some((a, b, c)) => Some((a as int, b as int, c as int)),
        None => None,
    }
}

/// The caches were asked about one after another, up to the one that ends the list or the
/// last there can be.
pub open spec fn asked_in_turn(leaves: Seq<CacheLeaf>) -> bool {
    &&& 1 <= leaves.len() <= 64
    &&& forall|k: int| 0 <= k < leaves.len() ==> (#[trigger] leaves[k]).sub == k
    &&& forall|k: int| 0 <= k < leaves.len() - 1 ==> leaf_kind(#[trigger] leaves[k]) != 0
    &&& leaves.len() == 64 || leaf_kind(leaves.last()) == 0
}

/// Data cache per core, second level per core, third level, in bytes.
/// `None` where the processor does not describe all three.
pub fn detect_cache_bytes() -> (r: Option<(usize, usize, usize)>)
    ensures
        r matches Some((l1, l2, l3)) ==> l1 > 0 && l2 > 0 && l3 > 0,
        // The sizes of what the processor says of its caches, asked about in turn.
        exists|leaves: Seq<CacheLeaf>| #[trigger]
            asked_in_turn(leaves) && cache_sizes(leaves) == wide(r),
{
    let mut leaves: Vec<CacheLeaf> = Vec::new();
    let mut sub: u32 = 0;
    let mut more: bool = true;
    while sub < 64 && more
        invariant
            sub <= 64,
            leaves@.len() == sub,
            sub == 0 ==> more,
            forall|k: int| 0 <= k < sub ==> (#[trigger] leaves@[k]).sub == k,
            forall|k: int| 0 <= k < sub - 1 ==> leaf_kind(#[trigger] leaves@[k]) != 0,
            sub > 0 ==> more == (leaf_kind(leaves@[sub - 1]) != 0),
        decreases 64 - sub,
    {
        let leaf = read_cache_leaf(sub);
        more = leaf.eax % 32 != 0;
        leaves.push(leaf);
        sub += 1;
    }
    assert(asked_in_turn(leaves@));
    scan_cache_leaves(&leaves)
}

/// Exponent of the largest power of two that is no larger.
pub open spec fn log2(n: nat) -> nat
    decreases n,
{
    if n < 2 {
        0
    } else {
        1 + log2(n / 2)
    }
}

/// The exponent is the largest whose power of two fits.
pub proof fn law_log2_is_the_largest_fit(n: nat)
    requires
        n >= 1,
    ensures
        vstd::arithmetic::power2::pow2(log2(n)) <= n,
        n < vstd::arithmetic::power2::pow2(log2(n) + 1),
    decreases n,
{
    vstd::arithmetic::power2::lemma2_to64();
    if n >= 2 {
        law_log2_is_the_largest_fit(n / 2);
        vstd::arithmetic::power2::lemma_pow2_adds(1, log2(n / 2));
        vstd::arithmetic::power2::lemma_pow2_adds(1, log2(n / 2) + 1);
    }
}

/// Index bits of the largest power of two of entries, between 8 and 27.
pub open spec fn bits_for(entries: int) -> int {
    if entries < 2 {
        8
    } else {
        num::clamped(log2(entries as nat) as int, 8, 27)
    }
}

fn entries_to_bits(entries: usize) -> (bits: usize)
    ensures
        bits == bits_for(entries as int),
        8 <= bits <= 27,
{
    if entries < 2 {
        return 8;
    }
    let mut n: usize = entries;
    let mut log: usize = 0;
    while n >= 2
        invariant
            n >= 1,
            log + n <= entries,
            log + log2(n as nat) == log2(entries as nat),
        decreases n,
    {
        n = n / 2;
        log += 1;
    }
    if log < 8 {
        8
    } else if log > 27 {
        27
    } else {
        log
    }
}

/// Index bits of the three tiers, each above the one before.
pub open spec fn tiers_for(entry_bytes: int, sizes: Option<(int, int, int)>) -> (int, int, int) {
    match sizes {
        None => (9, 11, 16),
        Some((a, b, c)) => {
            let width = num::larger(entry_bytes, 1);
            let t0 = bits_for(a / width);
            let t1 = num::larger(bits_for(b / width), t0 + 1);
            (t0, t1, num::larger(bits_for(c / width), t1 + 1))
        },
    }
}

/// Index bits of the three tiers for entries of this width.
pub fn tier_bits_for(entry_bytes: usize, sizes: Option<(usize, usize, usize)>) -> (t: (
    usize,
    usize,
    usize,
))
    ensures
        (t.0 as int, t.1 as int, t.2 as int) == tiers_for(
            entry_bytes as int,
            match sizes {
                Some((a, b, c)) => Some((a as int, b as int, c as int)),
                None => None,
            },
        ),
        8 <= t.0 <= 27,
        t.0 < t.1 <= 28,
        t.1 < t.2 <= 29,
{
    match sizes {
        None => (FALLBACK_START_BITS, FALLBACK_L2_BITS, FALLBACK_L3_BITS),
        Some((a, b, c)) => {
            let width: usize = entry_bytes.max(1);
            let x0: usize = entries_to_bits(a / width);
            let x1: usize = entries_to_bits(b / width);
            let x2: usize = entries_to_bits(c / width);
            let t1: usize = x1.max(x0 + 1);
            let t2: usize = x2.max(t1 + 1);
            (x0, t1, t2)
        },
    }
}

/// Index bits of the three cache tiers of this machine for entries of this width. Each is
/// above the one before, and a table can have them.
pub fn cache_tier_bits(entry_bytes: usize) -> (t: (usize, usize, usize))
    ensures
        // The tiers of the sizes that the processor says its caches have.
        exists|leaves: Seq<CacheLeaf>| #[trigger]
            asked_in_turn(leaves) && (t.0 as int, t.1 as int, t.2 as int) == tiers_for(
                entry_bytes as int,
                cache_sizes(leaves),
            ),
        8 <= t.0 <= 27,
        t.0 < t.1 <= 28,
        t.1 < t.2 <= 29,
{
    tier_bits_for(entry_bytes, detect_cache_bytes())
}

} // verus!

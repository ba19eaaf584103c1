//! Transposition table: packed entries, depth-preferred replacement by generation,
//! growth by cache tiers, and scores that stay right at any ply.

use crate::score;
use vstd::prelude::*;

verus! {

/// Largest depth the eight-bit depth field holds.
pub const TT_DEPTH_MAX: i32 = 255;

/// Default index bits.
pub const TT_BITS: usize = 20;

/// Most index bits a table may have.
pub const TT_BITS_MAX: usize = 31;

/// The score is exact.
pub const FLAG_EXACT: i32 = 0;

/// The score is a lower bound.
pub const FLAG_LOWER: i32 = 1;

/// The score is an upper bound.
pub const FLAG_UPPER: i32 = 2;

/// Depth as the table keeps it.
pub open spec fn clamped_depth(depth: int) -> int {
    if depth < 0 {
        0
    } else if depth > 255 {
        255
    } else {
        depth
    }
}

/// Depth field of a packed word.
pub open spec fn word_depth(meta: int) -> int {
    (meta / 4096) % 256
}

/// Move field of a packed word.
pub open spec fn word_move(meta: int) -> int {
    meta % 1024
}

/// Flag field of a packed word.
pub open spec fn word_flag(meta: int) -> int {
    (meta / 1024) % 4
}

/// The packed word of a move, a flag and a depth.
pub open spec fn packed(mv: int, flag: int, depth: int) -> int {
    mv + flag * 1024 + clamped_depth(depth) * 4096
}

/// Depth in its place in the packed word.
pub fn tt_pack_depth(depth: i32) -> (word: i32)
    ensures
        word == clamped_depth(depth as int) * 4096,
{
    let d: i32 = if depth < 0 {
        0
    } else if depth > TT_DEPTH_MAX {
        TT_DEPTH_MAX
    } else {
        depth
    };
    assert(d << 12i32 == d * 4096) by (bit_vector)
        requires
            0 <= d <= 255,
    ;
    d << 12i32
}

/// Depth of a packed word; higher bits are ignored.
pub fn tt_unpack_depth(meta: i32) -> (depth: i32)
    ensures
        depth == word_depth(meta as int),
        0 <= depth <= 255,
{
    let word: i64 = meta as i64;
    let q: i64 = if word >= 0 {
        word / 4096
    } else {
        -((4095 - word) / 4096)
    };
    assert(q == meta as int / 4096);
    let r: i64 = if q >= 0 {
        q % 256
    } else {
        255 - ((-1 - q) % 256)
    };
    assert(r == q as int % 256) by {
        if q < 0 {
            let k = (-1 - q) as int;
            assert(q == -1 - k);
            assert(k == 256 * (k / 256) + k % 256);
            assert(q == 256 * (-(k / 256) - 1) + (255 - k % 256));
            vstd::arithmetic::div_mod::lemma_fundamental_div_mod_converse(
                q as int,
                256,
                -(k / 256) - 1,
                255 - k % 256,
            );
        }
    }
    r as i32
}

/// Move of a packed word.
pub fn tt_word_move(meta: i32) -> (mv: i16)
    requires
        meta >= 0,
    ensures
        mv == word_move(meta as int),
        0 <= mv < 1024,
{
    (meta % 1024) as i16
}

/// Flag of a packed word.
pub fn tt_word_flag(meta: i32) -> (flag: i32)
    requires
        meta >= 0,
    ensures
        flag == word_flag(meta as int),
        0 <= flag < 4,
{
    (meta / 1024) % 4
}

/// Packs a move, a flag and a depth.
pub fn tt_pack(mv: i16, flag: i32, depth: i32) -> (meta: i32)
    requires
        0 <= mv < 1024,
        0 <= flag < 4,
    ensures
        meta == packed(mv as int, flag as int, depth as int),
        meta >= 0,
{
    mv as i32 + flag * 1024 + tt_pack_depth(depth)
}

/// Every field is read back from the packed word; the depth clamped to its field.
pub proof fn law_packed_word_round_trip(mv: int, flag: int, depth: int)
    requires
        0 <= mv < 1024,
        0 <= flag < 4,
    ensures
        word_move(packed(mv, flag, depth)) == mv,
        word_flag(packed(mv, flag, depth)) == flag,
        word_depth(packed(mv, flag, depth)) == clamped_depth(depth),
        word_depth(clamped_depth(depth) * 4096) == clamped_depth(depth),
{
}

/// Scores beyond this are mates, counted from the root.
pub open spec fn mate_threshold() -> int {
    score::MATE - 2 * score::MAX_PLY
}

/// A score as stored: mates counted from the node instead of the root.
pub open spec fn table_score(s: int, ply: int) -> int {
    if s > mate_threshold() {
        s + ply
    } else if s < -mate_threshold() {
        s - ply
    } else {
        s
    }
}

/// A stored score as used at `ply`.
pub open spec fn node_score(s: int, ply: int) -> int {
    if s > mate_threshold() {
        s - ply
    } else if s < -mate_threshold() {
        s + ply
    } else {
        s
    }
}

/// Score to store.
pub fn score_to_table(s: i32, ply: usize) -> (t: i32)
    requires
        -score::INF <= s <= score::INF,
        ply < score::MAX_PLY,
    ensures
        t == table_score(s as int, ply as int),
{
    let limit: i32 = score::MATE - 2 * score::MAX_PLY as i32;
    if s > limit {
        s + ply as i32
    } else if s < -limit {
        s - ply as i32
    } else {
        s
    }
}

/// Score read from the table.
pub fn score_from_table(t: i32, ply: usize) -> (s: i32)
    requires
        ply < score::MAX_PLY,
    ensures
        s == node_score(t as int, ply as int),
{
    let limit: i32 = score::MATE - 2 * score::MAX_PLY as i32;
    if t > limit {
        t - ply as i32
    } else if t < -limit {
        t + ply as i32
    } else {
        t
    }
}

/// A score read back at the ply it was stored at is the score that was stored.
pub proof fn law_stored_score_round_trip(s: int, ply: int)
    requires
        0 <= ply,
    ensures
        node_score(table_score(s, ply), ply) == s,
{
}

/// A mate found at one ply and met again at another is the same number of plies from
/// the node.
pub proof fn law_stored_mate_is_node_relative(s: int, ply: int, other: int)
    requires
        0 <= ply < score::MAX_PLY,
        0 <= other < score::MAX_PLY,
        mate_threshold() < s <= score::MATE - ply,
    ensures
        (score::MATE - node_score(table_score(s, ply), other)) - other == (score::MATE - s) - ply,
{
}

/// One table entry.
#[derive(Clone, Copy, Debug, PartialEq, Eq, Structural)]
pub struct SharedTtEntry {
    pub key_hi: u32,
    pub key_lo: u32,
    /// `move | flag << 10 | depth << 12`; zero is an empty slot.
    pub meta: i32,
    pub score: i32,
    /// Nonzero: the score leans on a repetition outside the node and never cuts.
    pub rep: u8,
    pub anc_lo: u32,
    pub anc_hi: u32,
    pub entry_gen: u8,
}

/// An empty slot.
pub open spec fn empty_entry() -> SharedTtEntry {
    SharedTtEntry {
        key_hi: 0,
        key_lo: 0,
        meta: 0,
        score: 0,
        rep: 0,
        anc_lo: 0,
        anc_hi: 0,
        entry_gen: 0,
    }
}

impl SharedTtEntry {
    pub fn empty() -> (e: Self)
        ensures
            e == empty_entry(),
    {
        SharedTtEntry {
            key_hi: 0,
            key_lo: 0,
            meta: 0,
            score: 0,
            rep: 0,
            anc_lo: 0,
            anc_hi: 0,
            entry_gen: 0,
        }
    }
}

/// Number of occupied slots among the first `n`.
pub open spec fn occupied(slots: Seq<SharedTtEntry>, n: int) -> int
    decreases n,
{
    if n <= 0 {
        0
    } else {
        occupied(slots, n - 1) + if slots[n - 1].meta != 0 {
            1int
        } else {
            0int
        }
    }
}

proof fn lemma_occupied_bounds(slots: Seq<SharedTtEntry>, n: int)
    requires
        0 <= n,
    ensures
        0 <= occupied(slots, n) <= n,
    decreases n,
{
    if n > 0 {
        lemma_occupied_bounds(slots, n - 1);
    }
}

proof fn lemma_occupied_update(slots: Seq<SharedTtEntry>, i: int, e: SharedTtEntry, n: int)
    requires
        0 <= i < slots.len(),
        0 <= n <= slots.len(),
    ensures
        occupied(slots.update(i, e), n) == occupied(slots, n) + if i < n {
            (if e.meta != 0 {
                1int
            } else {
                0int
            }) - (if slots[i].meta != 0 {
                1int
            } else {
                0int
            })
        } else {
            0int
        },
    decreases n,
{
    if n > 0 {
        lemma_occupied_update(slots, i, e, n - 1);
    }
}

proof fn lemma_occupied_fresh(slots: Seq<SharedTtEntry>, i: int, n: int)
    requires
        0 <= i < n <= slots.len(),
        slots[i].meta == 0,
    ensures
        occupied(slots, n) < n,
    decreases n,
{
    if i == n - 1 {
        lemma_occupied_bounds(slots, n - 1);
    } else {
        lemma_occupied_fresh(slots, i, n - 1);
    }
}

/// Number of slots of a table with `bits` index bits.
pub open spec fn slot_count(bits: nat) -> nat {
    vstd::arithmetic::power2::pow2(bits)
}

/// Slot of a position.
pub open spec fn slot_of_key(key_lo: u32, bits: nat) -> int {
    key_lo as int % slot_count(bits) as int
}

/// A table of `1 << bits` slots.
pub struct SharedTitaniumTt {
    pub slots: Vec<SharedTtEntry>,
    pub mask: u32,
    pub bits: usize,
    pub filled: usize,
}

/// `1 << bits`.
fn power_of_two(bits: usize) -> (n: usize)
    requires
        bits <= TT_BITS_MAX,
    ensures
        n == slot_count(bits as nat),
        n >= 1,
        n <= 0x8000_0000,
{
    proof {
        vstd::arithmetic::power2::lemma2_to64();
        vstd::arithmetic::power2::lemma_pow2_pos(bits as nat);
        if bits < 31 {
            vstd::arithmetic::power2::lemma_pow2_strictly_increases(bits as nat, 31);
        }
        vstd::bits::lemma_usize_shl_is_mul(1usize, bits);
    }
    1usize << bits
}

/// Masking a key gives its slot.
proof fn lemma_mask_is_slot(key_lo: u32, mask: u32, bits: nat)
    requires
        bits <= 31,
        mask == slot_count(bits) - 1,
    ensures
        (key_lo & mask) == slot_of_key(key_lo, bits),
        slot_of_key(key_lo, bits) < slot_count(bits),
        0 <= slot_of_key(key_lo, bits),
{
    vstd::bits::lemma_u32_low_bits_mask_is_mod(key_lo, bits);
    vstd::bits::lemma_u32_pow2_no_overflow(bits);
    vstd::arithmetic::power2::lemma_pow2_pos(bits);
    assert(vstd::bits::low_bits_mask(bits) as u32 == mask);
    vstd::arithmetic::div_mod::lemma_mod_bound(key_lo as int, slot_count(bits) as int);
}

/// May the new entry replace what is in the slot: it is empty, from an older search, or
/// no deeper?
pub open spec fn replaces(old_meta: int, old_gen: u8, new_meta: int, gen: u8, pure_mode: bool) -> bool {
    old_meta == 0 || (!pure_mode && old_gen != gen) || word_depth(new_meta) >= word_depth(old_meta)
}

/// The entry of a position among the slots of a table with `bits` index bits.
pub open spec fn found(slots: Seq<SharedTtEntry>, bits: nat, hash_lo: u32, hash_hi: u32) -> Option<
    SharedTtEntry,
> {
    let e = slots[slot_of_key(hash_lo, bits)];
    if e.meta != 0 && e.key_hi == hash_hi && e.key_lo == hash_lo {
        Some(e)
    } else {
        None
    }
}

/// The slots after an entry has been offered to its slot.
pub open spec fn offered(
    slots: Seq<SharedTtEntry>,
    bits: nat,
    entry: SharedTtEntry,
    gen: u8,
    pure_mode: bool,
) -> Seq<SharedTtEntry> {
    offered_at(slots, slot_of_key(entry.key_lo, bits), entry, gen, pure_mode)
}

/// The slots after an entry has been offered to slot `i`.
pub open spec fn offered_at(
    slots: Seq<SharedTtEntry>,
    i: int,
    entry: SharedTtEntry,
    gen: u8,
    pure_mode: bool,
) -> Seq<SharedTtEntry> {
    if replaces(slots[i].meta as int, slots[i].entry_gen, entry.meta as int, gen, pure_mode) {
        slots.update(i, entry)
    } else {
        slots
    }
}

impl SharedTitaniumTt {
    /// The slots match the mask and bits, and the count is right.
    pub open spec fn sized(&self) -> bool {
        &&& self.bits <= TT_BITS_MAX
        &&& self.slots@.len() == slot_count(self.bits as nat)
        &&& self.mask == slot_count(self.bits as nat) - 1
        &&& self.filled == occupied(self.slots@, self.slots@.len() as int)
    }

    /// Also, every entry sits in the slot of its key.
    pub open spec fn wf(&self) -> bool {
        &&& self.sized()
        &&& forall|i: int|
            0 <= i < self.slots@.len() && (#[trigger] self.slots@[i]).meta != 0 ==> slot_of_key(
                self.slots@[i].key_lo,
                self.bits as nat,
            ) == i
    }

    /// What the table knows about a position.
    pub open spec fn lookup(&self, hash_lo: u32, hash_hi: u32) -> Option<SharedTtEntry> {
        found(self.slots@, self.bits as nat, hash_lo, hash_hi)
    }

    /// An empty table.
    pub fn new(bits: usize) -> (t: Self)
        requires
            bits <= TT_BITS_MAX,
        ensures
            t.wf(),
            t.bits == bits,
            t.filled == 0,
            forall|i: int| 0 <= i < t.slots@.len() ==> t.slots@[i] == empty_entry(),
            forall|lo: u32, hi: u32| (#[trigger] t.lookup(lo, hi)) is None,
    {
        let size: usize = power_of_two(bits);
        let slots: Vec<SharedTtEntry> = vec![SharedTtEntry::empty(); size];
        let t = SharedTitaniumTt { slots, mask: (size - 1) as u32, bits, filled: 0 };
        proof {
            lemma_occupied_none(t.slots@, t.slots@.len() as int);
            assert forall|lo: u32, hi: u32| (#[trigger] t.lookup(lo, hi)) is None by {
                lemma_mask_is_slot(lo, t.mask, bits as nat);
            }
        }
        t
    }

    /// A copy of the table.
    pub fn duplicate(&self) -> (t: Self)
        requires
            self.wf(),
        ensures
            t.wf(),
            t.bits == self.bits,
            t.slots@ == self.slots@,
            t.filled == self.filled,
    {
        let mut slots: Vec<SharedTtEntry> = Vec::new();
        let n: usize = self.slots.len();
        let mut i: usize = 0;
        while i < n
            invariant
                i <= n,
                n == self.slots@.len(),
                slots@ == self.slots@.take(i as int),
            decreases n - i,
        {
            slots.push(self.slots[i]);
            i += 1;
            assert(slots@ =~= self.slots@.take(i as int));
        }
        assert(self.slots@.take(n as int) =~= self.slots@);
        SharedTitaniumTt { slots, mask: self.mask, bits: self.bits, filled: self.filled }
    }

    /// Slot of a position.
    fn index(&self, hash_lo: u32) -> (i: usize)
        requires
            self.sized(),
        ensures
            i == slot_of_key(hash_lo, self.bits as nat),
            i < self.slots@.len(),
    {
        proof {
            lemma_mask_is_slot(hash_lo, self.mask, self.bits as nat);
        }
        (hash_lo & self.mask) as usize
    }

    /// Looks a position up.
    pub fn probe(&self, hash_lo: u32, hash_hi: u32) -> (e: Option<SharedTtEntry>)
        requires
            self.sized(),
        ensures
            e == self.lookup(hash_lo, hash_hi),
    {
        let entry = self.slots[self.index(hash_lo)];
        if entry.meta != 0 && entry.key_hi == hash_hi && entry.key_lo == hash_lo {
            Some(entry)
        } else {
            None
        }
    }

    /// Stores an entry if it may replace what its slot holds. Tells whether an empty slot
    /// was filled.
    pub fn store(
        &mut self,
        hash_lo: u32,
        hash_hi: u32,
        tt_gen: u8,
        pure_mode: bool,
        entry: SharedTtEntry,
    ) -> (was_empty: bool)
        requires
            old(self).sized(),
        ensures
            final(self).sized(),
            old(self).wf() && entry.key_lo == hash_lo ==> final(self).wf(),
            final(self).bits == old(self).bits,
            final(self).mask == old(self).mask,
            was_empty == (old(self).slots@[slot_of_key(hash_lo, old(self).bits as nat)].meta == 0),
            final(self).slots@ == offered_at(
                old(self).slots@,
                slot_of_key(hash_lo, old(self).bits as nat),
                entry,
                tt_gen,
                pure_mode,
            ),
            // An accepted entry under its own key is found again.
            ({
                let slot = old(self).slots@[slot_of_key(hash_lo, old(self).bits as nat)];
                replaces(
                    slot.meta as int,
                    slot.entry_gen,
                    entry.meta as int,
                    tt_gen,
                    pure_mode,
                ) && entry.meta != 0 && entry.key_lo == hash_lo && entry.key_hi == hash_hi
                    ==> final(self).lookup(hash_lo, hash_hi) == Some(entry)
            }),
    {
        let size: usize = self.slots.len();
        let i: usize = self.index(hash_lo);
        let slot = self.slots[i];
        let was_empty: bool = slot.meta == 0;
        let stale_gen: bool = !pure_mode && !was_empty && slot.entry_gen != tt_gen;
        let deeper: bool = !was_empty && !stale_gen && tt_unpack_depth(entry.meta)
            >= tt_unpack_depth(slot.meta);
        if was_empty || stale_gen || deeper {
            proof {
                lemma_occupied_update(self.slots@, i as int, entry, self.slots@.len() as int);
                lemma_occupied_bounds(
                    self.slots@.update(i as int, entry),
                    self.slots@.len() as int,
                );
                if was_empty {
                    lemma_occupied_fresh(self.slots@, i as int, self.slots@.len() as int);
                }
            }
            self.slots.set(i, entry);
            if was_empty && entry.meta != 0 {
                assert(self.filled < size);
                self.filled = self.filled + 1;
            } else if !was_empty && entry.meta == 0 {
                self.filled = self.filled - 1;
            }
        }
        was_empty
    }
}

proof fn lemma_occupied_none(slots: Seq<SharedTtEntry>, n: int)
    requires
        0 <= n <= slots.len(),
        forall|i: int| 0 <= i < slots.len() ==> slots[i].meta == 0,
    ensures
        occupied(slots, n) == 0,
    decreases n,
{
    if n > 0 {
        lemma_occupied_none(slots, n - 1);
    }
}

/// What is stored and accepted is what a later lookup finds.
pub proof fn law_lookup_finds_what_was_stored(
    before: SharedTitaniumTt,
    after: SharedTitaniumTt,
    entry: SharedTtEntry,
    gen: u8,
    pure_mode: bool,
)
    requires
        before.wf(),
        after.wf(),
        after.bits == before.bits,
        entry.meta != 0,
        ({
            let i = slot_of_key(entry.key_lo, before.bits as nat);
            &&& replaces(
                before.slots@[i].meta as int,
                before.slots@[i].entry_gen,
                entry.meta as int,
                gen,
                pure_mode,
            )
            &&& after.slots@ == before.slots@.update(i, entry)
        }),
    ensures
        after.lookup(entry.key_lo, entry.key_hi) == Some(entry),
{
    lemma_mask_is_slot(entry.key_lo, before.mask, before.bits as nat);
}

/// A slot of a large table folds onto the slot of a smaller one.
proof fn lemma_slot_folds(key_lo: u32, bits: nat, more: nat)
    requires
        bits <= more,
    ensures
        slot_of_key(key_lo, more) % slot_count(bits) as int == slot_of_key(key_lo, bits),
{
    vstd::arithmetic::power2::lemma_pow2_adds(bits, (more - bits) as nat);
    vstd::arithmetic::power2::lemma_pow2_pos(bits);
    vstd::arithmetic::power2::lemma_pow2_pos((more - bits) as nat);
    vstd::arithmetic::div_mod::lemma_mod_mod(
        key_lo as int,
        slot_count(bits) as int,
        slot_count((more - bits) as nat) as int,
    );
}

/// The first `i` slots of `from` have moved into `into`, a table of `bits` index bits.
spec fn moved(from: Seq<SharedTtEntry>, i: int, into: Seq<SharedTtEntry>, bits: nat) -> bool {
    &&& forall|k: int|
        0 <= k < i && (#[trigger] from[k]).meta != 0 ==> into[slot_of_key(from[k].key_lo, bits)]
            == from[k]
    &&& forall|j: int|
        0 <= j < into.len() && (#[trigger] into[j]).meta != 0 ==> exists|k: int|
            0 <= k < i && (#[trigger] from[k]).meta != 0 && slot_of_key(from[k].key_lo, bits) == j
                && into[j] == from[k]
    &&& occupied(into, into.len() as int) == occupied(from, i)
}

/// The search's own table: generations and growth by cache tiers.
pub struct TitaniumTt {
    pub base: SharedTitaniumTt,
    /// Generation of the current search.
    pub tt_gen: u8,
    /// Index bits of the tiers to grow into.
    pub tt_l2: usize,
    pub tt_l3: usize,
    pub tt_d4: usize,
    pub tt_d5: usize,
    pub tt_max: usize,
    pub tt_adaptive: bool,
}

/// Index bits after growing: the next tier above, past the last tier one more bit,
/// never above the maximum.
pub open spec fn grown_bits(t: TitaniumTt) -> int {
    let b = t.base.bits as int;
    let next = if b < t.tt_l2 {
        t.tt_l2 as int
    } else if b < t.tt_l3 {
        t.tt_l3 as int
    } else if b < t.tt_d4 {
        t.tt_d4 as int
    } else if b < t.tt_d5 {
        t.tt_d5 as int
    } else {
        b + 1
    };
    if next < t.tt_max {
        next
    } else {
        t.tt_max as int
    }
}

pub open spec fn larger(a: int, b: int) -> int {
    if a < b {
        b
    } else {
        a
    }
}

impl TitaniumTt {
    pub open spec fn wf(&self) -> bool {
        self.base.wf() && self.tt_max <= TT_BITS_MAX
    }

    /// A fixed table of the default size.
    pub fn new() -> (t: Self)
        ensures
            t.wf(),
            t.base.bits == TT_BITS,
            t.base.filled == 0,
            t.tt_gen == 0,
            !t.tt_adaptive,
            t.tt_l2 == 20,
            t.tt_l3 == 20,
            t.tt_d4 == 18,
            t.tt_d5 == 22,
            t.tt_max == 25,
            forall|lo: u32, hi: u32| (#[trigger] t.base.lookup(lo, hi)) is None,
    {
        TitaniumTt {
            base: SharedTitaniumTt::new(TT_BITS),
            tt_gen: 0,
            tt_l2: TT_BITS,
            tt_l3: TT_BITS,
            tt_d4: 18,
            tt_d5: 22,
            tt_max: 25,
            tt_adaptive: false,
        }
    }

    /// Replaces the table by an empty one of `1 << bits` slots.
    pub fn resize_tt(&mut self, bits: usize)
        requires
            old(self).wf(),
            bits <= TT_BITS_MAX,
        ensures
            final(self).wf(),
            final(self).base.bits == bits,
            final(self).base.filled == 0,
            forall|lo: u32, hi: u32| (#[trigger] final(self).base.lookup(lo, hi)) is None,
            *final(self) == (TitaniumTt { base: final(self).base, ..*old(self) }),
    {
        self.base = SharedTitaniumTt::new(bits);
    }

    /// Starts small and grows on overflow through the given cache tiers, then 18 and 22
    /// bits, up to 25 or the last tier.
    pub fn enable_adaptive_tt(&mut self, tiers: (usize, usize, usize))
        requires
            old(self).wf(),
            tiers.0 <= 27,
            tiers.1 <= 28,
            tiers.2 <= 29,
        ensures
            final(self).wf(),
            final(self).tt_adaptive,
            final(self).tt_l2 == larger(tiers.1 as int, tiers.0 + 1),
            final(self).tt_l3 == larger(tiers.2 as int, final(self).tt_l2 + 1),
            final(self).tt_d4 == larger(18, final(self).tt_l3 as int),
            final(self).tt_d5 == larger(22, final(self).tt_d4 as int),
            final(self).tt_max == larger(25, final(self).tt_d5 as int),
            final(self).base.bits == tiers.0,
            final(self).base.filled == 0,
            final(self).tt_gen == old(self).tt_gen,
            forall|lo: u32, hi: u32| (#[trigger] final(self).base.lookup(lo, hi)) is None,
    {
        let (start, l2, l3) = tiers;
        self.tt_l2 = l2.max(start + 1);
        self.tt_l3 = l3.max(self.tt_l2 + 1);
        self.tt_d4 = self.tt_l3.max(18);
        self.tt_d5 = self.tt_d4.max(22);
        self.tt_max = self.tt_d5.max(25);
        self.tt_adaptive = true;
        self.resize_tt(start);
    }

    /// Keeps the size it has from now on.
    pub fn stop_growing(&mut self)
        ensures
            *final(self) == (TitaniumTt { tt_adaptive: false, ..*old(self) }),
            old(self).wf() ==> final(self).wf(),
    {
        self.tt_adaptive = false;
    }

    /// Advances the generation: entries of earlier searches may then be replaced by any.
    pub fn next_generation(&mut self)
        requires
            old(self).wf(),
        ensures
            *final(self) == (TitaniumTt {
                tt_gen: if old(self).tt_gen == 255 {
                    0
                } else {
                    (old(self).tt_gen + 1) as u8
                },
                ..*old(self)
            }),
            final(self).wf(),
    {
        self.tt_gen = if self.tt_gen == 255 {
            0
        } else {
            self.tt_gen + 1
        };
    }

    /// Grows to the next tier and moves every entry to its new slot. Nothing is lost.
    pub fn tt_grow(&mut self)
        requires
            old(self).wf(),
        ensures
            final(self).wf(),
            *final(self) == (TitaniumTt { base: final(self).base, ..*old(self) }),
            final(self).base.bits == larger(grown_bits(*old(self)), old(self).base.bits as int),
            // Without a larger tier nothing changes.
            grown_bits(*old(self)) <= old(self).base.bits ==> *final(self) == *old(self),
            final(self).base.filled == old(self).base.filled,
            forall|lo: u32, hi: u32| #[trigger]
                final(self).base.lookup(lo, hi) == old(self).base.lookup(lo, hi),
    {
        let b: usize = self.base.bits;
        let next: usize = if b < self.tt_l2 {
            self.tt_l2
        } else if b < self.tt_l3 {
            self.tt_l3
        } else if b < self.tt_d4 {
            self.tt_d4
        } else if b < self.tt_d5 {
            self.tt_d5
        } else {
            b + 1
        };
        let nb: usize = next.min(self.tt_max);
        if nb <= b {
            return;
        }
        let ghost from = self.base.slots@;
        let ghost old_base = self.base;
        let mut grown = SharedTitaniumTt::new(nb);
        let n: usize = self.base.slots.len();
        let mut i: usize = 0;
        proof {
            lemma_occupied_none(grown.slots@, grown.slots@.len() as int);
        }
        while i < n
            invariant
                i <= n,
                n == from.len(),
                from == self.base.slots@,
                old_base == self.base,
                old_base.wf(),
                old_base.bits == b,
                b < nb <= TT_BITS_MAX,
                grown.wf(),
                grown.bits == nb,
                moved(from, i as int, grown.slots@, nb as nat),
                *self == *old(self),
            decreases n - i,
        {
            let e = self.base.slots[i];
            if e.meta != 0 {
                let j: usize = grown.index(e.key_lo);
                proof {
                    if grown.slots@[j as int].meta != 0 {
                        // Another entry in the way would share the old slot as well.
                        let k = choose|k: int|
                            0 <= k < i && (#[trigger] from[k]).meta != 0 && slot_of_key(
                                from[k].key_lo,
                                nb as nat,
                            ) == j && grown.slots@[j as int] == from[k];
                        lemma_slot_folds(from[k].key_lo, b as nat, nb as nat);
                        lemma_slot_folds(e.key_lo, b as nat, nb as nat);
                        assert(slot_of_key(from[k].key_lo, b as nat) == k);
                        assert(slot_of_key(from[i as int].key_lo, b as nat) == i);
                    }
                    assert(grown.slots@[j as int].meta == 0);
                    lemma_occupied_update(
                        grown.slots@,
                        j as int,
                        e,
                        grown.slots@.len() as int,
                    );
                    lemma_occupied_fresh(grown.slots@, j as int, grown.slots@.len() as int);
                    lemma_move_one(from, i as int, grown.slots@, j as int, nb as nat);
                }
                let size: usize = grown.slots.len();
                grown.slots.set(j, e);
                assert(grown.filled < size);
                grown.filled = grown.filled + 1;
            } else {
                proof {
                    assert forall|j: int|
                        0 <= j < grown.slots@.len() && (
                        #[trigger] grown.slots@[j]).meta != 0 implies exists|k: int|
                        0 <= k < i + 1 && (#[trigger] from[k]).meta != 0 && slot_of_key(
                            from[k].key_lo,
                            nb as nat,
                        ) == j && grown.slots@[j] == from[k] by {
                        let k = choose|k: int|
                            0 <= k < i && (#[trigger] from[k]).meta != 0 && slot_of_key(
                                from[k].key_lo,
                                nb as nat,
                            ) == j && grown.slots@[j] == from[k];
                        assert(from[k].meta != 0);
                    }
                }
            }
            i += 1;
        }
        proof {
            assert forall|lo: u32, hi: u32| #[trigger]
                grown.lookup(lo, hi) == old_base.lookup(lo, hi) by {
                lemma_mask_is_slot(lo, old_base.mask, b as nat);
                lemma_mask_is_slot(lo, grown.mask, nb as nat);
                let k0 = slot_of_key(lo, b as nat);
                let j = slot_of_key(lo, nb as nat);
                if old_base.lookup(lo, hi) is Some {
                    assert(from[k0].meta != 0);
                } else if grown.lookup(lo, hi) is Some {
                    assert(grown.slots@[j].meta != 0);
                    let k = choose|k: int|
                        0 <= k < n && (#[trigger] from[k]).meta != 0 && slot_of_key(
                            from[k].key_lo,
                            nb as nat,
                        ) == j && grown.slots@[j] == from[k];
                    assert(slot_of_key(from[k].key_lo, b as nat) == k);
                    assert(k == k0);
                }
            }
        }
        self.base = grown;
    }

    /// Stores an entry for the current position and grows the table when it is half full.
    pub fn tt_store(&mut self, pure_mode: bool, entry: SharedTtEntry)
        requires
            old(self).wf(),
        ensures
            final(self).wf(),
            *final(self) == (TitaniumTt { base: final(self).base, ..*old(self) }),
            forall|lo: u32, hi: u32| #[trigger]
                final(self).base.lookup(lo, hi) == found(
                    offered(
                        old(self).base.slots@,
                        old(self).base.bits as nat,
                        entry,
                        old(self).tt_gen,
                        pure_mode,
                    ),
                    old(self).base.bits as nat,
                    lo,
                    hi,
                ),
            ({
                let n = old(self).base.slots@.len() as int;
                let was_empty = old(self).base.slots@[slot_of_key(
                    entry.key_lo,
                    old(self).base.bits as nat,
                )].meta == 0;
                let filled = occupied(
                    offered(
                        old(self).base.slots@,
                        old(self).base.bits as nat,
                        entry,
                        old(self).tt_gen,
                        pure_mode,
                    ),
                    n,
                );
                &&& final(self).base.filled == filled
                &&& final(self).base.bits == if was_empty && old(self).tt_adaptive
                    && old(self).base.bits < old(self).tt_max && 2 * filled >= n {
                    grown_bits(*old(self))
                } else {
                    old(self).base.bits as int
                }
            }),
    {
        let gen: u8 = self.tt_gen;
        let was_empty: bool = self.base.store(entry.key_lo, entry.key_hi, gen, pure_mode, entry);
        proof {
            lemma_occupied_bounds(self.base.slots@, self.base.slots@.len() as int);
        }
        if was_empty && self.tt_adaptive && self.base.bits < self.tt_max
            && self.base.filled >= self.base.slots.len() - self.base.filled {
            self.tt_grow();
        }
    }
}

/// Moving one more entry into a free slot.
proof fn lemma_move_one(
    from: Seq<SharedTtEntry>,
    i: int,
    into: Seq<SharedTtEntry>,
    j: int,
    bits: nat,
)
    requires
        moved(from, i, into, bits),
        into.len() == slot_count(bits),
        0 <= i < from.len(),
        0 <= j < into.len(),
        from[i].meta != 0,
        into[j].meta == 0,
        slot_of_key(from[i].key_lo, bits) == j,
        occupied(into.update(j, from[i]), into.len() as int) == occupied(into, into.len() as int)
            + 1,
    ensures
        moved(from, i + 1, into.update(j, from[i]), bits),
{
    let after = into.update(j, from[i]);
    assert forall|k: int| 0 <= k < i + 1 && (#[trigger] from[k]).meta != 0 implies after[slot_of_key(
        from[k].key_lo,
        bits,
    )] == from[k] by {
        vstd::arithmetic::power2::lemma_pow2_pos(bits);
        vstd::arithmetic::div_mod::lemma_mod_bound(
            from[k].key_lo as int,
            slot_count(bits) as int,
        );
        if k < i {
            assert(into[slot_of_key(from[k].key_lo, bits)] == from[k]);
        }
    }
    assert forall|x: int| 0 <= x < after.len() && (#[trigger] after[x]).meta != 0 implies exists|
        k: int,
    |
        0 <= k < i + 1 && (#[trigger] from[k]).meta != 0 && slot_of_key(from[k].key_lo, bits) == x
            && after[x] == from[k] by {
        if x == j {
            assert(from[i].meta != 0);
        } else {
            assert(into[x].meta != 0);
            let k = choose|k: int|
                0 <= k < i && (#[trigger] from[k]).meta != 0 && slot_of_key(from[k].key_lo, bits)
                    == x && into[x] == from[k];
            assert(from[k].meta != 0);
        }
    }
}

} // verus!

//! Goal-distance fields of both players, kept per search ply and in a topology cache.
//!
//! A field is flooded only when nothing cheaper serves: along one line of play a new
//! wall that cuts no edge between neighbouring distances leaves a field as it is, a ply
//! slot may still hold the topology from an earlier visit, and the cache may know it
//! from another line.

use crate::board;
use crate::game;
use crate::game::GameState;
use crate::moves;
use crate::score::MAX_PLY;
use std::collections::HashMap;
use vstd::prelude::*;

verus! {

broadcast use vstd::std_specs::hash::group_hash_axioms;

/// Distance layers held inside a cache entry; deeper ones go to the spill map.
pub const DIST_LAYER_INLINE: usize = 16;

/// Index bits of the topology cache at the start and at most.
pub const DIST_LRU_MIN_BITS: usize = 13;

pub const DIST_LRU_MAX_BITS: usize = 13;

/// Key of an empty cache entry.
pub const NO_KEY: u64 = 0xFFFF_FFFF_FFFF_FFFF;

/// Bytes of a cache entry: scalars, padding to the alignment of the layers, layers.
pub fn dist_topo_entry_size_bytes() -> (n: usize)
    ensures
        n == 688,
{
    dist_topo_scalar_bytes() + 2 + dist_topo_layer_bytes()
}

/// Bytes of the scalars of a cache entry: key, two depths, two fields.
pub fn dist_topo_scalar_bytes() -> (n: usize)
    ensures
        n == 174,
{
    8 + 2 + 2 + 81 + 81
}

/// Bytes of the inline layers of both players.
pub fn dist_topo_layer_bytes() -> (n: usize)
    ensures
        n == 2 * DIST_LAYER_INLINE * 16,
        n == 512,
{
    2 * DIST_LAYER_INLINE * 16
}

/// One end of the `k`-th edge (of two) that the wall of move `m` stands on.
pub open spec fn cut_from(m: int, k: int) -> int {
    let s = moves::slot_of(m);
    let corner = (s / 8) * 9 + s % 8;
    if k == 0 {
        corner
    } else if moves::hwall_id(m) {
        corner + 1
    } else {
        corner + 9
    }
}

/// Its other end.
pub open spec fn cut_to(m: int, k: int) -> int {
    cut_from(m, k) + if moves::hwall_id(m) {
        9int
    } else {
        1int
    }
}

/// The distances at the ends of an edge differ by one: a shortest path may use it.
pub open spec fn adjacent_values(a: int, b: int) -> bool {
    a == b + 1 || b == a + 1
}

/// The wall of `m` stands on an edge that a shortest path may use.
pub open spec fn cuts_route(f: Seq<u8>, m: int) -> bool {
    adjacent_values(f[cut_from(m, 0)] as int, f[cut_to(m, 0)] as int) || adjacent_values(
        f[cut_from(m, 1)] as int,
        f[cut_to(m, 1)] as int,
    )
}

/// The step from `c` in direction `d` crosses the wall of `m`.
pub open spec fn crosses(m: int, c: int, d: int) -> bool {
    ||| c == cut_from(m, 0) && c + board::delta(d) == cut_to(m, 0)
    ||| c == cut_to(m, 0) && c + board::delta(d) == cut_from(m, 0)
    ||| c == cut_from(m, 1) && c + board::delta(d) == cut_to(m, 1)
    ||| c == cut_to(m, 1) && c + board::delta(d) == cut_from(m, 1)
}

/// A wall takes away only the steps across it.
pub proof fn lemma_wall_takes_crossings(w: board::Topo, m: int, c: int, d: int)
    requires
        board::topo_ok(w),
        moves::wall_id(m),
        0 <= c < 81,
        0 <= d < 4,
    ensures
        board::step_open(game::with_wall(w, m), c, d) ==> board::step_open(w, c, d),
        board::step_open(w, c, d) && !crosses(m, c, d) ==> board::step_open(
            game::with_wall(w, m),
            c,
            d,
        ),
{
    let s = moves::slot_of(m);
    let r = c / 9;
    let k = c % 9;
    let after = game::with_wall(w, m);
    assert(c == r * 9 + k);
    assert forall|rr: int, cc: int| #[trigger]
        board::wall_at(after.hw, rr, cc) == (board::wall_at(w.hw, rr, cc) || (moves::hwall_id(m)
            && rr == s / 8 && cc == s % 8)) by {
        if 0 <= rr < 8 && 0 <= cc < 8 {
            assert(0 <= rr * 8 + cc < 64);
            assert(rr * 8 + cc == s <==> rr == s / 8 && cc == s % 8);
        }
    }
    assert forall|rr: int, cc: int| #[trigger]
        board::wall_at(after.vw, rr, cc) == (board::wall_at(w.vw, rr, cc) || (!moves::hwall_id(m)
            && rr == s / 8 && cc == s % 8)) by {
        if 0 <= rr < 8 && 0 <= cc < 8 {
            assert(0 <= rr * 8 + cc < 64);
            assert(rr * 8 + cc == s <==> rr == s / 8 && cc == s % 8);
        }
    }
}

pub proof fn lemma_within_after_wall(w: board::Topo, m: int, side: int, c: int, n: nat)
    requires
        board::topo_ok(w),
        moves::wall_id(m),
        0 <= c < 81,
        board::goal_within(game::with_wall(w, m), side, c, n),
    ensures
        board::goal_within(w, side, c, n),
    decreases n,
{
    let after = game::with_wall(w, m);
    if !board::is_goal(side, c) {
        let d = choose|d: int|
            0 <= d < 4 && #[trigger] board::step_open(after, c, d) && board::goal_within(
                after,
                side,
                c + board::delta(d),
                (n - 1) as nat,
            );
        lemma_wall_takes_crossings(w, m, c, d);
        board::lemma_step_on_board(after, c, d);
        lemma_within_after_wall(w, m, side, c + board::delta(d), (n - 1) as nat);
    }
}

proof fn lemma_route_survives_wall(w: board::Topo, m: int, side: int, f: Seq<u8>, c: int)
    requires
        board::topo_ok(w),
        moves::wall_id(m),
        board::dist_field(w, side, f),
        !cuts_route(f, m),
        0 <= c < 81,
        f[c] != 255,
    ensures
        board::goal_within(game::with_wall(w, m), side, c, f[c] as nat),
    decreases f[c],
{
    let n = f[c] as nat;
    assert(board::dist_value(w, side, c, f[c] as int));
    if !board::is_goal(side, c) {
        assert(n > 0);
        let d = choose|d: int|
            0 <= d < 4 && #[trigger] board::step_open(w, c, d) && board::goal_within(
                w,
                side,
                c + board::delta(d),
                (n - 1) as nat,
            );
        let to = c + board::delta(d);
        board::lemma_step_on_board(w, c, d);
        assert(board::dist_value(w, side, to, f[to] as int));
        if f[to] > n - 1 && f[to] != 255 {
            board::lemma_goal_within_grows(w, side, to, (n - 1) as nat, (f[to] - 1) as nat);
        }
        if f[to] < n - 1 {
            assert(board::goal_within(w, side, c, (f[to] + 1) as nat));
            board::lemma_goal_within_grows(w, side, c, (f[to] + 1) as nat, (n - 1) as nat);
        }
        assert(f[to] == n - 1);
        lemma_wall_takes_crossings(w, m, c, d);
        lemma_route_survives_wall(w, m, side, f, to);
    } else {
        assert(board::goal_within(w, side, c, 0));
        if n > 0 {
            board::lemma_goal_within_grows(w, side, c, 0, (n - 1) as nat);
        }
    }
}

/// A wall that stands on no edge between neighbouring distances leaves the whole field
/// as it was.
pub proof fn law_field_survives_wall(w: board::Topo, m: int, side: int, f: Seq<u8>)
    requires
        board::topo_ok(w),
        moves::wall_id(m),
        board::dist_field(w, side, f),
        !cuts_route(f, m),
    ensures
        board::dist_field(game::with_wall(w, m), side, f),
{
    let after = game::with_wall(w, m);
    assert forall|c: int| 0 <= c < 81 implies board::dist_value(
        after,
        side,
        c,
        #[trigger] f[c] as int,
    ) by {
        assert(board::dist_value(w, side, c, f[c] as int));
        if f[c] == 255 {
            if board::reaches_goal(after, side, c) {
                let n = choose|n: nat| board::goal_within(after, side, c, n);
                lemma_within_after_wall(w, m, side, c, n);
            }
        } else {
            lemma_route_survives_wall(w, m, side, f, c);
            if f[c] > 0 && board::goal_within(after, side, c, (f[c] - 1) as nat) {
                lemma_within_after_wall(w, m, side, c, (f[c] - 1) as nat);
            }
        }
    }
}

fn differ_by_one(a: u8, b: u8) -> (yes: bool)
    ensures
        yes == adjacent_values(a as int, b as int),
{
    a as u16 == b as u16 + 1 || b as u16 == a as u16 + 1
}

fn wall_cuts_route(f: &[u8; 81], m: i16) -> (yes: bool)
    requires
        moves::wall_id(m as int),
    ensures
        yes == cuts_route(f@, m as int),
{
    let s: usize = moves::wall_slot(m);
    let corner: usize = (s / 8) * 9 + s % 8;
    if moves::is_hwall_move(m) {
        differ_by_one(f[corner], f[corner + 9]) || differ_by_one(f[corner + 1], f[corner + 10])
    } else {
        differ_by_one(f[corner], f[corner + 1]) || differ_by_one(f[corner + 9], f[corner + 10])
    }
}

/// Which of the two fields have to be looked at again after the wall of `m`?
pub fn wall_incr_refresh_flags(d0: &[u8; 81], d1: &[u8; 81], m: i16) -> (flags: (bool, bool))
    requires
        moves::wall_id(m as int),
    ensures
        flags.0 == cuts_route(d0@, m as int),
        flags.1 == cuts_route(d1@, m as int),
{
    (wall_cuts_route(d0, m), wall_cuts_route(d1, m))
}

/// Bit of a cell.
pub open spec fn cell_bit(c: int) -> u128 {
    1u128 << (c as u128)
}

/// Cells among the first `n` at distance `k`.
pub open spec fn layer_bits(f: Seq<u8>, k: int, n: int) -> u128
    decreases n,
{
    if n <= 0 {
        0
    } else if f[n - 1] == k {
        layer_bits(f, k, n - 1) | cell_bit(n - 1)
    } else {
        layer_bits(f, k, n - 1)
    }
}

/// One more than the largest finite distance among the first `n` cells.
pub open spec fn layer_count(f: Seq<u8>, n: int) -> int
    decreases n,
{
    if n <= 0 {
        0
    } else {
        let before = layer_count(f, n - 1);
        if f[n - 1] != 255 && f[n - 1] >= before {
            f[n - 1] + 1
        } else {
            before
        }
    }
}

/// The cells of a field, layer by layer.
pub open spec fn layers_of(f: Seq<u8>) -> Seq<u128> {
    Seq::new(layer_count(f, 81) as nat, |k: int| layer_bits(f, k, 81))
}

proof fn lemma_layer_count_bounds(f: Seq<u8>, n: int)
    requires
        0 <= n,
    ensures
        0 <= layer_count(f, n) <= 255,
    decreases n,
{
    if n > 0 {
        lemma_layer_count_bounds(f, n - 1);
    }
}

proof fn lemma_layer_bit(f: Seq<u8>, k: int, n: int, c: int)
    requires
        0 <= n <= 81,
        0 <= c < 81,
    ensures
        (layer_bits(f, k, n) & cell_bit(c) != 0) == (c < n && f[c] == k),
    decreases n,
{
    let one = cell_bit(c);
    let x = c as u128;
    if n <= 0 {
        assert(0u128 & one == 0) by (bit_vector);
    } else {
        lemma_layer_bit(f, k, n - 1, c);
        let rest = layer_bits(f, k, n - 1);
        let y = (n - 1) as u128;
        let top = cell_bit(n - 1);
        assert(((rest | top) & one != 0) == (rest & one != 0 || x == y)) by (bit_vector)
            requires
                x < 81,
                y < 81,
                one == 1u128 << x,
                top == 1u128 << y,
        ;
    }
}

/// A layer holds exactly the cells at its distance.
pub proof fn law_layers_are_the_field(f: Seq<u8>, k: int, c: int)
    requires
        f.len() == 81,
        0 <= k < layers_of(f).len(),
        0 <= c < 81,
    ensures
        (layers_of(f)[k] & cell_bit(c) != 0) == (f[c] == k),
{
    lemma_layer_bit(f, k, 81, c);
}

/// Splits a field into its layers.
pub fn fill_dist_layers(f: &[u8; 81]) -> (layers: Vec<u128>)
    ensures
        layers@ == layers_of(f@),
        layers@.len() <= 255,
{
    let mut count: usize = 0;
    let mut c: usize = 0;
    while c < 81
        invariant
            c <= 81,
            count == layer_count(f@, c as int),
            count <= 255,
        decreases 81 - c,
    {
        if f[c] != 255 && f[c] as usize >= count {
            count = f[c] as usize + 1;
        }
        c += 1;
    }
    let mut layers: Vec<u128> = Vec::new();
    let mut k: usize = 0;
    while k < count
        invariant
            k <= count,
            count == layer_count(f@, 81),
            count <= 255,
            layers@.len() == k,
            forall|j: int| 0 <= j < k ==> layers@[j] == layer_bits(f@, j, 81),
        decreases count - k,
    {
        let mut bits: u128 = 0;
        let mut c: usize = 0;
        while c < 81
            invariant
                c <= 81,
                k < 255,
                bits == layer_bits(f@, k as int, c as int),
            decreases 81 - c,
        {
            if f[c] as usize == k {
                bits = bits | (1u128 << (c as u128));
            }
            c += 1;
        }
        layers.push(bits);
        k += 1;
    }
    assert(layers@ =~= layers_of(f@));
    layers
}

/// Key times a fixed odd constant, in 64 bits.
pub open spec fn scrambled(key: u64) -> int {
    (key * 0x9E37_79B9_7F4A_7C15) % 0x1_0000_0000_0000_0000
}

/// Slot of a key among `1 << bits`: the top bits of its scrambled value.
#[verifier::opaque]
pub open spec fn hash_slot(key: u64, bits: nat) -> int {
    if bits == 0 {
        0
    } else {
        scrambled(key) / vstd::arithmetic::power2::pow2((64 - bits) as nat) as int
    }
}

pub proof fn lemma_hash_slot_bound(key: u64, bits: nat)
    requires
        bits <= 63,
    ensures
        0 <= hash_slot(key, bits) < vstd::arithmetic::power2::pow2(bits),
{
    reveal(hash_slot);
    vstd::arithmetic::power2::lemma2_to64();
    vstd::arithmetic::power2::lemma_pow2_pos(bits);
    if bits > 0 {
        let rest = (64 - bits) as nat;
        vstd::arithmetic::power2::lemma_pow2_adds(bits, rest);
        vstd::arithmetic::power2::lemma_pow2_pos(rest);
        let x = scrambled(key);
        let q = vstd::arithmetic::power2::pow2(rest) as int;
        let p = vstd::arithmetic::power2::pow2(bits) as int;
        assert(0 <= x < p * q);
        assert(0 <= x / q && x / q < p) by (nonlinear_arith)
            requires
                0 <= x < p * q,
                q > 0,
        ;
    }
}

/// Doubling the slots splits each one: the old slot follows from the new one.
proof fn lemma_hash_slot_splits(key: u64, bits: nat, more: nat)
    requires
        0 < bits <= more <= 63,
    ensures
        hash_slot(key, bits) == hash_slot(key, more) / vstd::arithmetic::power2::pow2(
            (more - bits) as nat,
        ) as int,
{
    reveal(hash_slot);
    let fine = (64 - more) as nat;
    let step = (more - bits) as nat;
    vstd::arithmetic::power2::lemma_pow2_pos(fine);
    vstd::arithmetic::power2::lemma_pow2_pos(step);
    vstd::arithmetic::power2::lemma_pow2_adds(fine, step);
    vstd::arithmetic::div_mod::lemma_div_denominator(
        scrambled(key),
        vstd::arithmetic::power2::pow2(fine) as int,
        vstd::arithmetic::power2::pow2(step) as int,
    );
}

/// Slot of a topology key.
pub fn dist_lru_slot(wkey: u64, bits: usize) -> (slot: usize)
    requires
        bits <= 31,
    ensures
        slot == hash_slot(wkey, bits as nat),
        slot < vstd::arithmetic::power2::pow2(bits as nat),
{
    proof {
        lemma_hash_slot_bound(wkey, bits as nat);
        reveal(hash_slot);
    }
    if bits == 0 {
        0
    } else {
        let product: u64 = wkey.wrapping_mul(0x9E37_79B9_7F4A_7C15);
        let shift: u64 = 64 - bits as u64;
        proof {
            vstd::bits::lemma_u64_shr_is_div(product, shift);
            vstd::arithmetic::power2::lemma2_to64();
            if bits < 31 {
                vstd::arithmetic::power2::lemma_pow2_strictly_increases(bits as nat, 31);
            }
        }
        (product >> shift) as usize
    }
}

/// Where the walls stand.
pub open spec fn walls(hw: [u8; 64], vw: [u8; 64]) -> board::Topo {
    board::Topo { hw: hw@, vw: vw@ }
}

/// One player's field in a ply slot.
#[derive(Debug)]
pub struct SideField {
    pub used: bool,
    pub key: u64,
    pub hw: [u8; 64],
    pub vw: [u8; 64],
    pub dist: [u8; 81],
    pub layers: Vec<u128>,
}

impl SideField {
    /// A used slot holds the field of its walls, and its layers where they are wanted.
    pub open spec fn holds(&self, side: int, route: bool) -> bool {
        self.used ==> {
            &&& board::dist_field(walls(self.hw, self.vw), side, self.dist@)
            &&& route ==> self.layers@ == layers_of(self.dist@)
        }
    }

    /// It serves the walls of `g`.
    pub open spec fn serves(&self, w: board::Topo, side: int) -> bool {
        self.used && board::dist_field(w, side, self.dist@)
    }

    fn empty() -> (f: SideField)
        ensures
            !f.used,
    {
        SideField {
            used: false,
            key: NO_KEY,
            hw: [0u8; 64],
            vw: [0u8; 64],
            dist: [255u8; 81],
            layers: Vec::new(),
        }
    }

    /// Floods the field of a position.
    fn flood(g: &GameState, wkey: u64, side: usize, route: bool) -> (f: SideField)
        requires
            g.wf(),
            side < 2,
        ensures
            f.holds(side as int, route),
            f.serves(g.topo(), side as int),
    {
        let dist: [u8; 81] = g.compute_dist(side);
        let layers: Vec<u128> = if route {
            fill_dist_layers(&dist)
        } else {
            Vec::new()
        };
        SideField { used: true, key: wkey, hw: g.hw, vw: g.vw, dist, layers }
    }

    /// Does the slot already hold exactly these walls?
    fn is_for(&self, g: &GameState, wkey: u64) -> (yes: bool)
        ensures
            yes == (self.used && self.key == wkey && walls(self.hw, self.vw) == g.topo()),
    {
        self.used && self.key == wkey && same_walls(&self.hw, &self.vw, &g.hw, &g.vw)
    }
}

/// Are the same slots walled?
pub fn same_walls(hw: &[u8; 64], vw: &[u8; 64], hw2: &[u8; 64], vw2: &[u8; 64]) -> (same: bool)
    ensures
        same == (walls(*hw, *vw) == walls(*hw2, *vw2)),
{
    let mut i: usize = 0;
    while i < 64
        invariant
            i <= 64,
            forall|k: int| 0 <= k < i ==> hw@[k] == hw2@[k] && vw@[k] == vw2@[k],
        decreases 64 - i,
    {
        if hw[i] != hw2[i] || vw[i] != vw2[i] {
            return false;
        }
        i += 1;
    }
    assert(hw@ =~= hw2@);
    assert(vw@ =~= vw2@);
    true
}

/// Layers beyond the inline ones of one cache entry.
#[derive(Debug)]
pub struct DistLayerSpill {
    pub d0_tail: Vec<u128>,
    pub d1_tail: Vec<u128>,
}

/// Both players' fields of one wall topology.
#[derive(Clone, Copy, Debug)]
pub struct DistTopoEntry {
    /// Topology key; all ones is an empty entry.
    pub key: u64,
    pub hw: [u8; 64],
    pub vw: [u8; 64],
    pub d0_depth: u16,
    pub d1_depth: u16,
    pub d0: [u8; 81],
    pub d1: [u8; 81],
    pub d0_layers: [u128; 16],
    pub d1_layers: [u128; 16],
}

/// Inline part, depth and tail together are the layers of `f`.
pub open spec fn layers_stored(depth: u16, head: [u128; 16], tail: Seq<u128>, f: Seq<u8>) -> bool {
    &&& depth == layers_of(f).len()
    &&& forall|k: int| 0 <= k < 16 && k < depth ==> head@[k] == layers_of(f)[k]
    &&& depth > 16 ==> tail == layers_of(f).subrange(16, depth as int)
}

impl DistTopoEntry {
    /// Some layers are in the spill map.
    pub open spec fn is_deep(&self) -> bool {
        self.d0_depth > 16 || self.d1_depth > 16
    }

    /// Both fields are those of the walls.
    #[verifier::opaque]
    pub open spec fn fields_ok(&self) -> bool {
        &&& board::dist_field(walls(self.hw, self.vw), 0, self.d0@)
        &&& board::dist_field(walls(self.hw, self.vw), 1, self.d1@)
    }

    /// The layers of both fields can be put together again.
    #[verifier::opaque]
    pub open spec fn layers_ok(&self, spill: Map<u64, DistLayerSpill>) -> bool {
        let tails = spill[self.key];
        &&& self.is_deep() ==> spill.contains_key(self.key)
        &&& layers_stored(self.d0_depth, self.d0_layers, tails.d0_tail@, self.d0@)
        &&& layers_stored(self.d1_depth, self.d1_layers, tails.d1_tail@, self.d1@)
    }

    fn empty() -> (e: DistTopoEntry)
        ensures
            e.key == NO_KEY,
            !e.is_deep(),
    {
        DistTopoEntry {
            key: NO_KEY,
            hw: [0u8; 64],
            vw: [0u8; 64],
            d0_depth: 0,
            d1_depth: 0,
            d0: [255u8; 81],
            d1: [255u8; 81],
            d0_layers: [0u128; 16],
            d1_layers: [0u128; 16],
        }
    }
}

/// Tails of other keys do not matter to an entry.
proof fn lemma_layers_frame(
    e: DistTopoEntry,
    spill: Map<u64, DistLayerSpill>,
    other: Map<u64, DistLayerSpill>,
)
    requires
        e.layers_ok(spill),
        e.is_deep() ==> other.contains_key(e.key) && other[e.key] == spill[e.key],
    ensures
        e.layers_ok(other),
{
    reveal(DistTopoEntry::layers_ok);
}

/// Everything stored in the cache is right, sits in its slot, and the spill map holds
/// the tails of deep entries and nothing else.
pub open spec fn cache_ok(
    lru: Seq<DistTopoEntry>,
    bits: nat,
    spill: Map<u64, DistLayerSpill>,
    route: bool,
) -> bool {
    &&& bits <= 31
    &&& lru.len() == vstd::arithmetic::power2::pow2(bits)
    &&& forall|i: int|
        0 <= i < lru.len() && (#[trigger] lru[i]).key != NO_KEY ==> hash_slot(lru[i].key, bits)
            == i && lru[i].fields_ok() && (route ==> lru[i].layers_ok(spill))
    &&& forall|k: u64| #[trigger]
        spill.contains_key(k) ==> k != NO_KEY && lru[hash_slot(k, bits)].key == k && lru[hash_slot(
            k,
            bits,
        )].is_deep()
    &&& forall|i: int|
        0 <= i < lru.len() && (#[trigger] lru[i]).is_deep() ==> lru[i].key != NO_KEY
}

/// Number of used entries among the first `n`.
pub open spec fn used_entries(lru: Seq<DistTopoEntry>, n: int) -> int
    decreases n,
{
    if n <= 0 {
        0
    } else {
        used_entries(lru, n - 1) + if lru[n - 1].key != NO_KEY {
            1int
        } else {
            0int
        }
    }
}

/// Layers from their inline part and tail.
fn join_layers(depth: usize, head: &[u128; 16], tail: Option<&Vec<u128>>, f: Ghost<Seq<u8>>) -> (layers:
    Vec<u128>)
    requires
        depth <= 65_535,
        layers_stored(
            depth as u16,
            *head,
            match tail {
                Some(t) => t@,
                None => Seq::empty(),
            },
            f@,
        ),
        depth > 16 ==> tail is Some,
    ensures
        layers@ == layers_of(f@),
{
    let mut layers: Vec<u128> = Vec::new();
    let n: usize = if depth < 16 {
        depth
    } else {
        16
    };
    let mut k: usize = 0;
    while k < n
        invariant
            k <= n <= 16,
            n <= depth,
            depth == layers_of(f@).len(),
            layers@ == layers_of(f@).subrange(0, k as int),
            forall|j: int| 0 <= j < 16 && j < depth ==> head@[j] == layers_of(f@)[j],
        decreases n - k,
    {
        layers.push(head[k]);
        k += 1;
        assert(layers@ =~= layers_of(f@).subrange(0, k as int));
    }
    if depth > 16 {
        if let Some(t) = tail {
            let mut j: usize = 0;
            let len: usize = t.len();
            while j < len
                invariant
                    j <= len,
                    len == t@.len(),
                    depth == layers_of(f@).len(),
                    depth > 16,
                    t@ == layers_of(f@).subrange(16, depth as int),
                    layers@ == layers_of(f@).subrange(0, 16 + j),
                decreases len - j,
            {
                layers.push(t[j]);
                j += 1;
                assert(layers@ =~= layers_of(f@).subrange(0, 16 + j));
            }
        }
    }
    assert(layers@ =~= layers_of(f@));
    layers
}

/// The inline part of some layers.
fn inline_layers(layers: &Vec<u128>) -> (head: [u128; 16])
    ensures
        forall|k: int| 0 <= k < 16 && k < layers@.len() ==> head@[k] == layers@[k],
{
    let mut head: [u128; 16] = [0u128; 16];
    let mut k: usize = 0;
    while k < 16 && k < layers.len()
        invariant
            k <= 16,
            k <= layers@.len(),
            forall|j: int| 0 <= j < k ==> head@[j] == layers@[j],
        decreases 16 - k,
    {
        head[k] = layers[k];
        k += 1;
    }
    head
}

/// The layers beyond the inline part.
fn tail_layers(layers: &Vec<u128>) -> (tail: Vec<u128>)
    ensures
        tail@ == if layers@.len() > 16 {
            layers@.subrange(16, layers@.len() as int)
        } else {
            Seq::empty()
        },
{
    let mut tail: Vec<u128> = Vec::new();
    let n: usize = layers.len();
    let mut k: usize = 16;
    while k < n
        invariant
            16 <= k,
            n == layers@.len(),
            k <= n || k == 16,
            tail@ == if k <= n {
                layers@.subrange(16, k as int)
            } else {
                Seq::empty()
            },
        decreases n - k,
    {
        tail.push(layers[k]);
        k += 1;
        assert(tail@ =~= layers@.subrange(16, k as int));
    }
    tail
}

/// `t` with stamp `s` was the topology at some point of the line that led to `w` with
/// `stamp`.
pub open spec fn on_line(w: board::Topo, stamp: int, hist: Seq<game::Played>, t: board::Topo, s: int) -> bool
    decreases hist.len(),
{
    (w == t && stamp == s) || (hist.len() > 0 && {
        let m = hist.last().mv as int;
        if moves::wall_id(m) {
            &&& game::with_wall(game::without_wall(w, m), m) == w
            &&& on_line(game::without_wall(w, m), stamp - 1, hist.drop_last(), t, s)
        } else {
            on_line(w, stamp, hist.drop_last(), t, s)
        }
    })
}

/// On one line a stamp names its topology.
proof fn lemma_stamp_names_topology(
    w: board::Topo,
    stamp: int,
    hist: Seq<game::Played>,
    t: board::Topo,
    s: int,
)
    requires
        on_line(w, stamp, hist, t, s),
    ensures
        s <= stamp,
        s == stamp ==> t == w,
    decreases hist.len(),
{
    if !(w == t && stamp == s) {
        let m = hist.last().mv as int;
        if moves::wall_id(m) {
            lemma_stamp_names_topology(
                game::without_wall(w, m),
                stamp - 1,
                hist.drop_last(),
                t,
                s,
            );
        } else {
            lemma_stamp_names_topology(w, stamp, hist.drop_last(), t, s);
        }
    }
}

/// A move keeps earlier topologies on the line.
pub proof fn lemma_on_line_played(p: game::Position, m: int, t: board::Topo, s: int)
    requires
        game::position_ok(p),
        game::accepts(p, m),
        on_line(p.w, p.stamp, p.hist, t, s),
    ensures
        ({
            let q = game::played(p, m);
            on_line(q.w, q.stamp, q.hist, t, s)
        }),
{
    let q = game::played(p, m);
    game::law_taken_back_undoes_played(p, m);
    assert(q.hist.drop_last() =~= p.hist);
    assert(q.hist.last().mv == m);
    if moves::wall_id(m) {
        assert(game::without_wall(q.w, m) == p.w) by {
            assert(game::taken_back(q).w == p.w);
        }
        assert(game::with_wall(p.w, m) == q.w);
    }
}

/// Live part of the cache, to come back to after a move has been taken back.
pub struct DistMark {
    pub dist0_idx: usize,
    pub dist1_idx: usize,
    pub cached_stamp: i32,
    pub live: Ghost<board::Topo>,
}

/// Distance fields of the position at hand.
pub struct DistCache {
    /// One slot per ply and player.
    pub f0: Vec<SideField>,
    pub f1: Vec<SideField>,
    /// Slots of the fields in use.
    pub dist0_idx: usize,
    pub dist1_idx: usize,
    /// Stamp of the topology in use; negative when there is none.
    pub cached_stamp: i32,
    /// The topology in use.
    pub live: Ghost<board::Topo>,
    pub dist_lru: Vec<DistTopoEntry>,
    pub dist_lru_bits: usize,
    pub dist_lru_max_bits: usize,
    pub dist_lru_filled: usize,
    pub dist_lru_growable: bool,
    pub dist_layer_spill: HashMap<u64, DistLayerSpill>,
    /// Are layers wanted?
    pub route_active: bool,
}

proof fn lemma_used_entries_bounds(lru: Seq<DistTopoEntry>, n: int)
    requires
        0 <= n,
    ensures
        0 <= used_entries(lru, n) <= n,
    decreases n,
{
    if n > 0 {
        lemma_used_entries_bounds(lru, n - 1);
    }
}

proof fn lemma_used_entries_set(lru: Seq<DistTopoEntry>, i: int, e: DistTopoEntry, n: int)
    requires
        0 <= i < lru.len(),
        0 <= n <= lru.len(),
        e.key != NO_KEY,
    ensures
        used_entries(lru.update(i, e), n) == used_entries(lru, n) + if i < n && lru[i].key
            == NO_KEY {
            1int
        } else {
            0int
        },
    decreases n,
{
    if n > 0 {
        lemma_used_entries_set(lru, i, e, n - 1);
    }
}

proof fn lemma_used_entries_none(lru: Seq<DistTopoEntry>, n: int)
    requires
        0 <= n <= lru.len(),
        forall|i: int| 0 <= i < lru.len() ==> (#[trigger] lru[i]).key == NO_KEY,
    ensures
        used_entries(lru, n) == 0,
    decreases n,
{
    if n > 0 {
        lemma_used_entries_none(lru, n - 1);
    }
}

/// The used ones among the first `i` entries stand in their slots of a larger table,
/// and nothing else does.
spec fn rehomed(from: Seq<DistTopoEntry>, i: int, into: Seq<DistTopoEntry>, bits: nat) -> bool {
    &&& forall|k: int|
        0 <= k < i && (#[trigger] from[k]).key != NO_KEY ==> into[hash_slot(from[k].key, bits)]
            == from[k]
    &&& forall|j: int|
        0 <= j < into.len() && (#[trigger] into[j]).key != NO_KEY ==> exists|k: int|
            0 <= k < i && (#[trigger] from[k]).key != NO_KEY && hash_slot(from[k].key, bits) == j
                && into[j] == from[k]
    &&& forall|j: int|
        0 <= j < into.len() && (#[trigger] into[j]).is_deep() ==> into[j].key != NO_KEY
    &&& used_entries(into, into.len() as int) == used_entries(from, i)
}

proof fn lemma_rehome_one(
    from: Seq<DistTopoEntry>,
    i: int,
    into: Seq<DistTopoEntry>,
    j: int,
    bits: nat,
)
    requires
        bits <= 31,
        rehomed(from, i, into, bits),
        into.len() == vstd::arithmetic::power2::pow2(bits),
        0 <= i < from.len(),
        0 <= j < into.len(),
        from[i].key != NO_KEY,
        into[j].key == NO_KEY,
        hash_slot(from[i].key, bits) == j,
    ensures
        rehomed(from, i + 1, into.update(j, from[i]), bits),
{
    let after = into.update(j, from[i]);
    lemma_used_entries_set(into, j, from[i], into.len() as int);
    assert forall|k: int| 0 <= k < i + 1 && (#[trigger] from[k]).key != NO_KEY implies after[hash_slot(
        from[k].key,
        bits,
    )] == from[k] by {
        lemma_hash_slot_bound(from[k].key, bits);
        if k < i {
            assert(into[hash_slot(from[k].key, bits)] == from[k]);
        }
    }
    assert forall|x: int| 0 <= x < after.len() && (#[trigger] after[x]).key
        != NO_KEY implies exists|k: int|
        0 <= k < i + 1 && (#[trigger] from[k]).key != NO_KEY && hash_slot(from[k].key, bits) == x
            && after[x] == from[k] by {
        if x == j {
            assert(from[i].key != NO_KEY);
        } else {
            assert(into[x].key != NO_KEY);
            let k = choose|k: int|
                0 <= k < i && (#[trigger] from[k]).key != NO_KEY && hash_slot(from[k].key, bits)
                    == x && into[x] == from[k];
            assert(from[k].key != NO_KEY);
        }
    }
    assert forall|x: int| 0 <= x < after.len() && (#[trigger] after[x]).is_deep() implies after[x].key
        != NO_KEY by {
        if x != j {
            assert(into[x].is_deep());
        }
    }
}

proof fn lemma_rehome_none(from: Seq<DistTopoEntry>, i: int, into: Seq<DistTopoEntry>, bits: nat)
    requires
        rehomed(from, i, into, bits),
        0 <= i < from.len(),
        from[i].key == NO_KEY,
    ensures
        rehomed(from, i + 1, into, bits),
{
    assert forall|x: int| 0 <= x < into.len() && (#[trigger] into[x]).key
        != NO_KEY implies exists|k: int|
        0 <= k < i + 1 && (#[trigger] from[k]).key != NO_KEY && hash_slot(from[k].key, bits) == x
            && into[x] == from[k] by {
        let k = choose|k: int|
            0 <= k < i && (#[trigger] from[k]).key != NO_KEY && hash_slot(from[k].key, bits) == x
                && into[x] == from[k];
        assert(from[k].key != NO_KEY);
    }
}

/// An empty table of `1 << bits` entries.
fn empty_entries(bits: usize) -> (lru: Vec<DistTopoEntry>)
    requires
        bits <= 31,
    ensures
        lru@.len() == vstd::arithmetic::power2::pow2(bits as nat),
        forall|i: int|
            0 <= i < lru@.len() ==> (#[trigger] lru@[i]).key == NO_KEY && !lru@[i].is_deep(),
{
    proof {
        vstd::arithmetic::power2::lemma2_to64();
        if bits < 31 {
            vstd::arithmetic::power2::lemma_pow2_strictly_increases(bits as nat, 31);
        }
        vstd::bits::lemma_usize_shl_is_mul(1usize, bits);
    }
    let size: usize = 1usize << bits;
    let mut lru: Vec<DistTopoEntry> = Vec::new();
    let mut i: usize = 0;
    while i < size
        invariant
            i <= size,
            lru@.len() == i,
            forall|k: int|
                0 <= k < i ==> (#[trigger] lru@[k]).key == NO_KEY && !lru@[k].is_deep(),
        decreases size - i,
    {
        lru.push(DistTopoEntry::empty());
        i += 1;
    }
    lru
}

fn empty_fields() -> (v: Vec<SideField>)
    ensures
        v@.len() == MAX_PLY,
        forall|i: int| 0 <= i < v@.len() ==> !(#[trigger] v@[i]).used,
{
    let mut v: Vec<SideField> = Vec::new();
    let mut i: usize = 0;
    while i < MAX_PLY
        invariant
            i <= MAX_PLY,
            v@.len() == i,
            forall|k: int| 0 <= k < i ==> !(#[trigger] v@[k]).used,
        decreases MAX_PLY - i,
    {
        v.push(SideField::empty());
        i += 1;
    }
    v
}

impl DistCache {
    /// Ply slots and cache hold what they say.
    pub open spec fn stores_ok(&self) -> bool {
        &&& self.f0@.len() == MAX_PLY
        &&& self.f1@.len() == MAX_PLY
        &&& forall|i: int| 0 <= i < MAX_PLY ==> (#[trigger] self.f0@[i]).holds(0, self.route_active)
        &&& forall|i: int| 0 <= i < MAX_PLY ==> (#[trigger] self.f1@[i]).holds(1, self.route_active)
        &&& cache_ok(
            self.dist_lru@,
            self.dist_lru_bits as nat,
            self.dist_layer_spill@,
            self.route_active,
        )
        &&& self.dist_lru_max_bits <= 31
        &&& self.dist_lru_filled == used_entries(self.dist_lru@, self.dist_lru@.len() as int)
        &&& self.dist0_idx < MAX_PLY
        &&& self.dist1_idx < MAX_PLY
    }

    /// Both fields in use are those of topology `w`.
    pub open spec fn fields_are(&self, w: board::Topo) -> bool {
        &&& self.f0@[self.dist0_idx as int].serves(w, 0)
        &&& self.f1@[self.dist1_idx as int].serves(w, 1)
    }

    pub open spec fn wf(&self) -> bool {
        self.stores_ok() && (self.cached_stamp >= 0 ==> self.fields_are(self.live@))
    }

    /// The topology in use, if any, lies on the line of play that led to `p`.
    pub open spec fn synced(&self, p: game::Position) -> bool {
        self.cached_stamp >= 0 ==> on_line(
            p.w,
            p.stamp,
            p.hist,
            self.live@,
            self.cached_stamp as int,
        )
    }

    /// The fields in use are those of `p`.
    pub open spec fn fresh(&self, p: game::Position) -> bool {
        self.cached_stamp == p.stamp && self.live@ == p.w
    }

    /// Everything but the slots of `ply` is where it was.
    pub open spec fn keeps_other_plies(&self, before: &DistCache, ply: int) -> bool {
        &&& self.f0@.len() == before.f0@.len()
        &&& self.f1@.len() == before.f1@.len()
        &&& forall|i: int| 0 <= i < MAX_PLY && i != ply ==> #[trigger] self.f0@[i] == before.f0@[i]
        &&& forall|i: int| 0 <= i < MAX_PLY && i != ply ==> #[trigger] self.f1@[i] == before.f1@[i]
    }

    /// Nothing cached.
    pub fn new(route_active: bool, bits: usize, max_bits: usize, growable: bool) -> (c: DistCache)
        requires
            bits <= 31,
            max_bits <= 31,
        ensures
            c.wf(),
            c.cached_stamp == -1,
            c.dist_lru_filled == 0,
            c.dist_lru_bits == bits,
            c.route_active == route_active,
            c.dist_lru_growable == growable,
    {
        let c = DistCache {
            f0: empty_fields(),
            f1: empty_fields(),
            dist0_idx: 0,
            dist1_idx: 0,
            cached_stamp: -1,
            live: Ghost(arbitrary()),
            dist_lru: empty_entries(bits),
            dist_lru_bits: bits,
            dist_lru_max_bits: max_bits,
            dist_lru_filled: 0,
            dist_lru_growable: growable,
            dist_layer_spill: HashMap::new(),
            route_active,
        };
        proof {
            lemma_used_entries_none(c.dist_lru@, c.dist_lru@.len() as int);
        }
        c
    }

    /// Forgets which fields are in use; the stores keep what they hold.
    pub fn invalidate(&mut self)
        requires
            old(self).wf(),
        ensures
            final(self).wf(),
            *final(self) == (DistCache { cached_stamp: -1i32, ..*old(self) }),
    {
        self.cached_stamp = -1;
    }

    /// Topology key in one word.
    fn topology_word(g: &GameState) -> (key: u64)
        requires
            g.wf(),
    {
        let (lo, hi) = g.wall_topology_key();
        (hi as u64) << 32 | lo as u64
    }

    /// Field of a player from the topology cache, if it knows these walls.
    fn dist_lru_load(&self, g: &GameState, wkey: u64, player: usize) -> (found: Option<SideField>)
        requires
            self.stores_ok(),
            g.wf(),
            player < 2,
        ensures
            found is Some <==> ({
                let e = self.dist_lru@[hash_slot(wkey, self.dist_lru_bits as nat)];
                wkey != NO_KEY && e.key == wkey && walls(e.hw, e.vw) == g.topo()
            }),
            found matches Some(f) ==> f.holds(player as int, self.route_active) && f.serves(
                g.topo(),
                player as int,
            ),
    {
        let slot: usize = dist_lru_slot(wkey, self.dist_lru_bits);
        let e = self.dist_lru[slot];
        if wkey == NO_KEY || e.key != wkey || !same_walls(&e.hw, &e.vw, &g.hw, &g.vw) {
            return None;
        }
        assert(self.dist_lru@[slot as int].fields_ok());
        proof {
            reveal(DistTopoEntry::layers_ok);
            reveal(DistTopoEntry::fields_ok);
        }
        let layers: Vec<u128> = if self.route_active {
            let spill = self.dist_layer_spill.get(&wkey);
            if player == 0 {
                let tail = match spill {
                    Some(s) => Some(&s.d0_tail),
                    None => None,
                };
                join_layers(e.d0_depth as usize, &e.d0_layers, tail, Ghost(e.d0@))
            } else {
                let tail = match spill {
                    Some(s) => Some(&s.d1_tail),
                    None => None,
                };
                join_layers(e.d1_depth as usize, &e.d1_layers, tail, Ghost(e.d1@))
            }
        } else {
            Vec::new()
        };
        let dist: [u8; 81] = if player == 0 {
            e.d0
        } else {
            e.d1
        };
        Some(SideField { used: true, key: wkey, hw: g.hw, vw: g.vw, dist, layers })
    }

    /// Puts both fields in use under the key of `g`.
    fn dist_lru_store(&mut self, g: &GameState, wkey: u64)
        requires
            old(self).stores_ok(),
            old(self).fields_are(g.topo()),
            g.wf(),
        ensures
            final(self).stores_ok(),
            final(self).f0 == old(self).f0,
            final(self).f1 == old(self).f1,
            final(self).dist0_idx == old(self).dist0_idx,
            final(self).dist1_idx == old(self).dist1_idx,
            final(self).route_active == old(self).route_active,
            final(self).cached_stamp == old(self).cached_stamp,
            final(self).live == old(self).live,
            wkey != NO_KEY ==> ({
                let e = final(self).dist_lru@[hash_slot(wkey, final(self).dist_lru_bits as nat)];
                e.key == wkey && walls(e.hw, e.vw) == g.topo()
            }),
    {
        if wkey == NO_KEY {
            return;
        }
        let ghost before = *self;
        let slot: usize = dist_lru_slot(wkey, self.dist_lru_bits);
        let i0: usize = self.dist0_idx;
        let i1: usize = self.dist1_idx;
        let old_key: u64 = self.dist_lru[slot].key;
        let old_was_deep: bool = self.dist_lru[slot].d0_depth > 16 || self.dist_lru[slot].d1_depth
            > 16;
        let size: usize = self.dist_lru.len();
        proof {
            lemma_layer_count_bounds(self.f0@[i0 as int].dist@, 81);
            lemma_layer_count_bounds(self.f1@[i1 as int].dist@, 81);
            assert(self.f0@[i0 as int].holds(0, self.route_active));
            assert(self.f1@[i1 as int].holds(1, self.route_active));
        }
        let (depth0, depth1): (usize, usize) = if self.route_active {
            (self.f0[i0].layers.len(), self.f1[i1].layers.len())
        } else {
            (0, 0)
        };
        let e = DistTopoEntry {
            key: wkey,
            hw: g.hw,
            vw: g.vw,
            d0_depth: depth0 as u16,
            d1_depth: depth1 as u16,
            d0: self.f0[i0].dist,
            d1: self.f1[i1].dist,
            d0_layers: inline_layers(&self.f0[i0].layers),
            d1_layers: inline_layers(&self.f1[i1].layers),
        };
        if old_was_deep && old_key != wkey {
            self.dist_layer_spill.remove(&old_key);
        }
        if depth0 > 16 || depth1 > 16 {
            let tails = DistLayerSpill {
                d0_tail: tail_layers(&self.f0[i0].layers),
                d1_tail: tail_layers(&self.f1[i1].layers),
            };
            self.dist_layer_spill.insert(wkey, tails);
        } else if old_was_deep && old_key == wkey {
            self.dist_layer_spill.remove(&wkey);
        }
        proof {
            lemma_used_entries_set(self.dist_lru@, slot as int, e, size as int);
            lemma_used_entries_bounds(self.dist_lru@.update(slot as int, e), size as int);
        }
        self.dist_lru.set(slot, e);
        if old_key == NO_KEY {
            self.dist_lru_filled = self.dist_lru_filled + 1;
        }
        proof {
            if self.route_active {
                assert(e.layers_ok(self.dist_layer_spill@)) by {
                    reveal(DistTopoEntry::layers_ok);
                }
            }
            assert(e.fields_ok()) by {
                reveal(DistTopoEntry::fields_ok);
            }
            self.lemma_stored(&before, slot as int, e, g.topo());
        }
        let ghost stored = self.dist_lru@;
        if self.dist_lru_growable && self.dist_lru_filled >= size - self.dist_lru_filled
            && self.dist_lru_bits < self.dist_lru_max_bits {
            self.dist_lru_grow();
            assert(stored[slot as int].key == wkey);
        }
    }

    /// The stores after one entry was put in its slot and the spill map adjusted.
    proof fn lemma_stored(&self, before: &DistCache, slot: int, e: DistTopoEntry, w: board::Topo)
        requires
            before.stores_ok(),
            before.fields_are(w),
            self.f0 == before.f0,
            self.f1 == before.f1,
            self.dist0_idx == before.dist0_idx,
            self.dist1_idx == before.dist1_idx,
            self.route_active == before.route_active,
            self.dist_lru_bits == before.dist_lru_bits,
            self.dist_lru_max_bits == before.dist_lru_max_bits,
            self.dist_lru@ == before.dist_lru@.update(slot, e),
            self.dist_lru_filled == used_entries(self.dist_lru@, self.dist_lru@.len() as int),
            e.key != NO_KEY,
            slot == hash_slot(e.key, self.dist_lru_bits as nat),
            0 <= slot < before.dist_lru@.len(),
            e.fields_ok(),
            self.route_active ==> e.layers_ok(self.dist_layer_spill@),
            e.is_deep() ==> self.dist_layer_spill@.contains_key(e.key),
            forall|k: u64| #[trigger]
                self.dist_layer_spill@.contains_key(k) <==> if k == e.key {
                    e.is_deep()
                } else {
                    before.dist_layer_spill@.contains_key(k) && k != before.dist_lru@[slot].key
                },
            forall|k: u64|
                k != e.key && #[trigger] self.dist_layer_spill@.contains_key(k)
                    ==> self.dist_layer_spill@[k] == before.dist_layer_spill@[k],
        ensures
            self.stores_ok(),
    {
        let lru = self.dist_lru@;
        let was = before.dist_lru@;
        let bits = self.dist_lru_bits as nat;
        assert forall|i: int| 0 <= i < lru.len() && (#[trigger] lru[i]).key
            != NO_KEY implies hash_slot(lru[i].key, bits) == i && lru[i].fields_ok() && (
        self.route_active ==> lru[i].layers_ok(self.dist_layer_spill@)) by {
            if i != slot {
                assert(was[i].key != NO_KEY);
                assert(lru[i] == was[i]);
                if self.route_active {
                    assert(was[i].layers_ok(before.dist_layer_spill@));
                    if was[i].is_deep() {
                        assert(before.dist_layer_spill@.contains_key(was[i].key)) by {
                            reveal(DistTopoEntry::layers_ok);
                        }
                        assert(was[i].key != e.key);
                        assert(was[i].key != was[slot].key) by {
                            if was[i].key == was[slot].key {
                                assert(was[slot].key != NO_KEY);
                            }
                        }
                        assert(self.dist_layer_spill@.contains_key(was[i].key));
                    }
                    lemma_layers_frame(
                        was[i],
                        before.dist_layer_spill@,
                        self.dist_layer_spill@,
                    );
                }
            }
        }
        assert forall|k: u64| #[trigger] self.dist_layer_spill@.contains_key(k) implies k != NO_KEY
            && lru[hash_slot(k, bits)].key == k && lru[hash_slot(k, bits)].is_deep() by {
            if k != e.key {
                assert(before.dist_layer_spill@.contains_key(k));
                lemma_hash_slot_bound(k, bits);
                assert(was[hash_slot(k, bits)].key == k);
            }
        }
        assert forall|i: int| 0 <= i < lru.len() && (#[trigger] lru[i]).is_deep() implies lru[i].key
            != NO_KEY by {
            if i != slot {
                assert(was[i].is_deep());
            }
        }
    }

    /// Moves every entry to a table of up to four times the size. Nothing is lost.
    fn dist_lru_grow(&mut self)
        requires
            old(self).stores_ok(),
        ensures
            final(self).stores_ok(),
            final(self).dist_lru_bits == if old(self).dist_lru_bits + 2 < old(self).dist_lru_max_bits {
                old(self).dist_lru_bits + 2
            } else if old(self).dist_lru_bits < old(self).dist_lru_max_bits {
                old(self).dist_lru_max_bits as int
            } else {
                old(self).dist_lru_bits as int
            },
            forall|i: int|
                0 <= i < old(self).dist_lru@.len() && (#[trigger] old(self).dist_lru@[i]).key
                    != NO_KEY ==> final(self).dist_lru@[hash_slot(
                    old(self).dist_lru@[i].key,
                    final(self).dist_lru_bits as nat,
                )] == old(self).dist_lru@[i],
            *final(self) == (DistCache {
                dist_lru: final(self).dist_lru,
                dist_lru_bits: final(self).dist_lru_bits,
                ..*old(self)
            }),
    {
        let b: usize = self.dist_lru_bits;
        let nb: usize = if b + 2 < self.dist_lru_max_bits {
            b + 2
        } else {
            self.dist_lru_max_bits
        };
        if nb <= b {
            return;
        }
        let ghost from = self.dist_lru@;
        let mut grown: Vec<DistTopoEntry> = empty_entries(nb);
        let n: usize = self.dist_lru.len();
        let mut i: usize = 0;
        proof {
            lemma_used_entries_none(grown@, grown@.len() as int);
        }
        while i < n
            invariant
                i <= n,
                n == from.len(),
                from == self.dist_lru@,
                self.dist_lru_bits == b,
                self.stores_ok(),
                *self == *old(self),
                b < nb <= 31,
                grown@.len() == vstd::arithmetic::power2::pow2(nb as nat),
                rehomed(from, i as int, grown@, nb as nat),
            decreases n - i,
        {
            let e = self.dist_lru[i];
            if e.key != NO_KEY {
                let j: usize = dist_lru_slot(e.key, nb);
                proof {
                    if grown@[j as int].key != NO_KEY {
                        let k = choose|k: int|
                            0 <= k < i && (#[trigger] from[k]).key != NO_KEY && hash_slot(
                                from[k].key,
                                nb as nat,
                            ) == j && grown@[j as int] == from[k];
                        assert(hash_slot(from[k].key, b as nat) == k);
                        assert(hash_slot(from[i as int].key, b as nat) == i);
                        if b == 0 {
                            vstd::arithmetic::power2::lemma2_to64();
                        } else {
                            lemma_hash_slot_splits(from[k].key, b as nat, nb as nat);
                            lemma_hash_slot_splits(e.key, b as nat, nb as nat);
                        }
                    }
                    lemma_rehome_one(from, i as int, grown@, j as int, nb as nat);
                }
                grown.set(j, e);
            } else {
                proof {
                    lemma_rehome_none(from, i as int, grown@, nb as nat);
                }
            }
            i += 1;
        }
        proof {
            assert forall|j: int| 0 <= j < grown@.len() && (#[trigger] grown@[j]).key
                != NO_KEY implies hash_slot(grown@[j].key, nb as nat) == j && grown@[j].fields_ok()
                && (self.route_active ==> grown@[j].layers_ok(self.dist_layer_spill@)) by {
                let k = choose|k: int|
                    0 <= k < n && (#[trigger] from[k]).key != NO_KEY && hash_slot(
                        from[k].key,
                        nb as nat,
                    ) == j && grown@[j] == from[k];
                assert(from[k].key != NO_KEY);
            }
            assert forall|k: u64| #[trigger] self.dist_layer_spill@.contains_key(k) implies k
                != NO_KEY && grown@[hash_slot(k, nb as nat)].key == k && grown@[hash_slot(
                k,
                nb as nat,
            )].is_deep() by {
                lemma_hash_slot_bound(k, b as nat);
                let x = hash_slot(k, b as nat);
                assert(from[x].key == k);
            }
        }
        self.dist_lru = grown;
        self.dist_lru_bits = nb;
    }

    /// Makes slot `ply` of a player hold the field of `g`. Tells whether it had to be
    /// flooded.
    fn fill_slot(&mut self, g: &GameState, wkey: u64, ply: usize, player: usize) -> (reflooded: bool)
        requires
            old(self).stores_ok(),
            g.wf(),
            ply < MAX_PLY,
            player < 2,
        ensures
            final(self).stores_ok(),
            final(self).keeps_other_plies(old(self), ply as int),
            player == 0 ==> final(self).f0@[ply as int].serves(g.topo(), 0) && final(self).f1
                == old(self).f1,
            player == 1 ==> final(self).f1@[ply as int].serves(g.topo(), 1) && final(self).f0
                == old(self).f0,
            *final(self) == (DistCache { f0: final(self).f0, f1: final(self).f1, ..*old(self) }),
    {
        assert(self.f0@[ply as int].holds(0, self.route_active));
        assert(self.f1@[ply as int].holds(1, self.route_active));
        let held: bool = if player == 0 {
            self.f0[ply].is_for(g, wkey)
        } else {
            self.f1[ply].is_for(g, wkey)
        };
        if held {
            return false;
        }
        let loaded = self.dist_lru_load(g, wkey, player);
        let reflooded: bool = loaded.is_none();
        let field = match loaded {
            Some(f) => f,
            None => SideField::flood(g, wkey, player, self.route_active),
        };
        if player == 0 {
            self.f0.set(ply, field);
        } else {
            self.f1.set(ply, field);
        }
        reflooded
    }

    /// Brings the fields in use up to the position. `ply` is the node's own slot; no
    /// other ply's slot is written.
    pub fn refresh_dist_inner(&mut self, g: &GameState, ply: usize)
        requires
            old(self).wf(),
            g.wf(),
            ply < MAX_PLY,
            old(self).synced(g@),
        ensures
            final(self).wf(),
            final(self).fresh(g@),
            final(self).fields_are(g.topo()),
            final(self).keeps_other_plies(old(self), ply as int),
            final(self).dist0_idx == old(self).dist0_idx || final(self).dist0_idx == ply,
            final(self).dist1_idx == old(self).dist1_idx || final(self).dist1_idx == ply,
            old(self).cached_stamp < 0 ==> final(self).dist0_idx == ply && final(self).dist1_idx
                == ply,
            old(self).cached_stamp == g.wall_stamp ==> *final(self) == *old(self),
            final(self).route_active == old(self).route_active,
    {
        let stamp: i32 = g.wall_stamp;
        let ghost p = g@;
        proof {
            if self.cached_stamp >= 0 {
                lemma_stamp_names_topology(
                    p.w,
                    p.stamp,
                    p.hist,
                    self.live@,
                    self.cached_stamp as int,
                );
            }
        }
        if self.cached_stamp == stamp {
            return;
        }
        let n: usize = g.hist_len();
        if self.cached_stamp >= 0 && self.cached_stamp == stamp - 1 && n > 0 {
            let m: i16 = g.hist[n - 1].mv;
            if moves::is_wall_move(m) {
                proof {
                    assert(p.hist.last().mv == m);
                    lemma_stamp_names_topology(
                        game::without_wall(p.w, m as int),
                        p.stamp - 1,
                        p.hist.drop_last(),
                        self.live@,
                        self.cached_stamp as int,
                    );
                    assert(game::with_wall(self.live@, m as int) == p.w);
                    assert(board::topo_ok(self.live@));
                }
                let (refresh0, refresh1) = wall_incr_refresh_flags(
                    &self.f0[self.dist0_idx].dist,
                    &self.f1[self.dist1_idx].dist,
                    m,
                );
                proof {
                    if !refresh0 {
                        law_field_survives_wall(
                            self.live@,
                            m as int,
                            0,
                            self.f0@[self.dist0_idx as int].dist@,
                        );
                    }
                    if !refresh1 {
                        law_field_survives_wall(
                            self.live@,
                            m as int,
                            1,
                            self.f1@[self.dist1_idx as int].dist@,
                        );
                    }
                }
                let wkey: u64 = Self::topology_word(g);
                let mut reflooded: bool = false;
                if refresh0 {
                    self.dist0_idx = ply;
                    if self.fill_slot(g, wkey, ply, 0) {
                        reflooded = true;
                    }
                }
                if refresh1 {
                    self.dist1_idx = ply;
                    if self.fill_slot(g, wkey, ply, 1) {
                        reflooded = true;
                    }
                }
                if reflooded {
                    self.dist_lru_store(g, wkey);
                }
                self.cached_stamp = stamp;
                self.live = Ghost(g.topo());
                return;
            }
        }
        self.dist0_idx = ply;
        self.dist1_idx = ply;
        let wkey: u64 = Self::topology_word(g);
        let d0_todo: bool = self.fill_slot(g, wkey, ply, 0);
        let d1_todo: bool = self.fill_slot(g, wkey, ply, 1);
        if d0_todo || d1_todo {
            self.dist_lru_store(g, wkey);
        }
        self.cached_stamp = stamp;
        self.live = Ghost(g.topo());
    }

    /// What is in use now.
    pub fn mark(&self) -> (m: DistMark)
        ensures
            m.dist0_idx == self.dist0_idx,
            m.dist1_idx == self.dist1_idx,
            m.cached_stamp == self.cached_stamp,
            m.live == self.live,
    {
        DistMark {
            dist0_idx: self.dist0_idx,
            dist1_idx: self.dist1_idx,
            cached_stamp: self.cached_stamp,
            live: self.live,
        }
    }

    /// Goes back to what was in use at the mark.
    pub fn restore(&mut self, m: &DistMark)
        requires
            old(self).wf(),
            m.dist0_idx < MAX_PLY,
            m.dist1_idx < MAX_PLY,
            m.cached_stamp >= 0 ==> old(self).f0@[m.dist0_idx as int].serves(m.live@, 0)
                && old(self).f1@[m.dist1_idx as int].serves(m.live@, 1),
        ensures
            final(self).wf(),
            *final(self) == (DistCache {
                dist0_idx: m.dist0_idx,
                dist1_idx: m.dist1_idx,
                cached_stamp: m.cached_stamp,
                live: m.live,
                ..*old(self)
            }),
    {
        self.dist0_idx = m.dist0_idx;
        self.dist1_idx = m.dist1_idx;
        self.cached_stamp = m.cached_stamp;
        self.live = m.live;
    }

    /// Distance of a cell to a player's goal row in the topology in use.
    pub fn distance(&self, side: usize, cell: usize) -> (d: u8)
        requires
            self.wf(),
            self.cached_stamp >= 0,
            side < 2,
            cell < 81,
        ensures
            board::dist_value(self.live@, side as int, cell as int, d as int),
            d == if side == 0 {
                self.f0@[self.dist0_idx as int].dist@[cell as int]
            } else {
                self.f1@[self.dist1_idx as int].dist@[cell as int]
            },
    {
        if side == 0 {
            self.f0[self.dist0_idx].dist[cell]
        } else {
            self.f1[self.dist1_idx].dist[cell]
        }
    }
}

} // verus!

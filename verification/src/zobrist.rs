//! Position keys: one 64-bit mixing constant, split in two halves, per pawn
//! placement, wall and side to move. A position's key is the exclusive or of the
//! constants of what stands on it.

use crate::board;
use vstd::prelude::*;

verus! {

/// Index of the side-to-move constant.
pub const TURN_KEY: u32 = 162;

/// Index of the first horizontal wall constant.
pub const HW_KEY: u32 = 163;

/// Index of the first vertical wall constant.
pub const VW_KEY: u32 = 227;

/// Low or high half of the mixing constant number `k`.
pub closed spec fn zob(k: u32, hi: bool) -> u32 {
    let seed: u32 = if hi {
        0x7F4A_7C15
    } else {
        0x9E37_79B9
    };
    let a: u32 = k.wrapping_mul(0x9E37_79B1).wrapping_add(seed);
    let b: u32 = (a ^ (a >> 16)).wrapping_mul(0x85EB_CA6B);
    let c: u32 = (b ^ (b >> 13)).wrapping_mul(0xC2B2_AE35);
    c ^ (c >> 16)
}

/// Computes a mixing constant.
pub fn zobrist(k: u32, hi: bool) -> (z: u32)
    ensures
        z == zob(k, hi),
{
    let seed: u32 = if hi {
        0x7F4A_7C15
    } else {
        0x9E37_79B9
    };
    let a: u32 = k.wrapping_mul(0x9E37_79B1).wrapping_add(seed);
    let b: u32 = (a ^ (a >> 16)).wrapping_mul(0x85EB_CA6B);
    let c: u32 = (b ^ (b >> 13)).wrapping_mul(0xC2B2_AE35);
    c ^ (c >> 16)
}

/// Combined constants of the walls standing in the first `n` slots of a table.
pub open spec fn slots_key(slots: Seq<u8>, base: u32, n: int, hi: bool) -> u32
    decreases n,
{
    if n <= 0 {
        0
    } else {
        slots_key(slots, base, n - 1, hi) ^ if slots[n - 1] != 0 {
            zob((base + n - 1) as u32, hi)
        } else {
            0
        }
    }
}

/// Key of the walls alone.
pub open spec fn walls_key(w: board::Topo, hi: bool) -> u32 {
    slots_key(w.hw, HW_KEY, 64, hi) ^ slots_key(w.vw, VW_KEY, 64, hi)
}

/// Constant of the side to move.
pub open spec fn turn_key(turn: int, hi: bool) -> u32 {
    if turn == 1 {
        zob(TURN_KEY, hi)
    } else {
        0
    }
}

/// Key of a whole position.
pub open spec fn position_key(w: board::Topo, p0: int, p1: int, turn: int, hi: bool) -> u32 {
    walls_key(w, hi) ^ zob(p0 as u32, hi) ^ zob((81 + p1) as u32, hi) ^ turn_key(turn, hi)
}

/// Exclusive or may be reordered.
pub proof fn lemma_xor_swap(a: u32, b: u32, c: u32)
    ensures
        (a ^ b) ^ c == (a ^ c) ^ b,
{
    assert((a ^ b) ^ c == (a ^ c) ^ b) by (bit_vector);
}

/// Exclusive or with zero, and with the same value twice, changes nothing.
pub proof fn lemma_xor_cancel(a: u32, b: u32)
    ensures
        a ^ 0 == a,
        0 ^ a == a,
        (a ^ b) ^ b == a,
        a ^ a == 0,
{
    assert(a ^ 0 == a) by (bit_vector);
    assert(0 ^ a == a) by (bit_vector);
    assert((a ^ b) ^ b == a) by (bit_vector);
    assert(a ^ a == 0) by (bit_vector);
}

/// Putting a wall into a free slot adds its constant to the key of the table.
pub proof fn lemma_slots_key_put(slots: Seq<u8>, base: u32, s: int, v: u8, n: int, hi: bool)
    requires
        0 <= s < slots.len(),
        slots[s] == 0,
        v != 0,
        0 <= n <= slots.len(),
        base + slots.len() < 0x1_0000,
    ensures
        slots_key(slots.update(s, v), base, n, hi) == if s < n {
            slots_key(slots, base, n, hi) ^ zob((base + s) as u32, hi)
        } else {
            slots_key(slots, base, n, hi)
        },
    decreases n,
{
    if n > 0 {
        lemma_slots_key_put(slots, base, s, v, n - 1, hi);
        let last = if slots[n - 1] != 0 {
            zob((base + n - 1) as u32, hi)
        } else {
            0
        };
        let z = zob((base + s) as u32, hi);
        let rest = slots_key(slots, base, n - 1, hi);
        if s < n - 1 {
            lemma_xor_swap(rest, z, last);
        } else if s == n - 1 {
            lemma_xor_cancel(rest, 0);
        }
    }
}

} // verus!

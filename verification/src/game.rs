//! Game state: pawns, walls, hands, side to move and the moves played so far.

use crate::board;
use crate::moves;
use crate::zobrist;
use vstd::prelude::*;

verus! {

/// Longest game the history can hold.
pub const MAX_HISTORY: usize = 1_000_000_000;

/// One move of the history, with what is needed to take it back.
#[derive(Clone, Copy, Debug, PartialEq, Eq, Structural)]
pub struct Played {
    /// Move identifier.
    pub mv: i16,
    /// The mover's cell before the move.
    pub from: usize,
    /// `last_wall_ply` before the move.
    pub last_wall_ply: usize,
    /// Position key before the move.
    pub hash_lo: u32,
    pub hash_hi: u32,
}

/// A Quoridor game in progress.
#[derive(Debug)]
pub struct GameState {
    /// Cell of each pawn.
    pub pawn: [usize; 2],
    /// Walls left in each hand.
    pub wl: [i32; 2],
    /// Player to move.
    pub turn: usize,
    /// Horizontal walls on the board.
    pub hw: [u8; 64],
    /// Vertical walls on the board.
    pub vw: [u8; 64],
    /// Position key.
    pub hash_lo: u32,
    pub hash_hi: u32,
    /// Number of walls played; names the wall topology along one line of play.
    pub wall_stamp: i32,
    /// Number of moves played when the last wall went down: positions before it
    /// cannot come back.
    pub last_wall_ply: usize,
    /// Moves played so far.
    pub hist: Vec<Played>,
}

/// Mathematical view of a game.
#[verifier::ext_equal]
pub struct Position {
    pub w: board::Topo,
    pub p0: int,
    pub p1: int,
    pub wl0: int,
    pub wl1: int,
    pub turn: int,
    pub hash_lo: u32,
    pub hash_hi: u32,
    pub stamp: int,
    pub last_wall_ply: int,
    pub hist: Seq<Played>,
}

impl View for GameState {
    type V = Position;

    open spec fn view(&self) -> Position {
        Position {
            w: self.topo(),
            p0: self.pawn[0] as int,
            p1: self.pawn[1] as int,
            wl0: self.wl[0] as int,
            wl1: self.wl[1] as int,
            turn: self.turn as int,
            hash_lo: self.hash_lo,
            hash_hi: self.hash_hi,
            stamp: self.wall_stamp as int,
            last_wall_ply: self.last_wall_ply as int,
            hist: self.hist@,
        }
    }
}

/// Pawn of a player.
pub open spec fn pawn_of(p: Position, side: int) -> int {
    if side == 0 {
        p.p0
    } else {
        p.p1
    }
}

/// Walls in a player's hand.
pub open spec fn hand_of(p: Position, side: int) -> int {
    if side == 0 {
        p.wl0
    } else {
        p.wl1
    }
}

/// What every reachable position satisfies: pawns on the board, a side to move, and
/// the key of exactly what stands on it.
pub open spec fn position_ok(p: Position) -> bool {
    &&& board::topo_ok(p.w)
    &&& 0 <= p.p0 < 81
    &&& 0 <= p.p1 < 81
    &&& p.turn == 0 || p.turn == 1
    &&& p.hash_lo == zobrist::position_key(p.w, p.p0, p.p1, p.turn, false)
    &&& p.hash_hi == zobrist::position_key(p.w, p.p0, p.p1, p.turn, true)
    &&& p.last_wall_ply <= p.hist.len()
    &&& 0 <= p.last_wall_ply
    &&& 0 <= p.stamp <= p.hist.len()
    &&& p.hist.len() <= MAX_HISTORY
}

/// The slot of a wall move is free in its own table.
pub open spec fn slot_is_free(w: board::Topo, m: int) -> bool {
    if moves::hwall_id(m) {
        w.hw[moves::slot_of(m)] == 0
    } else {
        w.vw[moves::slot_of(m)] == 0
    }
}

/// A move the history has room for and whose effect is defined: a pawn destination
/// or a wall on a free slot.
pub open spec fn accepts(p: Position, m: int) -> bool {
    &&& p.hist.len() < MAX_HISTORY
    &&& moves::pawn_id(m) || (moves::wall_id(m) && slot_is_free(p.w, m) && hand_of(p, p.turn)
        > i32::MIN)
}

/// Topology with the wall of move `m` added.
pub open spec fn with_wall(w: board::Topo, m: int) -> board::Topo {
    if moves::hwall_id(m) {
        board::Topo { hw: w.hw.update(moves::slot_of(m), 1u8), vw: w.vw }
    } else {
        board::Topo { hw: w.hw, vw: w.vw.update(moves::slot_of(m), 1u8) }
    }
}

/// Topology with the wall of move `m` taken away.
pub open spec fn without_wall(w: board::Topo, m: int) -> board::Topo {
    if moves::hwall_id(m) {
        board::Topo { hw: w.hw.update(moves::slot_of(m), 0u8), vw: w.vw }
    } else {
        board::Topo { hw: w.hw, vw: w.vw.update(moves::slot_of(m), 0u8) }
    }
}

/// Recomputes both halves of the key.
pub open spec fn rekeyed(p: Position) -> Position {
    Position {
        hash_lo: zobrist::position_key(p.w, p.p0, p.p1, p.turn, false),
        hash_hi: zobrist::position_key(p.w, p.p0, p.p1, p.turn, true),
        ..p
    }
}

/// The position after move `m`.
pub open spec fn played(p: Position, m: int) -> Position {
    let record = Played {
        mv: m as i16,
        from: pawn_of(p, p.turn) as usize,
        last_wall_ply: p.last_wall_ply as usize,
        hash_lo: p.hash_lo,
        hash_hi: p.hash_hi,
    };
    let base = Position { turn: 1 - p.turn, hist: p.hist.push(record), ..p };
    rekeyed(
        if moves::pawn_id(m) {
            if p.turn == 0 {
                Position { p0: m, ..base }
            } else {
                Position { p1: m, ..base }
            }
        } else {
            let placed = Position {
                w: with_wall(p.w, m),
                stamp: p.stamp + 1,
                last_wall_ply: p.hist.len() as int + 1,
                ..base
            };
            if p.turn == 0 {
                Position { wl0: p.wl0 - 1, ..placed }
            } else {
                Position { wl1: p.wl1 - 1, ..placed }
            }
        },
    )
}

/// The position before the last move.
pub open spec fn taken_back(p: Position) -> Position {
    let record = p.hist.last();
    let m = record.mv as int;
    let side = 1 - p.turn;
    let base = Position {
        turn: side,
        hist: p.hist.drop_last(),
        last_wall_ply: record.last_wall_ply as int,
        hash_lo: record.hash_lo,
        hash_hi: record.hash_hi,
        ..p
    };
    if moves::pawn_id(m) {
        if side == 0 {
            Position { p0: record.from as int, ..base }
        } else {
            Position { p1: record.from as int, ..base }
        }
    } else {
        let lifted = Position { w: without_wall(p.w, m), stamp: p.stamp - 1, ..base };
        if side == 0 {
            Position { wl0: p.wl0 + 1, ..lifted }
        } else {
            Position { wl1: p.wl1 + 1, ..lifted }
        }
    }
}

/// The last move can be taken back: it names a move, and the position before it is
/// orderly.
pub open spec fn can_take_back(p: Position) -> bool {
    &&& p.hist.len() > 0
    &&& moves::move_id(p.hist.last().mv as int)
    &&& position_ok(taken_back(p))
    &&& moves::wall_id(p.hist.last().mv as int) ==> hand_of(p, 1 - p.turn) < i32::MAX
}

/// A move leads from an orderly position to an orderly position.
pub proof fn law_played_keeps_order(p: Position, m: int)
    requires
        position_ok(p),
        accepts(p, m),
    ensures
        position_ok(played(p, m)),
{
}

/// Taking a move back restores the position it was played in.
pub proof fn law_taken_back_undoes_played(p: Position, m: int)
    requires
        position_ok(p),
        accepts(p, m),
    ensures
        taken_back(played(p, m)) == p,
        hand_of(p, p.turn) <= i32::MAX ==> can_take_back(played(p, m)),
{
    let q = played(p, m);
    assert(q.hist.last().mv == m);
    assert(q.hist.drop_last() =~= p.hist);
    if moves::wall_id(m) {
        assert(without_wall(with_wall(p.w, m), m) =~= p.w) by {
            let s = moves::slot_of(m);
            if moves::hwall_id(m) {
                assert(p.w.hw.update(s, 1u8).update(s, 0u8) =~= p.w.hw);
            } else {
                assert(p.w.vw.update(s, 1u8).update(s, 0u8) =~= p.w.vw);
            }
        }
    }
    assert(taken_back(q) =~= p);
}

/// Side to move after a pass of the turn.
pub open spec fn passed(p: Position) -> Position {
    rekeyed(Position { turn: 1 - p.turn, ..p })
}

/// Geometric rule for walls: the slot is free in both tables and no parallel wall
/// overlaps it.
pub open spec fn fits(w: board::Topo, wall_type: int, slot: int) -> bool {
    let r = slot / 8;
    let c = slot % 8;
    &&& w.hw[slot] == 0
    &&& w.vw[slot] == 0
    &&& if wall_type == 0 {
        !board::wall_at(w.hw, r, c - 1) && !board::wall_at(w.hw, r, c + 1)
    } else {
        !board::wall_at(w.vw, r - 1, c) && !board::wall_at(w.vw, r + 1, c)
    }
}

/// Full rule for walls: geometry, and both pawns still reach their goals.
pub open spec fn wall_is_legal(p: Position, wall_type: int, slot: int) -> bool {
    let after = with_wall(p.w, moves::wall_move_id(wall_type, slot));
    fits(p.w, wall_type, slot) && board::reaches_goal(after, 0, p.p0) && board::reaches_goal(
        after,
        1,
        p.p1,
    )
}

/// First of the two directions across `d`.
pub open spec fn across(d: int) -> int {
    if d < 2 {
        2
    } else {
        0
    }
}

/// Destinations of a pawn on `me` in direction `d` against a pawn on `opp`: the next
/// cell, or over the other pawn straight ahead, or past it to a side when straight
/// ahead is closed.
pub open spec fn targets_in(w: board::Topo, me: int, opp: int, d: int) -> Seq<i16> {
    let to = me + board::delta(d);
    if !board::step_open(w, me, d) {
        Seq::empty()
    } else if to != opp {
        seq![to as i16]
    } else if board::step_open(w, opp, d) {
        seq![(opp + board::delta(d)) as i16]
    } else {
        let a = across(d);
        (if board::step_open(w, opp, a) {
            seq![(opp + board::delta(a)) as i16]
        } else {
            Seq::empty()
        }) + (if board::step_open(w, opp, a + 1) {
            seq![(opp + board::delta(a + 1)) as i16]
        } else {
            Seq::empty()
        })
    }
}

/// Pawn destinations in the first `n` directions.
pub open spec fn targets_upto(w: board::Topo, me: int, opp: int, n: int) -> Seq<i16>
    decreases n,
{
    if n <= 0 {
        Seq::empty()
    } else {
        targets_upto(w, me, opp, n - 1) + targets_in(w, me, opp, n - 1)
    }
}

/// Pawn moves of the side to move, in generation order.
pub open spec fn pawn_moves(p: Position) -> Seq<i16> {
    targets_upto(p.w, pawn_of(p, p.turn), pawn_of(p, 1 - p.turn), 4)
}

/// The player whose pawn stands on its goal row, or -1.
pub open spec fn winner_of(p: Position) -> int {
    if p.p0 < 9 {
        0
    } else if p.p1 >= 72 {
        1
    } else {
        -1
    }
}

/// Some earlier position since the last wall has the key of this one.
pub open spec fn repeats_history(p: Position) -> bool {
    exists|i: int|
        p.last_wall_ply <= i <= p.hist.len() - 2 && 0 <= i && (#[trigger] p.hist[i]).hash_lo
            == p.hash_lo && p.hist[i].hash_hi == p.hash_hi
}

proof fn lemma_key_pawn0(w: u32, a: u32, b: u32, p1: u32, t: u32, z: u32)
    ensures
        (w ^ a ^ p1 ^ t) ^ a ^ b ^ z == w ^ b ^ p1 ^ (t ^ z),
{
    assert((w ^ a ^ p1 ^ t) ^ a ^ b ^ z == w ^ b ^ p1 ^ (t ^ z)) by (bit_vector);
}

proof fn lemma_key_pawn1(w: u32, p0: u32, a: u32, b: u32, t: u32, z: u32)
    ensures
        (w ^ p0 ^ a ^ t) ^ a ^ b ^ z == w ^ p0 ^ b ^ (t ^ z),
{
    assert((w ^ p0 ^ a ^ t) ^ a ^ b ^ z == w ^ p0 ^ b ^ (t ^ z)) by (bit_vector);
}

proof fn lemma_key_wall(w: u32, p0: u32, p1: u32, t: u32, x: u32, z: u32)
    ensures
        (w ^ p0 ^ p1 ^ t) ^ x ^ z == (w ^ x) ^ p0 ^ p1 ^ (t ^ z),
        (w ^ p0 ^ p1 ^ t) ^ z == w ^ p0 ^ p1 ^ (t ^ z),
        (w ^ p0 ^ p1 ^ t) ^ p0 ^ p1 ^ t == w,
{
    assert((w ^ p0 ^ p1 ^ t) ^ x ^ z == (w ^ x) ^ p0 ^ p1 ^ (t ^ z)) by (bit_vector);
    assert((w ^ p0 ^ p1 ^ t) ^ z == w ^ p0 ^ p1 ^ (t ^ z)) by (bit_vector);
    assert((w ^ p0 ^ p1 ^ t) ^ p0 ^ p1 ^ t == w) by (bit_vector);
}

proof fn lemma_turn_key_flips(turn: int, hi: bool)
    requires
        turn == 0 || turn == 1,
    ensures
        zobrist::turn_key(turn, hi) ^ zobrist::zob(zobrist::TURN_KEY, hi) == zobrist::turn_key(
            1 - turn,
            hi,
        ),
{
    zobrist::lemma_xor_cancel(zobrist::zob(zobrist::TURN_KEY, hi), 0);
}

/// A wall adds its constant to the key of the walls.
pub proof fn lemma_walls_key_with(w: board::Topo, m: int, hi: bool)
    requires
        board::topo_ok(w),
        moves::wall_id(m),
        slot_is_free(w, m),
    ensures
        zobrist::walls_key(with_wall(w, m), hi) == zobrist::walls_key(w, hi) ^ zobrist::zob(
            (m + 82) as u32,
            hi,
        ),
{
    let s = moves::slot_of(m);
    let x = zobrist::zob((m + 82) as u32, hi);
    let kh = zobrist::slots_key(w.hw, zobrist::HW_KEY, 64, hi);
    let kv = zobrist::slots_key(w.vw, zobrist::VW_KEY, 64, hi);
    if moves::hwall_id(m) {
        zobrist::lemma_slots_key_put(w.hw, zobrist::HW_KEY, s, 1u8, 64, hi);
        zobrist::lemma_xor_swap(kh, x, kv);
    } else {
        zobrist::lemma_slots_key_put(w.vw, zobrist::VW_KEY, s, 1u8, 64, hi);
        assert(kh ^ (kv ^ x) == (kh ^ kv) ^ x) by (bit_vector);
    }
}

/// The key after a move, one half.
proof fn lemma_key_played(p: Position, m: int, hi: bool)
    requires
        position_ok(p),
        accepts(p, m),
    ensures
        ({
            let h = zobrist::position_key(p.w, p.p0, p.p1, p.turn, hi);
            let q = played(p, m);
            let z = zobrist::zob(zobrist::TURN_KEY, hi);
            let side = 81 * p.turn;
            zobrist::position_key(q.w, q.p0, q.p1, q.turn, hi) == if moves::pawn_id(m) {
                h ^ zobrist::zob((side + pawn_of(p, p.turn)) as u32, hi) ^ zobrist::zob(
                    (side + m) as u32,
                    hi,
                ) ^ z
            } else {
                h ^ zobrist::zob((m + 82) as u32, hi) ^ z
            }
        }),
{
    let wk = zobrist::walls_key(p.w, hi);
    let k0 = zobrist::zob(p.p0 as u32, hi);
    let k1 = zobrist::zob((81 + p.p1) as u32, hi);
    let t = zobrist::turn_key(p.turn, hi);
    let z = zobrist::zob(zobrist::TURN_KEY, hi);
    lemma_turn_key_flips(p.turn, hi);
    if moves::pawn_id(m) {
        if p.turn == 0 {
            lemma_key_pawn0(wk, k0, zobrist::zob(m as u32, hi), k1, t, z);
        } else {
            lemma_key_pawn1(wk, k0, k1, zobrist::zob((81 + m) as u32, hi), t, z);
        }
    } else {
        let x = zobrist::zob((m + 82) as u32, hi);
        lemma_walls_key_with(p.w, m, hi);
        lemma_key_wall(wk, k0, k1, t, x, z);
    }
}

proof fn lemma_key_passed(p: Position, hi: bool)
    requires
        position_ok(p),
    ensures
        zobrist::position_key(p.w, p.p0, p.p1, 1 - p.turn, hi) == zobrist::position_key(
            p.w,
            p.p0,
            p.p1,
            p.turn,
            hi,
        ) ^ zobrist::zob(zobrist::TURN_KEY, hi),
{
    lemma_turn_key_flips(p.turn, hi);
    lemma_key_wall(
        zobrist::walls_key(p.w, hi),
        zobrist::zob(p.p0 as u32, hi),
        zobrist::zob((81 + p.p1) as u32, hi),
        zobrist::turn_key(p.turn, hi),
        0,
        zobrist::zob(zobrist::TURN_KEY, hi),
    );
}

proof fn lemma_no_walls_key(slots: Seq<u8>, base: u32, n: int, hi: bool)
    requires
        0 <= n <= slots.len(),
        forall|i: int| 0 <= i < slots.len() ==> slots[i] == 0,
    ensures
        zobrist::slots_key(slots, base, n, hi) == 0,
    decreases n,
{
    if n > 0 {
        lemma_no_walls_key(slots, base, n - 1, hi);
        zobrist::lemma_xor_cancel(0, 0);
    }
}

/// Pawn destinations are cells of the board.
pub proof fn lemma_targets_on_board(w: board::Topo, me: int, opp: int, n: int)
    requires
        0 <= me < 81,
        0 <= opp < 81,
        0 <= n <= 4,
    ensures
        forall|i: int|
            0 <= i < targets_upto(w, me, opp, n).len() ==> moves::pawn_id(
                #[trigger] targets_upto(w, me, opp, n)[i] as int,
            ),
    decreases n,
{
    if n > 0 {
        lemma_targets_on_board(w, me, opp, n - 1);
        let d = n - 1;
        let head = targets_upto(w, me, opp, n - 1);
        let tail = targets_in(w, me, opp, d);
        assert forall|i: int| 0 <= i < tail.len() implies moves::pawn_id(
            #[trigger] tail[i] as int,
        ) by {
            if board::step_open(w, me, d) {
                board::lemma_step_on_board(w, me, d);
            }
            if board::step_open(w, opp, d) {
                board::lemma_step_on_board(w, opp, d);
            }
            if board::step_open(w, opp, across(d)) {
                board::lemma_step_on_board(w, opp, across(d));
            }
            if board::step_open(w, opp, across(d) + 1) {
                board::lemma_step_on_board(w, opp, across(d) + 1);
            }
        }
    }
}

/// Passing the turn twice changes nothing.
pub proof fn law_pass_is_its_own_inverse(p: Position)
    requires
        position_ok(p),
    ensures
        position_ok(passed(p)),
        passed(passed(p)) == p,
{
    assert(passed(passed(p)) =~= p);
}

proof fn lemma_key_wall_put(p: Position, m: int, hi: bool)
    requires
        position_ok(p),
        moves::wall_id(m),
        slot_is_free(p.w, m),
    ensures
        zobrist::position_key(with_wall(p.w, m), p.p0, p.p1, p.turn, hi) == zobrist::position_key(
            p.w,
            p.p0,
            p.p1,
            p.turn,
            hi,
        ) ^ zobrist::zob((m + 82) as u32, hi),
{
    let wk = zobrist::walls_key(p.w, hi);
    let a = zobrist::zob(p.p0 as u32, hi);
    let b = zobrist::zob((81 + p.p1) as u32, hi);
    let t = zobrist::turn_key(p.turn, hi);
    let x = zobrist::zob((m + 82) as u32, hi);
    lemma_walls_key_with(p.w, m, hi);
    assert((wk ^ a ^ b ^ t) ^ x == (wk ^ x) ^ a ^ b ^ t) by (bit_vector);
}

proof fn lemma_key_pawn_put(p: Position, side: int, cell: int, hi: bool)
    requires
        position_ok(p),
        side == 0 || side == 1,
        0 <= cell < 81,
    ensures
        zobrist::position_key(
            p.w,
            if side == 0 {
                cell
            } else {
                p.p0
            },
            if side == 0 {
                p.p1
            } else {
                cell
            },
            p.turn,
            hi,
        ) == zobrist::position_key(p.w, p.p0, p.p1, p.turn, hi) ^ zobrist::zob(
            (81 * side + pawn_of(p, side)) as u32,
            hi,
        ) ^ zobrist::zob((81 * side + cell) as u32, hi),
{
    let wk = zobrist::walls_key(p.w, hi);
    let a = zobrist::zob(p.p0 as u32, hi);
    let b = zobrist::zob((81 + p.p1) as u32, hi);
    let t = zobrist::turn_key(p.turn, hi);
    let x = zobrist::zob((81 * side + cell) as u32, hi);
    assert((wk ^ a ^ b ^ t) ^ a ^ x == wk ^ x ^ b ^ t) by (bit_vector);
    assert((wk ^ a ^ b ^ t) ^ b ^ x == wk ^ a ^ x ^ t) by (bit_vector);
}

impl Clone for GameState {
    fn clone(&self) -> (copy: GameState)
        ensures
            copy@ == self@,
    {
        let hist = self.hist.clone();
        assert(hist@ =~= self.hist@);
        GameState {
            pawn: self.pawn,
            wl: self.wl,
            turn: self.turn,
            hw: self.hw,
            vw: self.vw,
            hash_lo: self.hash_lo,
            hash_hi: self.hash_hi,
            wall_stamp: self.wall_stamp,
            last_wall_ply: self.last_wall_ply,
            hist,
        }
    }
}

fn push_step(hw: &[u8; 64], vw: &[u8; 64], out: &mut Vec<i16>, cell: usize, d: usize) -> (open:
    bool)
    requires
        cell < 81,
        d < 4,
    ensures
        open == board::step_open((board::Topo { hw: hw@, vw: vw@ }), cell as int, d as int),
        final(out)@ == if open {
            old(out)@.push((cell + board::delta(d as int)) as i16)
        } else {
            old(out)@
        },
{
    if board::can_step(hw, vw, cell, d) {
        proof {
            board::lemma_step_on_board(
                board::Topo { hw: hw@, vw: vw@ },
                cell as int,
                d as int,
            );
        }
        let to: usize = board::step_to(cell, d);
        out.push(to as i16);
        true
    } else {
        false
    }
}

/// Destinations of a pawn on `me` against a pawn on `opp`, in generation order.
pub fn pawn_targets(hw: &[u8; 64], vw: &[u8; 64], me: usize, opp: usize) -> (out: Vec<i16>)
    requires
        me < 81,
        opp < 81,
    ensures
        out@ == targets_upto((board::Topo { hw: hw@, vw: vw@ }), me as int, opp as int, 4),
        forall|i: int| 0 <= i < out@.len() ==> moves::pawn_id(#[trigger] out@[i] as int),
{
    let ghost w = board::Topo { hw: hw@, vw: vw@ };
    let mut out: Vec<i16> = Vec::new();
    let mut d: usize = 0;
    assert(out@ =~= targets_upto(w, me as int, opp as int, 0));
    while d < 4
        invariant
            d <= 4,
            me < 81,
            opp < 81,
            w == (board::Topo { hw: hw@, vw: vw@ }),
            out@ == targets_upto(w, me as int, opp as int, d as int),
        decreases 4 - d,
    {
        let ghost before = out@;
        if board::can_step(hw, vw, me, d) {
            proof {
                board::lemma_step_on_board(w, me as int, d as int);
            }
            let to: usize = board::step_to(me, d);
            if to != opp {
                out.push(to as i16);
            } else if !push_step(hw, vw, &mut out, opp, d) {
                let a: usize = if d < 2 {
                    2
                } else {
                    0
                };
                let left: bool = push_step(hw, vw, &mut out, opp, a);
                let right: bool = push_step(hw, vw, &mut out, opp, a + 1);
            }
        }
        assert(out@ =~= before + targets_in(w, me as int, opp as int, d as int));
        d += 1;
    }
    proof {
        lemma_targets_on_board(w, me as int, opp as int, 4);
    }
    out
}

impl GameState {
    /// Wall topology of the position.
    pub open spec fn topo(&self) -> board::Topo {
        board::Topo { hw: self.hw@, vw: self.vw@ }
    }

    /// The state is an orderly position.
    pub open spec fn wf(&self) -> bool {
        position_ok(self@)
    }

    fn key_of(pawn: [usize; 2], turn: usize, hi: bool) -> (key: u32)
        requires
            pawn[0] < 81,
            pawn[1] < 81,
            turn < 2,
        ensures
            key == zobrist::zob(pawn[0] as u32, hi) ^ zobrist::zob((81 + pawn[1]) as u32, hi)
                ^ zobrist::turn_key(turn as int, hi),
    {
        let t: u32 = if turn == 1 {
            zobrist::zobrist(zobrist::TURN_KEY, hi)
        } else {
            0
        };
        zobrist::zobrist(pawn[0] as u32, hi) ^ zobrist::zobrist(81 + pawn[1] as u32, hi) ^ t
    }

    /// A board without walls.
    pub fn from_parts(pawn: [usize; 2], wl: [i32; 2], turn: usize) -> (g: GameState)
        requires
            pawn[0] < 81,
            pawn[1] < 81,
            turn < 2,
        ensures
            g.wf(),
            g.pawn == pawn,
            g.wl == wl,
            g.turn == turn,
            g.hist@.len() == 0,
            forall|i: int| 0 <= i < 64 ==> g.hw[i] == 0 && g.vw[i] == 0,
            g.wall_stamp == 0,
            g.last_wall_ply == 0,
    {
        let hw: [u8; 64] = [0u8; 64];
        let vw: [u8; 64] = [0u8; 64];
        proof {
            lemma_no_walls_key(hw@, zobrist::HW_KEY, 64, false);
            lemma_no_walls_key(hw@, zobrist::HW_KEY, 64, true);
            lemma_no_walls_key(vw@, zobrist::VW_KEY, 64, false);
            lemma_no_walls_key(vw@, zobrist::VW_KEY, 64, true);
            let a = zobrist::zob(pawn[0] as u32, false);
            let b = zobrist::zob((81 + pawn[1]) as u32, false);
            let t = zobrist::turn_key(turn as int, false);
            assert((0u32 ^ 0u32) ^ a ^ b ^ t == a ^ b ^ t) by (bit_vector);
            let a2 = zobrist::zob(pawn[0] as u32, true);
            let b2 = zobrist::zob((81 + pawn[1]) as u32, true);
            let t2 = zobrist::turn_key(turn as int, true);
            assert((0u32 ^ 0u32) ^ a2 ^ b2 ^ t2 == a2 ^ b2 ^ t2) by (bit_vector);
        }
        GameState {
            pawn,
            wl,
            turn,
            hw,
            vw,
            hash_lo: Self::key_of(pawn, turn, false),
            hash_hi: Self::key_of(pawn, turn, true),
            wall_stamp: 0,
            last_wall_ply: 0,
            hist: Vec::new(),
        }
    }

    /// The starting position: pawns on e1 and e9, ten walls each.
    pub fn new() -> (g: GameState)
        ensures
            g.wf(),
            g@.p0 == 76,
            g@.p1 == 4,
            g@.wl0 == 10,
            g@.wl1 == 10,
            g@.turn == 0,
            g@.hist.len() == 0,
            g@.stamp == 0,
            g@.last_wall_ply == 0,
            forall|i: int| 0 <= i < 64 ==> g.hw[i] == 0 && g.vw[i] == 0,
    {
        Self::from_parts([76, 4], [10, 10], 0)
    }

    /// Number of moves played.
    pub fn hist_len(&self) -> (n: usize)
        ensures
            n == self@.hist.len(),
    {
        self.hist.len()
    }

    /// Can `make_move` take this move?
    pub fn accepts_move(&self, m: i16) -> (ok: bool)
        requires
            self.wf(),
        ensures
            ok == accepts(self@, m as int),
    {
        if self.hist.len() >= MAX_HISTORY {
            return false;
        }
        if moves::is_pawn_move(m) {
            return true;
        }
        if !moves::is_wall_move(m) || self.wl[self.turn] == i32::MIN {
            return false;
        }
        let slot: usize = moves::wall_slot(m);
        if moves::is_hwall_move(m) {
            self.hw[slot] == 0
        } else {
            self.vw[slot] == 0
        }
    }

    /// Plays a move. Legality is the caller's business.
    pub fn make_move(&mut self, m: i16)
        requires
            old(self).wf(),
            accepts(old(self)@, m as int),
        ensures
            final(self)@ == played(old(self)@, m as int),
            final(self).wf(),
    {
        let ghost p = self@;
        let side: usize = self.turn;
        let record = Played {
            mv: m,
            from: self.pawn[side],
            last_wall_ply: self.last_wall_ply,
            hash_lo: self.hash_lo,
            hash_hi: self.hash_hi,
        };
        proof {
            lemma_key_played(p, m as int, false);
            lemma_key_played(p, m as int, true);
        }
        let z_lo: u32 = zobrist::zobrist(zobrist::TURN_KEY, false);
        let z_hi: u32 = zobrist::zobrist(zobrist::TURN_KEY, true);
        if moves::is_pawn_move(m) {
            let base: u32 = 81 * side as u32;
            let from_key: u32 = base + self.pawn[side] as u32;
            let to_key: u32 = base + m as u32;
            self.hash_lo = self.hash_lo ^ zobrist::zobrist(from_key, false) ^ zobrist::zobrist(
                to_key,
                false,
            ) ^ z_lo;
            self.hash_hi = self.hash_hi ^ zobrist::zobrist(from_key, true) ^ zobrist::zobrist(
                to_key,
                true,
            ) ^ z_hi;
            self.pawn[side] = m as usize;
        } else {
            let slot: usize = moves::wall_slot(m);
            let key: u32 = m as u32 + 82;
            self.hash_lo = self.hash_lo ^ zobrist::zobrist(key, false) ^ z_lo;
            self.hash_hi = self.hash_hi ^ zobrist::zobrist(key, true) ^ z_hi;
            if moves::is_hwall_move(m) {
                self.hw[slot] = 1;
            } else {
                self.vw[slot] = 1;
            }
            self.wl[side] = self.wl[side] - 1;
            self.wall_stamp = self.wall_stamp + 1;
            self.last_wall_ply = self.hist.len() + 1;
        }
        self.turn = 1 - side;
        self.hist.push(record);
        assert(self@ =~= played(p, m as int));
        proof {
            law_played_keeps_order(p, m as int);
        }
    }

    /// Takes the last move back.
    pub fn unmake_move(&mut self)
        requires
            old(self).wf(),
            can_take_back(old(self)@),
        ensures
            final(self)@ == taken_back(old(self)@),
            final(self).wf(),
    {
        let ghost p = self@;
        let side: usize = 1 - self.turn;
        let n: usize = self.hist.len();
        let record = self.hist[n - 1];
        let m: i16 = record.mv;
        if moves::is_pawn_move(m) {
            self.pawn[side] = record.from;
        } else {
            let slot: usize = moves::wall_slot(m);
            if moves::is_hwall_move(m) {
                self.hw[slot] = 0;
            } else {
                self.vw[slot] = 0;
            }
            self.wl[side] = self.wl[side] + 1;
            self.wall_stamp = self.wall_stamp - 1;
        }
        self.turn = side;
        self.last_wall_ply = record.last_wall_ply;
        self.hash_lo = record.hash_lo;
        self.hash_hi = record.hash_hi;
        self.hist.truncate(n - 1);
        assert(self.hist@ =~= p.hist.drop_last());
        assert(self@ =~= taken_back(p));
    }

    /// Hands the move to the other side without playing one.
    pub fn pass_turn(&mut self)
        requires
            old(self).wf(),
        ensures
            final(self)@ == passed(old(self)@),
            final(self).wf(),
    {
        let ghost p = self@;
        proof {
            lemma_key_passed(p, false);
            lemma_key_passed(p, true);
        }
        self.turn = 1 - self.turn;
        self.hash_lo = self.hash_lo ^ zobrist::zobrist(zobrist::TURN_KEY, false);
        self.hash_hi = self.hash_hi ^ zobrist::zobrist(zobrist::TURN_KEY, true);
        assert(self@ =~= passed(p));
    }

    /// Does the wall go on the board without touching another wall wrongly?
    pub fn wall_fits(&self, wall_type: usize, slot: usize) -> (ok: bool)
        requires
            slot < 64,
        ensures
            ok == fits(self.topo(), wall_type as int, slot as int),
    {
        if self.hw[slot] != 0 || self.vw[slot] != 0 {
            return false;
        }
        let r: usize = slot / 8;
        let c: usize = slot % 8;
        if wall_type == 0 {
            (c == 0 || self.hw[slot - 1] == 0) && (c == 7 || self.hw[slot + 1] == 0)
        } else {
            (r == 0 || self.vw[slot - 8] == 0) && (r == 7 || self.vw[slot + 8] == 0)
        }
    }

    /// Puts a wall on a free slot without playing a move.
    pub fn put_wall(&mut self, wall_type: usize, slot: usize)
        requires
            old(self).wf(),
            slot < 64,
            slot_is_free(old(self)@.w, moves::wall_move_id(wall_type as int, slot as int)),
        ensures
            final(self)@ == rekeyed(
                (Position {
                    w: with_wall(
                        old(self)@.w,
                        moves::wall_move_id(wall_type as int, slot as int),
                    ),
                    ..old(self)@
                }),
            ),
            final(self).wf(),
    {
        let ghost p = self@;
        let m: i16 = moves::wall_move(wall_type, slot);
        let key: u32 = m as u32 + 82;
        proof {
            lemma_key_wall_put(p, m as int, false);
            lemma_key_wall_put(p, m as int, true);
        }
        self.hash_lo = self.hash_lo ^ zobrist::zobrist(key, false);
        self.hash_hi = self.hash_hi ^ zobrist::zobrist(key, true);
        if wall_type == 0 {
            self.hw[slot] = 1;
        } else {
            self.vw[slot] = 1;
        }
        assert(self@.w =~= with_wall(p.w, m as int));
    }

    /// Puts a pawn somewhere else without playing a move.
    pub fn put_pawn(&mut self, side: usize, cell: usize)
        requires
            old(self).wf(),
            side < 2,
            cell < 81,
        ensures
            final(self)@ == rekeyed(
                if side == 0 {
                    (Position { p0: cell as int, ..old(self)@ })
                } else {
                    (Position { p1: cell as int, ..old(self)@ })
                },
            ),
            final(self).wf(),
    {
        let ghost p = self@;
        let base: u32 = 81 * side as u32;
        let from: u32 = base + self.pawn[side] as u32;
        let to: u32 = base + cell as u32;
        proof {
            lemma_key_pawn_put(p, side as int, cell as int, false);
            lemma_key_pawn_put(p, side as int, cell as int, true);
        }
        self.hash_lo = self.hash_lo ^ zobrist::zobrist(from, false) ^ zobrist::zobrist(to, false);
        self.hash_hi = self.hash_hi ^ zobrist::zobrist(from, true) ^ zobrist::zobrist(to, true);
        self.pawn[side] = cell;
    }

    /// Goal distances of every cell for one player.
    pub fn compute_dist(&self, side: usize) -> (field: [u8; 81])
        ensures
            board::dist_field(self.topo(), side as int, field@),
    {
        board::compute_dist(&self.hw, &self.vw, side)
    }

    /// Does the pawn of `side` reach its goal row?
    pub fn has_path(&self, side: usize) -> (ok: bool)
        requires
            self.wf(),
            side < 2,
        ensures
            ok == board::reaches_goal(self.topo(), side as int, pawn_of(self@, side as int)),
    {
        let field = self.compute_dist(side);
        let cell: usize = self.pawn[side];
        assert(board::dist_value(self.topo(), side as int, cell as int, field@[cell as int] as int));
        field[cell] != board::UNREACHABLE
    }

    /// May the wall be placed: it fits and seals nobody off?
    pub fn wall_legal(&self, wall_type: usize, slot: usize) -> (ok: bool)
        requires
            self.wf(),
            slot < 64,
        ensures
            ok == wall_is_legal(self@, wall_type as int, slot as int),
    {
        if !self.wall_fits(wall_type, slot) {
            return false;
        }
        let mut hw: [u8; 64] = self.hw;
        let mut vw: [u8; 64] = self.vw;
        if wall_type == 0 {
            hw[slot] = 1;
        } else {
            vw[slot] = 1;
        }
        let ghost after = with_wall(
            self.topo(),
            moves::wall_move_id(wall_type as int, slot as int),
        );
        assert((board::Topo { hw: hw@, vw: vw@ }) =~= after);
        let d0 = board::compute_dist(&hw, &vw, 0);
        let d1 = board::compute_dist(&hw, &vw, 1);
        let a: usize = self.pawn[0];
        let b: usize = self.pawn[1];
        assert(board::dist_value(after, 0, a as int, d0@[a as int] as int));
        assert(board::dist_value(after, 1, b as int, d1@[b as int] as int));
        d0[a] != board::UNREACHABLE && d1[b] != board::UNREACHABLE
    }

    /// Pawn moves of the side to move: steps and jumps, in generation order.
    pub fn gen_pawn_moves(&self) -> (out: Vec<i16>)
        requires
            self.wf(),
        ensures
            out@ == pawn_moves(self@),
            forall|i: int| 0 <= i < out@.len() ==> moves::pawn_id(#[trigger] out@[i] as int),
    {
        pawn_targets(&self.hw, &self.vw, self.pawn[self.turn], self.pawn[1 - self.turn])
    }

    /// Player who has arrived, or -1.
    pub fn winner(&self) -> (who: i32)
        ensures
            who == winner_of(self@),
    {
        if self.pawn[0] < 9 {
            0
        } else if self.pawn[1] >= 72 {
            1
        } else {
            -1
        }
    }

    /// Key of the walls alone: pawns and side to move taken out of the position key.
    pub fn wall_topology_key(&self) -> (key: (u32, u32))
        requires
            self.wf(),
        ensures
            key.0 == zobrist::walls_key(self.topo(), false),
            key.1 == zobrist::walls_key(self.topo(), true),
    {
        let a_lo: u32 = zobrist::zobrist(self.pawn[0] as u32, false);
        let b_lo: u32 = zobrist::zobrist(81 + self.pawn[1] as u32, false);
        let a_hi: u32 = zobrist::zobrist(self.pawn[0] as u32, true);
        let b_hi: u32 = zobrist::zobrist(81 + self.pawn[1] as u32, true);
        let mut lo: u32 = self.hash_lo ^ a_lo ^ b_lo;
        let mut hi: u32 = self.hash_hi ^ a_hi ^ b_hi;
        proof {
            let t_lo = zobrist::turn_key(self.turn as int, false);
            let t_hi = zobrist::turn_key(self.turn as int, true);
            lemma_key_wall(zobrist::walls_key(self.topo(), false), a_lo, b_lo, t_lo, 0, 0);
            lemma_key_wall(zobrist::walls_key(self.topo(), true), a_hi, b_hi, t_hi, 0, 0);
            zobrist::lemma_xor_cancel(lo, 0);
            zobrist::lemma_xor_cancel(hi, 0);
        }
        if self.turn == 1 {
            lo = lo ^ zobrist::zobrist(zobrist::TURN_KEY, false);
            hi = hi ^ zobrist::zobrist(zobrist::TURN_KEY, true);
        }
        (lo, hi)
    }

    /// Has this position occurred in the game since the last wall?
    pub fn repeats_game_history(&self) -> (rep: bool)
        requires
            self.wf(),
        ensures
            rep == repeats_history(self@),
    {
        let n: usize = self.hist.len();
        if n < 2 {
            return false;
        }
        let mut i: usize = n - 1;
        while i > self.last_wall_ply
            invariant
                i <= n - 1,
                n == self.hist@.len(),
                n >= 2,
                forall|k: int|
                    i <= k <= n - 2 && 0 <= k ==> !((#[trigger] self.hist@[k]).hash_lo
                        == self.hash_lo && self.hist@[k].hash_hi == self.hash_hi),
            decreases i,
        {
            i -= 1;
            let entry = self.hist[i];
            if entry.hash_lo == self.hash_lo && entry.hash_hi == self.hash_hi {
                assert(self@.hist[i as int].hash_lo == self@.hash_lo);
                return true;
            }
        }
        false
    }
}

} // verus!

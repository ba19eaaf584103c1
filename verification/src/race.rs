//! What an exact race table proves about positions with few walls left, as typed bounds
//! for the search window.

use crate::board;
use crate::game;
use crate::game::GameState;
use crate::moves;
use crate::race_cache;
use crate::race_cache::{Clock, RaceCache};
use crate::race_table;
use crate::score;
use vstd::prelude::*;

verus! {

/// A proven statement about the score of a position.
#[derive(Clone, Copy, Debug, PartialEq, Eq, Structural)]
pub enum RaceBound {
    Exact(i32),
    Lower(i32),
    Upper(i32),
    Unknown,
}

impl RaceBound {
    /// Sign of the bounded score, 0 when nothing is known.
    pub fn signum(self) -> (s: i32)
        ensures
            s == match self {
                RaceBound::Exact(v) => score::sign(v as int),
                RaceBound::Lower(v) => score::sign(v as int),
                RaceBound::Upper(v) => score::sign(v as int),
                RaceBound::Unknown => 0,
            },
    {
        let v: i32 = match self {
            RaceBound::Exact(v) => v,
            RaceBound::Lower(v) => v,
            RaceBound::Upper(v) => v,
            RaceBound::Unknown => 0,
        };
        if v > 0 {
            1
        } else if v < 0 {
            -1
        } else {
            0
        }
    }
}

/// The score a bound returns at once for the window, if it crosses it: a lower bound at
/// or above `beta` fails high, an upper bound at or below `alpha` fails low.
pub open spec fn window_cut(bound: RaceBound, alpha: int, beta: int) -> Option<int> {
    match bound {
        RaceBound::Lower(v) => if v >= beta {
            Some(beta)
        } else {
            None
        },
        RaceBound::Upper(v) => if v <= alpha {
            Some(alpha)
        } else {
            None
        },
        _ => None,
    }
}

/// `cut` is what the bound does to the window.
pub open spec fn cut_is(bound: RaceBound, alpha: i32, beta: i32, cut: Option<i32>) -> bool {
    match cut {
        Some(v) => window_cut(bound, alpha as int, beta as int) == Some(v as int),
        None => window_cut(bound, alpha as int, beta as int) is None,
    }
}

/// Applies a bound to a search window.
pub fn bound_cut(bound: RaceBound, alpha: i32, beta: i32) -> (cut: Option<i32>)
    ensures
        cut_is(bound, alpha, beta, cut),
{
    match bound {
        RaceBound::Lower(v) => if v >= beta {
            Some(beta)
        } else {
            None
        },
        RaceBound::Upper(v) => if v <= alpha {
            Some(alpha)
        } else {
            None
        },
        _ => None,
    }
}

/// A cut never contradicts the bound: any score the bound allows fails the window the
/// same way.
pub proof fn law_cut_is_sound(bound: RaceBound, alpha: int, beta: int, s: int)
    requires
        alpha < beta,
        match bound {
            RaceBound::Exact(v) => s == v,
            RaceBound::Lower(v) => s >= v,
            RaceBound::Upper(v) => s <= v,
            RaceBound::Unknown => true,
        },
    ensures
        window_cut(bound, alpha, beta) == Some(beta) ==> s >= beta,
        window_cut(bound, alpha, beta) == Some(alpha) ==> s <= alpha,
        window_cut(bound, alpha, beta) is None || window_cut(bound, alpha, beta) == Some(alpha)
            || window_cut(bound, alpha, beta) == Some(beta),
{
}

/// Counters of how races were resolved during one search. They stop at their maximum.
#[derive(Clone, Copy, Debug, PartialEq, Eq, Structural)]
pub struct RaceOutcomeStats {
    pub broke_calls: u64,
    pub broke_unknown: u64,
    pub broke_decisive: u64,
    pub broke_lower: u64,
    pub broke_upper: u64,
    pub broke_cut_fail_high: u64,
    pub broke_cut_fail_low: u64,
    pub one_wall_calls: u64,
    pub one_wall_decisive: u64,
    pub one_wall_unknown: u64,
    pub two_wall_calls: u64,
    pub two_wall_decisive: u64,
    pub two_wall_unknown: u64,
    pub wall_ignore_calls: u64,
    pub wall_ignore_decisive: u64,
    pub wall_ignore_unknown: u64,
    pub wall_ignore_cut_fail_high: u64,
    pub wall_ignore_cut_fail_low: u64,
    pub resolved_memo: u64,
    pub resolved_race_tbl: u64,
    pub resolved_race_heuristic: u64,
    pub resolved_gate1: u64,
    pub resolved_gate1_loss: u64,
    pub resolved_cert_memo: u64,
    pub resolved_cert_win: u64,
    pub jump_dist_calls: u64,
    pub jump_dist_upgrades: u64,
    pub jump_dist_cuts_avoided: u64,
    pub race_tbl_lru_hits: u64,
    pub race_tbl_lru_rebuilds: u64,
}

/// All counters zero.
pub open spec fn no_counts() -> RaceOutcomeStats {
    RaceOutcomeStats {
        broke_calls: 0,
        broke_unknown: 0,
        broke_decisive: 0,
        broke_lower: 0,
        broke_upper: 0,
        broke_cut_fail_high: 0,
        broke_cut_fail_low: 0,
        one_wall_calls: 0,
        one_wall_decisive: 0,
        one_wall_unknown: 0,
        two_wall_calls: 0,
        two_wall_decisive: 0,
        two_wall_unknown: 0,
        wall_ignore_calls: 0,
        wall_ignore_decisive: 0,
        wall_ignore_unknown: 0,
        wall_ignore_cut_fail_high: 0,
        wall_ignore_cut_fail_low: 0,
        resolved_memo: 0,
        resolved_race_tbl: 0,
        resolved_race_heuristic: 0,
        resolved_gate1: 0,
        resolved_gate1_loss: 0,
        resolved_cert_memo: 0,
        resolved_cert_win: 0,
        jump_dist_calls: 0,
        jump_dist_upgrades: 0,
        jump_dist_cuts_avoided: 0,
        race_tbl_lru_hits: 0,
        race_tbl_lru_rebuilds: 0,
    }
}

impl RaceOutcomeStats {
    /// All counters zero.
    pub fn new() -> (s: Self)
        ensures
            s == no_counts(),
    {
        RaceOutcomeStats {
            broke_calls: 0,
            broke_unknown: 0,
            broke_decisive: 0,
            broke_lower: 0,
            broke_upper: 0,
            broke_cut_fail_high: 0,
            broke_cut_fail_low: 0,
            one_wall_calls: 0,
            one_wall_decisive: 0,
            one_wall_unknown: 0,
            two_wall_calls: 0,
            two_wall_decisive: 0,
            two_wall_unknown: 0,
            wall_ignore_calls: 0,
            wall_ignore_decisive: 0,
            wall_ignore_unknown: 0,
            wall_ignore_cut_fail_high: 0,
            wall_ignore_cut_fail_low: 0,
            resolved_memo: 0,
            resolved_race_tbl: 0,
            resolved_race_heuristic: 0,
            resolved_gate1: 0,
            resolved_gate1_loss: 0,
            resolved_cert_memo: 0,
            resolved_cert_win: 0,
            jump_dist_calls: 0,
            jump_dist_upgrades: 0,
            jump_dist_cuts_avoided: 0,
            race_tbl_lru_hits: 0,
            race_tbl_lru_rebuilds: 0,
        }
    }
}

impl Default for RaceOutcomeStats {
    fn default() -> (s: Self)
        ensures
            s == no_counts(),
    {
        Self::new()
    }
}

/// The player who wins the pure race from here, hands aside.
pub open spec fn pure_winner_is(p: game::Position, x: int) -> bool {
    exists|v: int|
        v != 0 && #[trigger] race_table::value_is(p.w, race_cache::state_of(p), v) && x == if v
            > 0 {
            p.turn
        } else {
            1 - p.turn
        }
}

pub open spec fn gap(a: int, b: int) -> int {
    if a < b {
        b - a
    } else {
        a - b
    }
}

/// The pawns are more than two rows or columns apart.
pub open spec fn separated(p: game::Position) -> bool {
    gap(p.p0 / 9, p.p1 / 9) > 2 || gap(p.p0 % 9, p.p1 % 9) > 2
}

/// The side not to move is one step from its goal.
pub open spec fn opponent_at_door(p: game::Position) -> bool {
    board::goal_distance(p.w, 1 - p.turn, game::pawn_of(p, 1 - p.turn)) == 1
}

/// The position after the wall of type `t` at slot `s`.
pub open spec fn after_wall(p: game::Position, t: int, s: int) -> game::Position {
    game::played(p, moves::wall_move_id(t, s))
}

/// A legal wall exists.
pub open spec fn some_legal_wall(p: game::Position) -> bool {
    exists|t: int, s: int| 0 <= t < 2 && 0 <= s < 64 && #[trigger] game::wall_is_legal(p, t, s)
}

/// One wall left in the game, and the side to move holds it.
pub open spec fn holder_layer(p: game::Position) -> bool {
    p.wl0 + p.wl1 == 1 && game::hand_of(p, p.turn) == 1 && separated(p)
}

/// Grounds for the verdict that `x` wins with the last wall in the mover's hand: the
/// mover wins without using it; or the opponent is at the door and some wall turns the
/// race; or the opponent is at the door and every wall leaves the race lost.
pub open spec fn holder_verdict(p: game::Position, x: int) -> bool {
    &&& holder_layer(p)
    &&& if x == p.turn {
        pure_winner_is(p, p.turn) || (opponent_at_door(p) && exists|t: int, s: int|
            0 <= t < 2 && 0 <= s < 64 && #[trigger] game::wall_is_legal(p, t, s) && pure_winner_is(
                after_wall(p, t, s),
                p.turn,
            ))
    } else {
        &&& x == 1 - p.turn
        &&& pure_winner_is(p, x)
        &&& opponent_at_door(p)
        &&& some_legal_wall(p)
        &&& forall|t: int, s: int|
            0 <= t < 2 && 0 <= s < 64 && #[trigger] game::wall_is_legal(p, t, s)
                ==> pure_winner_is(after_wall(p, t, s), x)
    }
}

/// One wall left in the game, and the side to move does not hold it.
pub open spec fn nonholder_layer(p: game::Position) -> bool {
    p.wl0 + p.wl1 == 1 && game::hand_of(p, p.turn) == 0
}

/// The move settles the game for the mover `x` at once, or by a holder verdict.
pub open spec fn reply_verdict(p: game::Position, m: int, x: int) -> bool {
    if game::winner_of(game::played(p, m)) == p.turn {
        x == p.turn
    } else {
        holder_verdict(game::played(p, m), x)
    }
}

/// Grounds for the verdict that `x` wins when the wall-less side moves: it has a
/// winning pawn move, or every pawn move loses.
pub open spec fn nonholder_verdict(p: game::Position, x: int) -> bool {
    let ms = game::pawn_moves(p);
    &&& nonholder_layer(p)
    &&& ms.len() > 0
    &&& if x == p.turn {
        exists|k: int| 0 <= k < ms.len() && reply_verdict(p, #[trigger] ms[k] as int, x)
    } else {
        x == 1 - p.turn && forall|k: int|
            0 <= k < ms.len() ==> reply_verdict(p, #[trigger] ms[k] as int, x)
    }
}

/// Both remaining walls are in the mover's hand.
pub open spec fn monopoly_layer(p: game::Position) -> bool {
    p.wl0 + p.wl1 == 2 && game::hand_of(p, p.turn) == 2 && separated(p)
}

/// Grounds for the verdict that `x` wins with both walls in the mover's hand.
pub open spec fn monopoly_verdict(p: game::Position, x: int) -> bool {
    &&& monopoly_layer(p)
    &&& if x == p.turn {
        pure_winner_is(p, p.turn) || (opponent_at_door(p) && exists|t: int, s: int|
            0 <= t < 2 && 0 <= s < 64 && #[trigger] game::wall_is_legal(p, t, s)
                && nonholder_verdict(after_wall(p, t, s), p.turn))
    } else {
        &&& x == 1 - p.turn
        &&& pure_winner_is(p, x)
        &&& opponent_at_door(p)
        &&& some_legal_wall(p)
        &&& forall|t: int, s: int|
            0 <= t < 2 && 0 <= s < 64 && #[trigger] game::wall_is_legal(p, t, s)
                ==> nonholder_verdict(after_wall(p, t, s), x)
    }
}

/// The pure race is decided.
pub open spec fn race_decided(p: game::Position) -> bool {
    pure_winner_is(p, p.turn) || pure_winner_is(p, 1 - p.turn)
}

/// Tables are at hand for the position and for every wall the holder of the last one may
/// place.
pub open spec fn holder_at_hand(s: RaceProver, p: game::Position) -> bool {
    &&& s.race_proof
    &&& s.cache.cached(p.w)
    &&& forall|t: int, k: int|
        0 <= t < 2 && 0 <= k < 64 && #[trigger] game::wall_is_legal(p, t, k) ==> s.cache.cached(
            after_wall(p, t, k).w,
        )
}

/// The verdict is owed: tables are at hand, and the race is decided.
pub open spec fn holder_owed(s: RaceProver, p: game::Position, x: int) -> bool {
    holder_at_hand(s, p) && race_decided(p) && holder_verdict(p, x)
}

/// Tables are at hand for every answer to every pawn move.
pub open spec fn nonholder_at_hand(s: RaceProver, p: game::Position) -> bool {
    let ms = game::pawn_moves(p);
    s.race_proof && forall|k: int|
        0 <= k < ms.len() && game::winner_of(game::played(p, #[trigger] ms[k] as int)) != p.turn
            ==> holder_at_hand(s, game::played(p, ms[k] as int))
}

/// The move settles the game for the mover at once, or its verdict is owed.
pub open spec fn reply_owed(s: RaceProver, p: game::Position, m: int, x: int) -> bool {
    if game::winner_of(game::played(p, m)) == p.turn {
        x == p.turn
    } else {
        holder_owed(s, game::played(p, m), x)
    }
}

/// The verdict on the side without the wall is owed.
pub open spec fn nonholder_owed(s: RaceProver, p: game::Position, x: int) -> bool {
    let ms = game::pawn_moves(p);
    &&& nonholder_layer(p)
    &&& nonholder_at_hand(s, p)
    &&& ms.len() > 0
    &&& if x == p.turn {
        exists|k: int| 0 <= k < ms.len() && reply_owed(s, p, #[trigger] ms[k] as int, x)
    } else {
        x == 1 - p.turn && forall|k: int|
            0 <= k < ms.len() ==> reply_owed(s, p, #[trigger] ms[k] as int, x)
    }
}

/// Tables are at hand for the position and for everything after every wall.
pub open spec fn monopoly_at_hand(s: RaceProver, p: game::Position) -> bool {
    &&& s.race_proof
    &&& s.cache.cached(p.w)
    &&& forall|t: int, k: int|
        0 <= t < 2 && 0 <= k < 64 && #[trigger] game::wall_is_legal(p, t, k) ==> nonholder_at_hand(
            s,
            after_wall(p, t, k),
        )
}

/// The verdict on the holder of both walls is owed.
pub open spec fn monopoly_owed(s: RaceProver, p: game::Position, x: int) -> bool {
    &&& monopoly_layer(p)
    &&& monopoly_at_hand(s, p)
    &&& if x == p.turn {
        pure_winner_is(p, p.turn) || (pure_winner_is(p, 1 - p.turn) && opponent_at_door(p)
            && exists|t: int, k: int|
            0 <= t < 2 && 0 <= k < 64 && #[trigger] game::wall_is_legal(p, t, k) && nonholder_owed(
                s,
                after_wall(p, t, k),
                x,
            ))
    } else {
        &&& x == 1 - p.turn
        &&& pure_winner_is(p, x)
        &&& opponent_at_door(p)
        &&& some_legal_wall(p)
        &&& forall|t: int, k: int|
            0 <= t < 2 && 0 <= k < 64 && #[trigger] game::wall_is_legal(p, t, k) ==> nonholder_owed(
                s,
                after_wall(p, t, k),
                x,
            )
    }
}

/// The prover has the same tables.
pub open spec fn same_tables(a: RaceProver, b: RaceProver) -> bool {
    a.race_proof == b.race_proof && a.cache.slots@ == b.cache.slots@
}

proof fn lemma_same_tables(a: RaceProver, b: RaceProver)
    requires
        same_tables(a, b),
    ensures
        forall|w: board::Topo| #[trigger] a.cache.cached(w) == b.cache.cached(w),
{
    assert forall|w: board::Topo| #[trigger] a.cache.cached(w) == b.cache.cached(w) by {
        if a.cache.cached(w) {
            let i = choose|i: int| #[trigger] a.cache.holds(i, w);
            assert(b.cache.holds(i, w));
        }
        if b.cache.cached(w) {
            let i = choose|i: int| #[trigger] b.cache.holds(i, w);
            assert(a.cache.holds(i, w));
        }
    }
}

/// What is at hand and owed depends on the tables alone.
pub proof fn lemma_at_hand_by_tables(a: RaceProver, b: RaceProver, p: game::Position)
    requires
        same_tables(a, b),
    ensures
        holder_at_hand(a, p) == holder_at_hand(b, p),
        forall|x: int| #[trigger] holder_owed(a, p, x) == holder_owed(b, p, x),
{
    lemma_same_tables(a, b);
}

pub proof fn lemma_replies_by_tables(a: RaceProver, b: RaceProver, p: game::Position)
    requires
        same_tables(a, b),
    ensures
        nonholder_at_hand(a, p) == nonholder_at_hand(b, p),
        forall|x: int| #[trigger] nonholder_owed(a, p, x) == nonholder_owed(b, p, x),
{
    let ms = game::pawn_moves(p);
    assert forall|k: int| 0 <= k < ms.len() implies holder_at_hand(
        a,
        game::played(p, #[trigger] ms[k] as int),
    ) == holder_at_hand(b, game::played(p, ms[k] as int)) && forall|x: int| #[trigger]
        reply_owed(a, p, ms[k] as int, x) == reply_owed(b, p, ms[k] as int, x) by {
        lemma_at_hand_by_tables(a, b, game::played(p, ms[k] as int));
        assert forall|x: int| #[trigger] reply_owed(a, p, ms[k] as int, x) == reply_owed(
            b,
            p,
            ms[k] as int,
            x,
        ) by {
            assert(holder_owed(a, game::played(p, ms[k] as int), x) == holder_owed(
                b,
                game::played(p, ms[k] as int),
                x,
            ));
        }
    }
    assert forall|x: int| #[trigger] nonholder_owed(a, p, x) == nonholder_owed(b, p, x) by {
        if x == p.turn {
            if nonholder_owed(a, p, x) {
                let k = choose|k: int|
                    0 <= k < ms.len() && reply_owed(a, p, #[trigger] ms[k] as int, x);
                assert(reply_owed(b, p, ms[k] as int, x));
            }
            if nonholder_owed(b, p, x) {
                let k = choose|k: int|
                    0 <= k < ms.len() && reply_owed(b, p, #[trigger] ms[k] as int, x);
                assert(reply_owed(a, p, ms[k] as int, x));
            }
        }
    }
}

pub proof fn lemma_monopoly_by_tables(a: RaceProver, b: RaceProver, p: game::Position)
    requires
        same_tables(a, b),
    ensures
        forall|x: int| #[trigger] monopoly_owed(a, p, x) == monopoly_owed(b, p, x),
{
    lemma_same_tables(a, b);
    assert forall|t: int, k: int|
        0 <= t < 2 && 0 <= k < 64 && #[trigger] game::wall_is_legal(p, t, k) implies ({
        let q = after_wall(p, t, k);
        &&& nonholder_at_hand(a, q) == nonholder_at_hand(b, q)
        &&& forall|x: int| #[trigger] nonholder_owed(a, q, x) == nonholder_owed(b, q, x)
    }) by {
        lemma_replies_by_tables(a, b, after_wall(p, t, k));
    }
    assert(monopoly_at_hand(a, p) == monopoly_at_hand(b, p));
    assert forall|x: int| #[trigger] monopoly_owed(a, p, x) == monopoly_owed(b, p, x) by {
        if monopoly_owed(a, p, x) && x == p.turn && !pure_winner_is(p, p.turn) {
            let (t, k) = choose|t: int, k: int|
                0 <= t < 2 && 0 <= k < 64 && #[trigger] game::wall_is_legal(p, t, k)
                    && nonholder_owed(a, after_wall(p, t, k), x);
            assert(nonholder_owed(b, after_wall(p, t, k), x));
        }
        if monopoly_owed(b, p, x) && x == p.turn && !pure_winner_is(p, p.turn) {
            let (t, k) = choose|t: int, k: int|
                0 <= t < 2 && 0 <= k < 64 && #[trigger] game::wall_is_legal(p, t, k)
                    && nonholder_owed(b, after_wall(p, t, k), x);
            assert(nonholder_owed(a, after_wall(p, t, k), x));
        }
    }
}

/// A race has one winner.
proof fn lemma_one_pure_winner(p: game::Position, x: int, y: int)
    requires
        game::position_ok(p),
        pure_winner_is(p, x),
        pure_winner_is(p, y),
    ensures
        x == y,
{
    let i = race_cache::state_of(p);
    race_table::lemma_state_index(p.p0, p.p1, p.turn);
    let v = choose|v: int|
        v != 0 && #[trigger] race_table::value_is(p.w, i, v) && x == if v > 0 {
            p.turn
        } else {
            1 - p.turn
        };
    let u = choose|u: int|
        u != 0 && #[trigger] race_table::value_is(p.w, i, u) && y == if u > 0 {
            p.turn
        } else {
            1 - p.turn
        };
    if race_table::live(i) {
        race_table::law_race_value_is_unique(p.w, i, u, v);
    }
}

/// Bound for a proven winner of unknown distance.
pub open spec fn winner_bound(turn: int, winner: Option<int>) -> RaceBound {
    match winner {
        Some(x) => if x == turn {
            RaceBound::Lower(score::RACE_WIN_FLOOR)
        } else {
            RaceBound::Upper((-score::RACE_WIN_FLOOR) as i32)
        },
        None => RaceBound::Unknown,
    }
}

/// Turns a proven winner into a bound for the side to move.
pub fn bound_for_winner(turn: usize, winner: Option<usize>) -> (b: RaceBound)
    ensures
        b == winner_bound(
            turn as int,
            match winner {
                Some(x) => Some(x as int),
                None => None,
            },
        ),
{
    match winner {
        Some(x) => if x == turn {
            RaceBound::Lower(score::RACE_WIN_FLOOR)
        } else {
            RaceBound::Upper(-score::RACE_WIN_FLOOR)
        },
        None => RaceBound::Unknown,
    }
}

/// Bound when exactly one side is out of walls, from the pure-race score: an opponent
/// without walls cannot stop a won race, and a side without walls cannot save a lost one.
pub open spec fn broke_bound(p: game::Position, s: Option<i32>) -> RaceBound {
    if (p.wl0 == 0) == (p.wl1 == 0) {
        RaceBound::Unknown
    } else {
        match s {
            None => RaceBound::Unknown,
            Some(v) => if game::hand_of(p, 1 - p.turn) == 0 && v > 0 {
                RaceBound::Lower(v)
            } else if game::hand_of(p, p.turn) == 0 && v < 0 {
                RaceBound::Upper(v)
            } else {
                RaceBound::Unknown
            },
        }
    }
}

/// The bound of a side that is out of walls, by the race's score where its table is had.
pub open spec fn broke_told<C: Clock>(c: RaceCache, p: game::Position, b: RaceBound) -> bool {
    exists|s: Option<i32>| #[trigger]
        race_cache::score_had::<C>(c, p, false, s) && b == broke_bound(p, s)
}

/// The refuse-to-place bound for a given pure-race score.
pub fn broke_bound_for(g: &GameState, s: Option<i32>) -> (b: RaceBound)
    requires
        g.wf(),
    ensures
        b == broke_bound(g@, s),
{
    if (g.wl[0] == 0) == (g.wl[1] == 0) {
        return RaceBound::Unknown;
    }
    match s {
        None => RaceBound::Unknown,
        Some(v) => if g.wl[1 - g.turn] == 0 && v > 0 {
            RaceBound::Lower(v)
        } else if g.wl[g.turn] == 0 && v < 0 {
            RaceBound::Upper(v)
        } else {
            RaceBound::Unknown
        },
    }
}

/// Are the pawns too far apart to meet?
pub fn pawns_are_race_separated(g: &GameState) -> (r: bool)
    requires
        g.wf(),
    ensures
        r == separated(g@),
{
    let r0: usize = g.pawn[0] / 9;
    let c0: usize = g.pawn[0] % 9;
    let r1: usize = g.pawn[1] / 9;
    let c1: usize = g.pawn[1] % 9;
    let dr: usize = if r0 < r1 {
        r1 - r0
    } else {
        r0 - r1
    };
    let dc: usize = if c0 < c1 {
        c1 - c0
    } else {
        c0 - c1
    };
    dr > 2 || dc > 2
}

/// Goal distance of the side not to move.
pub fn opponent_distance_to_goal(g: &GameState) -> (d: u8)
    requires
        g.wf(),
    ensures
        d == board::goal_distance(g.topo(), 1 - g@.turn, game::pawn_of(g@, 1 - g@.turn)),
{
    let opponent: usize = 1 - g.turn;
    let field = g.compute_dist(opponent);
    proof {
        board::lemma_field_is_goal_distance(
            g.topo(),
            opponent as int,
            field@,
            game::pawn_of(g@, opponent as int),
        );
    }
    field[g.pawn[opponent]]
}

/// Reads an on/off switch from its textual value: `1` or `true` in any case.
pub open spec fn switch_on(t: Seq<char>) -> bool {
    t == "1"@ || (t.len() == 4 && (t[0] == 't' || t[0] == 'T') && (t[1] == 'r' || t[1] == 'R') && (
    t[2] == 'u' || t[2] == 'U') && (t[3] == 'e' || t[3] == 'E'))
}

/// Is the switch set? An absent value is off.
pub fn switch_is_on(value: Option<&str>) -> (on: bool)
    ensures
        on == match value {
            Some(t) => switch_on(t@),
            None => false,
        },
{
    match value {
        None => false,
        Some(t) => {
            if crate::text::str_eq(t, "1") {
                return true;
            }
            if t.unicode_len() != 4 {
                return false;
            }
            let a: char = t.get_char(0);
            let b: char = t.get_char(1);
            let c: char = t.get_char(2);
            let d: char = t.get_char(3);
            (a == 't' || a == 'T') && (b == 'r' || b == 'R') && (c == 'u' || c == 'U') && (d == 'e'
                || d == 'E')
        },
    }
}

/// The race prover: tables, counters and which layers are switched on.
pub struct RaceProver {
    pub cache: RaceCache,
    pub stats: RaceOutcomeStats,
    /// Exact race endgame on at all.
    pub race_proof: bool,
    /// One-wall layer, once resolved.
    pub one_wall_race_resolved: Option<bool>,
    /// Two-wall layer, once resolved.
    pub two_wall_race_resolved: Option<bool>,
}

impl RaceProver {
    pub open spec fn wf(&self) -> bool {
        self.cache.wf()
    }

    /// Everything but the tables and counters.
    pub open spec fn same_config(&self, other: &Self) -> bool {
        &&& self.race_proof == other.race_proof
        &&& self.one_wall_race_resolved == other.one_wall_race_resolved
        &&& self.two_wall_race_resolved == other.two_wall_race_resolved
    }

    /// Race proof on, the two layers unresolved, no tables.
    pub fn new() -> (r: Self)
        ensures
            r.wf(),
            r.race_proof,
            r.one_wall_race_resolved is None,
            r.two_wall_race_resolved is None,
            r.stats == no_counts(),
            forall|w: board::Topo| !(#[trigger] r.cache.cached(w)),
    {
        RaceProver {
            cache: RaceCache::new(),
            stats: RaceOutcomeStats::new(),
            race_proof: true,
            one_wall_race_resolved: None,
            two_wall_race_resolved: None,
        }
    }

    /// The one-wall layer's switch: resolved once, from `env` the first time.
    pub fn one_wall_race_enabled(&mut self, env: Option<&str>) -> (on: bool)
        ensures
            on == match old(self).one_wall_race_resolved {
                Some(b) => b,
                None => env is Some && switch_on(env->0@),
            },
            *final(self) == (RaceProver { one_wall_race_resolved: Some(on), ..*old(self) }),
    {
        let on: bool = match self.one_wall_race_resolved {
            Some(b) => b,
            None => switch_is_on(env),
        };
        self.one_wall_race_resolved = Some(on);
        on
    }

    /// The two-wall layer's switch: resolved once, from `env` the first time.
    pub fn two_wall_race_enabled(&mut self, env: Option<&str>) -> (on: bool)
        ensures
            on == match old(self).two_wall_race_resolved {
                Some(b) => b,
                None => env is Some && switch_on(env->0@),
            },
            *final(self) == (RaceProver { two_wall_race_resolved: Some(on), ..*old(self) }),
    {
        let on: bool = match self.two_wall_race_resolved {
            Some(b) => b,
            None => switch_is_on(env),
        };
        self.two_wall_race_resolved = Some(on);
        on
    }

    /// Winner of the pure race from here, when a table is at hand and decides it.
    pub fn zero_wall_winner_for_current_topology<C: Clock>(
        &mut self,
        g: &GameState,
        clock: &mut C,
    ) -> (winner: Option<usize>)
        requires
            old(self).wf(),
            g.wf(),
        ensures
            final(self).wf(),
            final(self).same_config(old(self)),
            final(self).stats == old(self).stats,
            winner matches Some(x) ==> x < 2 && pure_winner_is(g@, x as int),
            // A table at hand answers, and stays.
            old(self).race_proof && old(self).cache.cached(g.topo()) ==> same_tables(
                *final(self),
                *old(self),
            ) && forall|x: int| #[trigger] pure_winner_is(g@, x) ==> winner == Some(x as usize),
    {
        let s = self.cache.zero_wall_exact_score(self.race_proof, g, clock);
        match s {
            Some(v) => {
                proof {
                    lemma_score_names_winner(g@, v);
                }
                if v > 0 {
                    Some(g.turn)
                } else {
                    Some(1 - g.turn)
                }
            },
            None => {
                proof {
                    if old(self).race_proof && old(self).cache.cached(g.topo()) {
                        assert forall|x: int| !(#[trigger] pure_winner_is(g@, x)) by {
                            lemma_no_score_no_winner(g@, x);
                        }
                    }
                }
                None
            },
        }
    }
}

/// A race score names the winner.
proof fn lemma_score_names_winner(p: game::Position, s: i32)
    requires
        game::position_ok(p),
        race_cache::race_score_is(p, Some(s)),
    ensures
        s != 0,
        s > 0 ==> pure_winner_is(p, p.turn),
        s < 0 ==> pure_winner_is(p, 1 - p.turn),
        s > 0 ==> !pure_winner_is(p, 1 - p.turn),
        s < 0 ==> !pure_winner_is(p, p.turn),
{
    let i = race_cache::state_of(p);
    let v = choose|v: int|
        -13_122 <= v <= 13_122 && #[trigger] race_table::value_is(p.w, i, v)
            && race_cache::score_of_value(v) == Some(s);
    race_table::lemma_state_index(p.p0, p.p1, p.turn);
    assert(v != 0);
    assert(race_table::live(i));
    if pure_winner_is(p, 1 - p.turn) && s > 0 {
        let u = choose|u: int|
            u != 0 && #[trigger] race_table::value_is(p.w, i, u) && 1 - p.turn == if u > 0 {
                p.turn
            } else {
                1 - p.turn
            };
        race_table::law_race_value_is_unique(p.w, i, u, v);
    }
    if pure_winner_is(p, p.turn) && s < 0 {
        let u = choose|u: int|
            u != 0 && #[trigger] race_table::value_is(p.w, i, u) && p.turn == if u > 0 {
                p.turn
            } else {
                1 - p.turn
            };
        race_table::law_race_value_is_unique(p.w, i, u, v);
    }
}

/// An undecided race has no winner.
proof fn lemma_no_score_no_winner(p: game::Position, x: int)
    requires
        game::position_ok(p),
        race_cache::race_score_is(p, None),
    ensures
        !pure_winner_is(p, x),
{
    let i = race_cache::state_of(p);
    let v = choose|v: int|
        -13_122 <= v <= 13_122 && #[trigger] race_table::value_is(p.w, i, v)
            && race_cache::score_of_value(v) is None;
    race_table::lemma_state_index(p.p0, p.p1, p.turn);
    assert(v == 0);
    if pure_winner_is(p, x) {
        let u = choose|u: int|
            u != 0 && #[trigger] race_table::value_is(p.w, i, u) && x == if u > 0 {
                p.turn
            } else {
                1 - p.turn
            };
        if race_table::live(i) {
            race_table::law_race_value_is_unique(p.w, i, u, v);
        }
    }
}

/// Playing a move and taking it back leaves room for the next.
proof fn lemma_wall_move_accepted(p: game::Position, t: int, s: int)
    requires
        game::position_ok(p),
        p.hist.len() < game::MAX_HISTORY,
        0 <= t < 2,
        0 <= s < 64,
        game::wall_is_legal(p, t, s),
        game::hand_of(p, p.turn) > 0,
        game::hand_of(p, p.turn) <= i32::MAX,
    ensures
        game::accepts(p, moves::wall_move_id(t, s)),
        game::position_ok(after_wall(p, t, s)),
        game::can_take_back(after_wall(p, t, s)),
        game::taken_back(after_wall(p, t, s)) == p,
{
    let m = moves::wall_move_id(t, s);
    assert(game::accepts(p, m));
    game::law_played_keeps_order(p, m);
    game::law_taken_back_undoes_played(p, m);
}

impl RaceProver {
    /// The last wall is in the mover's hand: who wins, if that can be proven?
    pub fn one_wall_holder_winner<C: Clock>(&mut self, g: &mut GameState, clock: &mut C) -> (winner:
        Option<usize>)
        requires
            old(self).wf(),
            old(g).wf(),
            old(g)@.hist.len() < game::MAX_HISTORY,
        ensures
            final(self).wf(),
            final(self).same_config(old(self)),
            final(self).stats == old(self).stats,
            final(g).wf(),
            final(g)@ == old(g)@,
            winner matches Some(x) ==> x < 2 && holder_verdict(old(g)@, x as int),
            !holder_layer(old(g)@) ==> winner is None,
            holder_layer(old(g)@) && old(self).race_proof && old(self).cache.cached(old(g).topo())
                && pure_winner_is(old(g)@, old(g)@.turn) ==> winner == Some(old(g)@.turn as usize),
            // With the tables at hand the winner is named, and the tables stay.
            holder_at_hand(*old(self), old(g)@) ==> same_tables(*final(self), *old(self)),
            forall|x: int| #[trigger]
                holder_owed(*old(self), old(g)@, x) ==> winner == Some(x as usize),
    {
        let ghost p = g@;
        let ghost told = holder_at_hand(*self, p);
        if g.wl[0] as i64 + g.wl[1] as i64 != 1 || g.wl[g.turn] != 1 || !pawns_are_race_separated(
            g,
        ) {
            return None;
        }
        let holder: usize = g.turn;
        let pure = self.zero_wall_winner_for_current_topology(g, clock);
        let pure_winner: usize = match pure {
            Some(x) => x,
            None => {
                return None;
            },
        };
        proof {
            if pure_winner_is(p, p.turn) && pure_winner_is(p, 1 - p.turn) {
                lemma_one_pure_winner(p, p.turn, 1 - p.turn);
            }
        }
        if pure_winner == holder {
            return Some(holder);
        }
        if opponent_distance_to_goal(g) != 1 {
            return None;
        }
        assert(opponent_at_door(p));
        let mut saw_legal_wall: bool = false;
        let mut saw_unknown: bool = false;
        let mut wall_type: usize = 0;
        while wall_type < 2
            invariant
                self.wf(),
                self.same_config(old(self)),
                self.stats == old(self).stats,
                g.wf(),
                g@ == p,
                p == old(g)@,
                game::position_ok(p),
                p.hist.len() < game::MAX_HISTORY,
                holder_layer(p),
                opponent_at_door(p),
                holder == p.turn,
                wall_type <= 2,
                pure_winner == 1 - holder,
                pure_winner_is(p, pure_winner as int),
                told == holder_at_hand(*old(self), p),
                told ==> same_tables(*self, *old(self)),
                told ==> forall|t: int, s: int|
                    0 <= t < wall_type && 0 <= s < 64 && #[trigger] game::wall_is_legal(p, t, s)
                        ==> !pure_winner_is(after_wall(p, t, s), p.turn),
                told && holder_verdict(p, 1 - p.turn) ==> !saw_unknown,
                saw_legal_wall ==> some_legal_wall(p),
                forall|t: int, s: int|
                    0 <= t < wall_type && 0 <= s < 64 && #[trigger] game::wall_is_legal(p, t, s)
                        ==> saw_legal_wall,
                !saw_unknown ==> forall|t: int, s: int|
                    0 <= t < wall_type && 0 <= s < 64 && #[trigger] game::wall_is_legal(p, t, s)
                        ==> pure_winner_is(after_wall(p, t, s), 1 - holder),
            decreases 2 - wall_type,
        {
            let mut slot: usize = 0;
            while slot < 64
                invariant
                    self.wf(),
                    self.same_config(old(self)),
                    self.stats == old(self).stats,
                    g.wf(),
                    g@ == p,
                    p == old(g)@,
                    game::position_ok(p),
                    p.hist.len() < game::MAX_HISTORY,
                    holder_layer(p),
                    opponent_at_door(p),
                    holder == p.turn,
                    wall_type < 2,
                    slot <= 64,
                    told == holder_at_hand(*old(self), p),
                    told ==> same_tables(*self, *old(self)),
                    told ==> forall|t: int, s: int|
                        0 <= t < wall_type && 0 <= s < 64 && #[trigger] game::wall_is_legal(p, t, s)
                            ==> !pure_winner_is(after_wall(p, t, s), p.turn),
                    told ==> forall|s: int|
                        0 <= s < slot && #[trigger] game::wall_is_legal(p, wall_type as int, s)
                            ==> !pure_winner_is(after_wall(p, wall_type as int, s), p.turn),
                    told && holder_verdict(p, 1 - p.turn) ==> !saw_unknown,
                    saw_legal_wall ==> some_legal_wall(p),
                    forall|t: int, s: int|
                        0 <= t < wall_type && 0 <= s < 64 && #[trigger] game::wall_is_legal(p, t, s)
                            ==> saw_legal_wall,
                    forall|s: int|
                        0 <= s < slot && #[trigger] game::wall_is_legal(p, wall_type as int, s)
                            ==> saw_legal_wall,
                    !saw_unknown ==> forall|t: int, s: int|
                        0 <= t < wall_type && 0 <= s < 64 && #[trigger] game::wall_is_legal(p, t, s)
                            ==> pure_winner_is(after_wall(p, t, s), 1 - holder),
                    !saw_unknown ==> forall|s: int|
                        0 <= s < slot && #[trigger] game::wall_is_legal(p, wall_type as int, s)
                            ==> pure_winner_is(after_wall(p, wall_type as int, s), 1 - holder),
                decreases 64 - slot,
            {
                if g.wall_legal(wall_type, slot) {
                    assert(game::wall_is_legal(p, wall_type as int, slot as int));
                    saw_legal_wall = true;
                    proof {
                        lemma_wall_move_accepted(p, wall_type as int, slot as int);
                    }
                    let mv: i16 = moves::wall_move(wall_type, slot);
                    g.make_move(mv);
                    assert(g@ == after_wall(p, wall_type as int, slot as int));
                    proof {
                        if told {
                            lemma_same_tables(*self, *old(self));
                        }
                    }
                    let child = self.zero_wall_winner_for_current_topology(g, clock);
                    g.unmake_move();
                    match child {
                        Some(x) => {
                            if x == holder {
                                proof {
                                    let q = after_wall(p, wall_type as int, slot as int);
                                    if holder_verdict(p, 1 - p.turn) {
                                        lemma_one_pure_winner(q, p.turn, 1 - p.turn);
                                    }
                                }
                                return Some(holder);
                            }
                        },
                        None => {
                            saw_unknown = true;
                        },
                    }
                }
                slot += 1;
            }
            wall_type += 1;
        }
        if saw_legal_wall && !saw_unknown {
            Some(1 - holder)
        } else {
            None
        }
    }

    /// The last wall is in the opponent's hand: who wins, if that can be proven? A win
    /// needs one covered pawn move; a loss needs every pawn move covered.
    pub fn one_wall_nonholder_winner<C: Clock>(&mut self, g: &mut GameState, clock: &mut C) -> (
    winner: Option<usize>)
        requires
            old(self).wf(),
            old(g).wf(),
            old(g)@.hist.len() + 1 < game::MAX_HISTORY,
        ensures
            final(self).wf(),
            final(self).same_config(old(self)),
            final(self).stats == old(self).stats,
            final(g).wf(),
            final(g)@ == old(g)@,
            winner matches Some(x) ==> x < 2 && nonholder_verdict(old(g)@, x as int),
            !nonholder_layer(old(g)@) ==> winner is None,
            nonholder_layer(old(g)@) && (exists|k: int|
                0 <= k < game::pawn_moves(old(g)@).len() && game::winner_of(
                    game::played(old(g)@, #[trigger] game::pawn_moves(old(g)@)[k] as int),
                ) == old(g)@.turn) ==> winner == Some(old(g)@.turn as usize),
            // With the tables at hand the winner is named, and the tables stay.
            nonholder_at_hand(*old(self), old(g)@) ==> same_tables(*final(self), *old(self)),
            forall|x: int| #[trigger]
                nonholder_owed(*old(self), old(g)@, x) ==> winner == Some(x as usize),
    {
        let ghost p = g@;
        let ghost told = nonholder_at_hand(*self, p);
        if g.wl[0] as i64 + g.wl[1] as i64 != 1 || g.wl[g.turn] != 0 {
            return None;
        }
        let mover: usize = g.turn;
        let ms = g.gen_pawn_moves();
        if ms.len() == 0 {
            return None;
        }
        let mut saw_unknown: bool = false;
        let mut i: usize = 0;
        while i < ms.len()
            invariant
                self.wf(),
                self.same_config(old(self)),
                self.stats == old(self).stats,
                g.wf(),
                g@ == p,
                p == old(g)@,
                game::position_ok(p),
                p.hist.len() + 1 < game::MAX_HISTORY,
                nonholder_layer(p),
                mover == p.turn,
                ms@ == game::pawn_moves(p),
                ms@.len() > 0,
                forall|k: int| 0 <= k < ms@.len() ==> moves::pawn_id(#[trigger] ms@[k] as int),
                i <= ms@.len(),
                told == nonholder_at_hand(*old(self), p),
                told ==> same_tables(*self, *old(self)),
                told ==> forall|k: int|
                    0 <= k < i ==> !reply_owed(*old(self), p, #[trigger] ms@[k] as int, p.turn),
                nonholder_owed(*old(self), p, 1 - p.turn) ==> !saw_unknown,
                forall|k: int|
                    0 <= k < i ==> game::winner_of(game::played(p, #[trigger] ms@[k] as int))
                        != p.turn,
                !saw_unknown ==> forall|k: int|
                    0 <= k < i ==> reply_verdict(p, #[trigger] ms@[k] as int, 1 - mover),
            decreases ms@.len() - i,
        {
            let mv: i16 = ms[i];
            proof {
                assert(moves::pawn_id(ms@[i as int] as int));
                assert(game::accepts(p, mv as int));
                game::law_played_keeps_order(p, mv as int);
                game::law_taken_back_undoes_played(p, mv as int);
            }
            g.make_move(mv);
            let arrived: bool = g.winner() == mover as i32;
            let ghost q = game::played(p, mv as int);
            proof {
                if told {
                    lemma_at_hand_by_tables(*self, *old(self), q);
                    if !arrived {
                        assert(game::winner_of(game::played(p, ms@[i as int] as int)) != p.turn);
                        assert(holder_at_hand(*self, q));
                    }
                }
                if nonholder_owed(*old(self), p, 1 - p.turn) {
                    assert(reply_owed(*old(self), p, ms@[i as int] as int, 1 - p.turn));
                    assert(holder_owed(*self, q, 1 - p.turn));
                }
                if told && !arrived && reply_owed(*old(self), p, ms@[i as int] as int, p.turn) {
                    assert(holder_owed(*self, q, p.turn));
                }
            }
            let child = if arrived {
                Some(mover)
            } else {
                self.one_wall_holder_winner(g, clock)
            };
            g.unmake_move();
            match child {
                Some(x) => {
                    assert(reply_verdict(p, ms@[i as int] as int, x as int));
                    if x == mover {
                        return Some(mover);
                    }
                },
                None => {
                    saw_unknown = true;
                },
            }
            i += 1;
        }
        if saw_unknown {
            None
        } else {
            Some(1 - mover)
        }
    }

    /// Bound from the one-wall layer.
    pub fn one_wall_race_bound<C: Clock>(&mut self, g: &mut GameState, clock: &mut C) -> (bound:
        RaceBound)
        requires
            old(self).wf(),
            old(g).wf(),
            old(g)@.hist.len() + 1 < game::MAX_HISTORY,
        ensures
            final(self).wf(),
            final(self).same_config(old(self)),
            final(g).wf(),
            final(g)@ == old(g)@,
            old(self).one_wall_race_resolved != Some(true) || old(g)@.wl0 + old(g)@.wl1 != 1
                ==> bound == RaceBound::Unknown && *final(self) == *old(self),
            bound == RaceBound::Unknown || (bound == RaceBound::Lower(score::RACE_WIN_FLOOR) && (
            holder_verdict(old(g)@, old(g)@.turn) || nonholder_verdict(old(g)@, old(g)@.turn)))
                || (bound == RaceBound::Upper((-score::RACE_WIN_FLOOR) as i32) && (holder_verdict(
                old(g)@,
                1 - old(g)@.turn,
            ) || nonholder_verdict(old(g)@, 1 - old(g)@.turn))),
            old(self).one_wall_race_resolved == Some(true) && old(self).race_proof && holder_layer(
                old(g)@,
            ) && old(self).cache.cached(old(g).topo()) && pure_winner_is(old(g)@, old(g)@.turn)
                ==> bound == RaceBound::Lower(score::RACE_WIN_FLOOR),
            // With the tables at hand the winner is named.
            old(self).one_wall_race_resolved == Some(true) ==> forall|x: int|
                #![trigger holder_owed(*old(self), old(g)@, x)]
                #![trigger nonholder_owed(*old(self), old(g)@, x)]
                holder_owed(*old(self), old(g)@, x) || nonholder_owed(*old(self), old(g)@, x)
                    ==> bound == winner_bound(old(g)@.turn, Some(x)),
    {
        if self.one_wall_race_resolved != Some(true) || g.wl[0] as i64 + g.wl[1] as i64 != 1 {
            return RaceBound::Unknown;
        }
        self.stats.one_wall_calls = race_cache::bump(self.stats.one_wall_calls);
        proof {
            lemma_at_hand_by_tables(*old(self), *self, g@);
            lemma_replies_by_tables(*old(self), *self, g@);
        }
        let winner = if g.wl[g.turn] == 1 {
            self.one_wall_holder_winner(g, clock)
        } else {
            self.one_wall_nonholder_winner(g, clock)
        };
        if winner.is_some() {
            self.stats.one_wall_decisive = race_cache::bump(self.stats.one_wall_decisive);
        } else {
            self.stats.one_wall_unknown = race_cache::bump(self.stats.one_wall_unknown);
        }
        bound_for_winner(g.turn, winner)
    }

    /// Exactly one side is out of walls: the refuse-to-place bounds, with the exact
    /// distance of the projected race.
    pub fn one_side_broke_race_bound<C: Clock>(&mut self, g: &GameState, clock: &mut C) -> (bound:
        RaceBound)
        requires
            old(self).wf(),
            g.wf(),
        ensures
            final(self).wf(),
            final(self).same_config(old(self)),
            !old(self).race_proof || (g@.wl0 == 0) == (g@.wl1 == 0) ==> bound == RaceBound::Unknown
                && *final(self) == *old(self),
            bound == RaceBound::Unknown || exists|s: i32|
                #[trigger] race_cache::race_score_is(g@, Some(s)) && bound == broke_bound(
                    g@,
                    Some(s),
                ),
            old(self).race_proof && old(self).cache.cached(g.topo()) ==> exists|s: Option<i32>|
                #[trigger] race_cache::race_score_is(g@, s) && bound == broke_bound(g@, s),
            // The bound is that of the race's score, where its table is had.
            old(self).race_proof && (g@.wl0 == 0) != (g@.wl1 == 0) ==> broke_told::<C>(
                old(self).cache,
                g@,
                bound,
            ),
            // A table at hand stays, with all others.
            old(self).race_proof && old(self).cache.cached(g.topo()) ==> same_tables(
                *final(self),
                *old(self),
            ),
            (bound != RaceBound::Unknown && old(self).stats.broke_decisive < u64::MAX)
                ==> final(self).stats.broke_decisive == old(self).stats.broke_decisive + 1,
    {
        if !self.race_proof || (g.wl[0] == 0) == (g.wl[1] == 0) {
            proof {
                if old(self).race_proof && old(self).cache.cached(g.topo()) {
                    lemma_cached_race_has_score(*old(self), *g);
                }
            }
            return RaceBound::Unknown;
        }
        self.stats.broke_calls = race_cache::bump(self.stats.broke_calls);
        let s = self.cache.zero_wall_exact_score(self.race_proof, g, clock);
        let bound = broke_bound_for(g, s);
        assert(race_cache::score_had::<C>(old(self).cache, g@, false, s));
        match bound {
            RaceBound::Lower(_) => {
                self.stats.broke_decisive = race_cache::bump(self.stats.broke_decisive);
                self.stats.broke_lower = race_cache::bump(self.stats.broke_lower);
            },
            RaceBound::Upper(_) => {
                self.stats.broke_decisive = race_cache::bump(self.stats.broke_decisive);
                self.stats.broke_upper = race_cache::bump(self.stats.broke_upper);
            },
            _ => {
                self.stats.broke_unknown = race_cache::bump(self.stats.broke_unknown);
            },
        }
        bound
    }

    /// Bound when both remaining walls are in one hand.
    pub fn two_wall_monopoly_race_bound<C: Clock>(&mut self, g: &mut GameState, clock: &mut C) -> (
    bound: RaceBound)
        requires
            old(self).wf(),
            old(g).wf(),
            old(g)@.hist.len() + 2 < game::MAX_HISTORY,
        ensures
            final(self).wf(),
            final(self).same_config(old(self)),
            final(g).wf(),
            final(g)@ == old(g)@,
            old(self).two_wall_race_resolved != Some(true) || old(g)@.wl0 + old(g)@.wl1 != 2
                ==> bound == RaceBound::Unknown && *final(self) == *old(self),
            bound == RaceBound::Unknown || (bound == RaceBound::Lower(score::RACE_WIN_FLOOR)
                && monopoly_verdict(old(g)@, old(g)@.turn)) || (bound == RaceBound::Upper(
                (-score::RACE_WIN_FLOOR) as i32,
            ) && monopoly_verdict(old(g)@, 1 - old(g)@.turn)),
            old(self).two_wall_race_resolved == Some(true) && old(self).race_proof
                && monopoly_layer(old(g)@) && old(self).cache.cached(old(g).topo())
                && pure_winner_is(old(g)@, old(g)@.turn) ==> bound == RaceBound::Lower(
                score::RACE_WIN_FLOOR,
            ),
            // With the tables at hand the winner is named.
            forall|x: int| #[trigger]
                monopoly_owed(*old(self), old(g)@, x) && old(self).two_wall_race_resolved == Some(true)
                    ==> bound == winner_bound(old(g)@.turn, Some(x)),
    {
        if self.two_wall_race_resolved != Some(true) || g.wl[0] as i64 + g.wl[1] as i64 != 2 {
            return RaceBound::Unknown;
        }
        self.stats.two_wall_calls = race_cache::bump(self.stats.two_wall_calls);
        proof {
            lemma_monopoly_by_tables(*old(self), *self, g@);
        }
        let winner = self.monopoly_winner(g, clock);
        if winner.is_some() {
            self.stats.two_wall_decisive = race_cache::bump(self.stats.two_wall_decisive);
        } else {
            self.stats.two_wall_unknown = race_cache::bump(self.stats.two_wall_unknown);
        }
        bound_for_winner(g.turn, winner)
    }

    /// Both remaining walls are in the mover's hand: who wins, if that can be proven?
    fn monopoly_winner<C: Clock>(&mut self, g: &mut GameState, clock: &mut C) -> (winner: Option<
        usize,
    >)
        requires
            old(self).wf(),
            old(g).wf(),
            old(g)@.hist.len() + 2 < game::MAX_HISTORY,
            old(g)@.wl0 + old(g)@.wl1 == 2,
        ensures
            final(self).wf(),
            final(self).same_config(old(self)),
            final(self).stats == old(self).stats,
            final(g).wf(),
            final(g)@ == old(g)@,
            winner matches Some(x) ==> x < 2 && monopoly_verdict(old(g)@, x as int),
            old(self).race_proof && monopoly_layer(old(g)@) && old(self).cache.cached(
                old(g).topo(),
            ) && pure_winner_is(old(g)@, old(g)@.turn) ==> winner == Some(old(g)@.turn as usize),
            forall|x: int| #[trigger]
                monopoly_owed(*old(self), old(g)@, x) ==> winner == Some(x as usize),
    {
        let ghost p = g@;
        let ghost told = monopoly_at_hand(*self, p);
        let holder: usize = g.turn;
        if g.wl[holder] != 2 || !pawns_are_race_separated(g) {
            return None;
        }
        let pure_winner: usize = match self.zero_wall_winner_for_current_topology(g, clock) {
            Some(x) => x,
            None => {
                return None;
            },
        };
        proof {
            if pure_winner_is(p, p.turn) && pure_winner_is(p, 1 - p.turn) {
                lemma_one_pure_winner(p, p.turn, 1 - p.turn);
            }
        }
        if pure_winner == holder {
            return Some(holder);
        }
        if opponent_distance_to_goal(g) != 1 {
            return None;
        }
        let mut saw_legal_wall: bool = false;
        let mut saw_unknown: bool = false;
        let mut wall_type: usize = 0;
        while wall_type < 2
            invariant
                self.wf(),
                self.same_config(old(self)),
                self.stats == old(self).stats,
                g.wf(),
                g@ == p,
                p == old(g)@,
                game::position_ok(p),
                p.hist.len() + 2 < game::MAX_HISTORY,
                monopoly_layer(p),
                opponent_at_door(p),
                holder == p.turn,
                wall_type <= 2,
                pure_winner == 1 - holder,
                pure_winner_is(p, pure_winner as int),
                told == monopoly_at_hand(*old(self), p),
                told ==> same_tables(*self, *old(self)),
                told ==> forall|t: int, s: int|
                    0 <= t < wall_type && 0 <= s < 64 && #[trigger] game::wall_is_legal(p, t, s)
                        ==> !nonholder_owed(*old(self), after_wall(p, t, s), p.turn),
                monopoly_owed(*old(self), p, 1 - p.turn) ==> !saw_unknown,
                forall|t: int, s: int|
                    0 <= t < wall_type && 0 <= s < 64 && #[trigger] game::wall_is_legal(p, t, s)
                        ==> saw_legal_wall,
                saw_legal_wall ==> some_legal_wall(p),
                !saw_unknown ==> forall|t: int, s: int|
                    0 <= t < wall_type && 0 <= s < 64 && #[trigger] game::wall_is_legal(p, t, s)
                        ==> nonholder_verdict(after_wall(p, t, s), 1 - holder),
            decreases 2 - wall_type,
        {
            let mut slot: usize = 0;
            while slot < 64
                invariant
                    self.wf(),
                    self.same_config(old(self)),
                    self.stats == old(self).stats,
                    g.wf(),
                    g@ == p,
                    p == old(g)@,
                    game::position_ok(p),
                    p.hist.len() + 2 < game::MAX_HISTORY,
                    monopoly_layer(p),
                    opponent_at_door(p),
                    holder == p.turn,
                    wall_type < 2,
                    slot <= 64,
                    told == monopoly_at_hand(*old(self), p),
                    told ==> same_tables(*self, *old(self)),
                    told ==> forall|t: int, s: int|
                        0 <= t < wall_type && 0 <= s < 64 && #[trigger] game::wall_is_legal(p, t, s)
                            ==> !nonholder_owed(*old(self), after_wall(p, t, s), p.turn),
                    told ==> forall|s: int|
                        0 <= s < slot && #[trigger] game::wall_is_legal(p, wall_type as int, s)
                            ==> !nonholder_owed(
                            *old(self),
                            after_wall(p, wall_type as int, s),
                            p.turn,
                        ),
                    monopoly_owed(*old(self), p, 1 - p.turn) ==> !saw_unknown,
                    forall|t: int, s: int|
                        0 <= t < wall_type && 0 <= s < 64 && #[trigger] game::wall_is_legal(p, t, s)
                            ==> saw_legal_wall,
                    forall|s: int|
                        0 <= s < slot && #[trigger] game::wall_is_legal(p, wall_type as int, s)
                            ==> saw_legal_wall,
                    saw_legal_wall ==> some_legal_wall(p),
                    !saw_unknown ==> forall|t: int, s: int|
                        0 <= t < wall_type && 0 <= s < 64 && #[trigger] game::wall_is_legal(p, t, s)
                            ==> nonholder_verdict(after_wall(p, t, s), 1 - holder),
                    !saw_unknown ==> forall|s: int|
                        0 <= s < slot && #[trigger] game::wall_is_legal(p, wall_type as int, s)
                            ==> nonholder_verdict(after_wall(p, wall_type as int, s), 1 - holder),
                decreases 64 - slot,
            {
                if g.wall_legal(wall_type, slot) {
                    assert(game::wall_is_legal(p, wall_type as int, slot as int));
                    saw_legal_wall = true;
                    proof {
                        lemma_wall_move_accepted(p, wall_type as int, slot as int);
                    }
                    let mv: i16 = moves::wall_move(wall_type, slot);
                    g.make_move(mv);
                    assert(g@ == after_wall(p, wall_type as int, slot as int));
                    let ghost q = after_wall(p, wall_type as int, slot as int);
                    proof {
                        if told {
                            lemma_replies_by_tables(*self, *old(self), q);
                            assert(nonholder_at_hand(*self, q));
                        }
                        if told && nonholder_owed(*old(self), q, p.turn) {
                            assert(nonholder_owed(*self, q, p.turn));
                        }
                        if monopoly_owed(*old(self), p, 1 - p.turn) {
                            assert(nonholder_owed(*old(self), q, 1 - p.turn));
                            assert(nonholder_owed(*self, q, 1 - p.turn));
                        }
                    }
                    let child = self.one_wall_nonholder_winner(g, clock);
                    g.unmake_move();
                    match child {
                        Some(x) => {
                            if x == holder {
                                return Some(holder);
                            }
                        },
                        None => {
                            saw_unknown = true;
                        },
                    }
                }
                slot += 1;
            }
            wall_type += 1;
        }
        if saw_legal_wall && !saw_unknown {
            Some(1 - holder)
        } else {
            None
        }
    }
}

/// A cached topology has a race score for every pawn pair.
proof fn lemma_cached_race_has_score(r: RaceProver, g: GameState)
    requires
        r.wf(),
        g.wf(),
        r.cache.cached(g.topo()),
    ensures
        exists|s: Option<i32>| #[trigger] race_cache::race_score_is(g@, s),
{
    let i = choose|i: int| #[trigger] r.cache.holds(i, g.topo());
    let slot = r.cache.slots@[i]->0;
    race_table::lemma_state_index(g@.p0, g@.p1, g@.turn);
    let k = race_cache::state_of(g@);
    assert(r.cache.slots@[i] is Some);
    assert(slot.wf());
    assert(race_table::value_is(g.topo(), k, slot.tbl@[k] as int));
    assert(race_cache::race_score_is(g@, race_cache::score_of_value(slot.tbl@[k] as int)));
}

} // verus!

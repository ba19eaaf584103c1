//! How soon a game can end.

use crate::board;
use crate::dist_cache;
use crate::game;
use crate::moves;
use crate::num;
use crate::time_alloc;
use vstd::prelude::*;

verus! {

/// A move of the rules: a pawn move, or a wall from the hand onto a free place.
pub open spec fn may_play(p: game::Position, m: i16) -> bool {
    game::pawn_moves(p).contains(m) || (moves::wall_id(m as int) && game::slot_is_free(
        p.w,
        m as int,
    ) && game::hand_of(p, p.turn) > 0)
}

/// The game can be over after at most `n` more plies.
pub open spec fn can_end_within(p: game::Position, n: nat) -> bool
    decreases n,
{
    game::winner_of(p) >= 0 || (n > 0 && exists|m: i16| #[trigger]
        may_play(p, m) && can_end_within(game::played(p, m as int), (n - 1) as nat))
}

/// Turns of a player within `n` plies.
pub open spec fn turns_within(side: int, turn: int, n: nat) -> nat {
    if side == turn {
        ((n + 1) / 2) as nat
    } else {
        (n / 2) as nat
    }
}

/// The player's turns within `n` plies suffice, each two steps long.
pub open spec fn arrives_within(p: game::Position, side: int, n: nat) -> bool {
    board::goal_within(
        p.w,
        side,
        game::pawn_of(p, side),
        2 * turns_within(side, p.turn, n),
    )
}

/// First ply at which a game with these goal distances can end.
pub open spec fn first_end(turn: int, d0: int, d1: int) -> int {
    num::smaller(
        time_alloc::arrival_ply(0, turn, time_alloc::turns_for(d0)),
        time_alloc::arrival_ply(1, turn, time_alloc::turns_for(d1)),
    )
}

/// One step more.
proof fn lemma_step_back(w: board::Topo, side: int, cell: int, d: int, n: nat)
    requires
        0 <= d < 4,
        board::step_open(w, cell, d),
        board::goal_within(w, side, cell + board::delta(d), n),
    ensures
        board::goal_within(w, side, cell, n + 1),
{
    assert((n + 1 - 1) as nat == n);
}

/// A pawn move is at most two steps.
proof fn lemma_move_is_two_steps(
    w: board::Topo,
    me: int,
    opp: int,
    side: int,
    k: int,
    m: i16,
    n: nat,
)
    requires
        0 <= me < 81,
        0 <= opp < 81,
        0 <= k <= 4,
        game::targets_upto(w, me, opp, k).contains(m),
        board::goal_within(w, side, m as int, n),
    ensures
        board::goal_within(w, side, me, n + 2),
    decreases k,
{
    let all = game::targets_upto(w, me, opp, k);
    let i = choose|i: int| 0 <= i < all.len() && all[i] == m;
    let before = game::targets_upto(w, me, opp, k - 1);
    if i < before.len() {
        assert(before[i] == m);
        lemma_move_is_two_steps(w, me, opp, side, k - 1, m, n);
    } else {
        let d = k - 1;
        let to = me + board::delta(d);
        let here = game::targets_in(w, me, opp, d);
        let j = i - before.len();
        assert(here[j] == m);
        assert(board::step_open(w, me, d));
        board::lemma_step_on_board(w, me, d);
        if to != opp {
            assert(m as int == to);
            lemma_step_back(w, side, me, d, n);
            board::lemma_goal_within_grows(w, side, me, n + 1, n + 2);
        } else {
            let a = game::across(d);
            if board::step_open(w, opp, d) {
                board::lemma_step_on_board(w, opp, d);
                assert(m as int == opp + board::delta(d));
                lemma_step_back(w, side, opp, d, n);
            } else if board::step_open(w, opp, a) && j == 0 {
                board::lemma_step_on_board(w, opp, a);
                assert(m as int == opp + board::delta(a));
                lemma_step_back(w, side, opp, a, n);
            } else {
                board::lemma_step_on_board(w, opp, a + 1);
                assert(m as int == opp + board::delta(a + 1));
                lemma_step_back(w, side, opp, a + 1, n);
            }
            lemma_step_back(w, side, me, d, n + 1);
        }
    }
}

/// Pawns on the board and a topology of the right size.
pub open spec fn on_board(p: game::Position) -> bool {
    &&& board::topo_ok(p.w)
    &&& 0 <= p.p0 < 81
    &&& 0 <= p.p1 < 81
    &&& p.turn == 0 || p.turn == 1
}

/// A game that can end within `n` plies has a player who arrives within them.
proof fn lemma_end_is_an_arrival(p: game::Position, n: nat)
    requires
        on_board(p),
        can_end_within(p, n),
    ensures
        arrives_within(p, 0, n) || arrives_within(p, 1, n),
    decreases n,
{
    if game::winner_of(p) < 0 {
        let m = choose|m: i16| #[trigger]
            may_play(p, m) && can_end_within(game::played(p, m as int), (n - 1) as nat);
        let q = game::played(p, m as int);
        let me = game::pawn_of(p, p.turn);
        let opp = game::pawn_of(p, 1 - p.turn);
        let k = (n - 1) as nat;
        if game::pawn_moves(p).contains(m) {
            game::lemma_targets_on_board(p.w, me, opp, 4);
            let all = game::pawn_moves(p);
            let i = choose|i: int| 0 <= i < all.len() && all[i] == m;
            assert(moves::pawn_id(all[i] as int));
        }
        lemma_end_is_an_arrival(q, k);
        let s = if arrives_within(q, 0, k) {
            0int
        } else {
            1int
        };
        let steps = 2 * turns_within(s, q.turn, k);
        let more = 2 * turns_within(s, p.turn, n);
        let cell = game::pawn_of(p, s);
        if moves::wall_id(m as int) {
            dist_cache::lemma_within_after_wall(p.w, m as int, s, cell, steps);
            board::lemma_goal_within_grows(p.w, s, cell, steps, more);
        } else if s == p.turn {
            lemma_move_is_two_steps(p.w, me, opp, s, 4, m, steps);
            assert(steps + 2 == more);
        } else {
            assert(steps == more);
        }
    }
}

/// No game ends before its first end: every turn brings a pawn at most two steps nearer to
/// its goal, and no wall brings it nearer.
pub proof fn law_no_game_ends_sooner(p: game::Position, d0: int, d1: int, n: nat)
    requires
        on_board(p),
        board::dist_value(p.w, 0, p.p0, d0),
        board::dist_value(p.w, 1, p.p1, d1),
        can_end_within(p, n),
    ensures
        first_end(p.turn, d0, d1) <= n,
{
    lemma_end_is_an_arrival(p, n);
    let s = if arrives_within(p, 0, n) {
        0int
    } else {
        1int
    };
    let d = if s == 0 {
        d0
    } else {
        d1
    };
    let cell = game::pawn_of(p, s);
    let steps = 2 * turns_within(s, p.turn, n);
    assert(board::goal_within(p.w, s, cell, steps));
    if d > steps && d != 255 {
        board::lemma_goal_within_grows(p.w, s, cell, steps, (d - 1) as nat);
    }
    assert(d <= steps);
}

} // verus!

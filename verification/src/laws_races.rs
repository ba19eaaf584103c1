//! What a verdict on the last walls promises: the side it names wins the real game, walls and
//! all, whatever the other does.

use crate::board;
use crate::game;
use crate::laws_rules;
use crate::race;
use crate::race_cache;
use crate::race_table;
use crate::race_theorems;
use vstd::prelude::*;

verus! {

/// The game goes on: pawns on the board, neither home.
pub open spec fn running(p: game::Position) -> bool {
    &&& board::topo_ok(p.w)
    &&& 9 <= p.p0 < 81
    &&& 0 <= p.p1 < 72
    &&& p.turn == 0 || p.turn == 1
    &&& 0 <= p.wl0
    &&& 0 <= p.wl1
}

/// The side `x` wins the real game within `n` plies, whatever the other does.
pub open spec fn wins_within(p: game::Position, x: int, n: nat) -> bool {
    race_theorems::game_decided(p, x == p.turn, n)
}

/// The side `x` wins the real game in the end, whatever the other does.
pub open spec fn wins_the_game(p: game::Position, x: int) -> bool {
    exists|n: nat| #[trigger] wins_within(p, x, n)
}

/// A game decided within some plies is decided within more.
pub proof fn lemma_game_decided_grows(p: game::Position, win: bool, n: nat, k: nat)
    requires
        race_theorems::game_decided(p, win, n),
        n <= k,
    ensures
        race_theorems::game_decided(p, win, k),
    decreases n,
{
    let ms = game::pawn_moves(p);
    let a = (n - 1) as nat;
    let b = (k - 1) as nat;
    if win {
        if exists|j: int|
            0 <= j < ms.len() && (board::is_goal(p.turn, #[trigger] ms[j] as int)
                || race_theorems::game_decided(game::played(p, ms[j] as int), false, a)) {
            let j = choose|j: int|
                0 <= j < ms.len() && (board::is_goal(p.turn, #[trigger] ms[j] as int)
                    || race_theorems::game_decided(game::played(p, ms[j] as int), false, a));
            if !board::is_goal(p.turn, ms[j] as int) {
                lemma_game_decided_grows(game::played(p, ms[j] as int), false, a, b);
            }
        } else {
            let (t, s) = choose|t: int, s: int| #[trigger]
                race_theorems::wall_playable(p, t, s) && race_theorems::game_decided(
                    race::after_wall(p, t, s),
                    false,
                    a,
                );
            lemma_game_decided_grows(race::after_wall(p, t, s), false, a, b);
            assert(race_theorems::wall_playable(p, t, s));
        }
    } else {
        assert forall|j: int| 0 <= j < ms.len() implies !board::is_goal(
            p.turn,
            #[trigger] ms[j] as int,
        ) && race_theorems::game_decided(game::played(p, ms[j] as int), true, b) by {
            lemma_game_decided_grows(game::played(p, ms[j] as int), true, a, b);
        }
        assert forall|t: int, s: int| #[trigger]
            race_theorems::wall_playable(p, t, s) implies race_theorems::game_decided(
            race::after_wall(p, t, s),
            true,
            b,
        ) by {
            lemma_game_decided_grows(race::after_wall(p, t, s), true, a, b);
        }
    }
}

/// One number of plies serves every wall up to place `n`.
proof fn lemma_walls_within(p: game::Position, n: int) -> (most: nat)
    requires
        0 <= n <= 128,
        forall|t: int, s: int| #[trigger]
            race_theorems::wall_playable(p, t, s) ==> wins_the_game(
                race::after_wall(p, t, s),
                1 - p.turn,
            ),
    ensures
        forall|t: int, s: int| #[trigger]
            race_theorems::wall_playable(p, t, s) && t * 64 + s < n ==> race_theorems::game_decided(
                race::after_wall(p, t, s),
                true,
                most,
            ),
    decreases n,
{
    if n == 0 {
        0
    } else {
        let before = lemma_walls_within(p, n - 1);
        let t0 = (n - 1) / 64;
        let s0 = (n - 1) % 64;
        let q = race::after_wall(p, t0, s0);
        let most: nat = if race_theorems::wall_playable(p, t0, s0) {
            let k = choose|k: nat| #[trigger]
                wins_within(q, 1 - p.turn, k);
            if k > before {
                k
            } else {
                before
            }
        } else {
            before
        };
        if race_theorems::wall_playable(p, t0, s0) {
            assert(wins_the_game(q, 1 - p.turn));
            let k = choose|k: nat| #[trigger]
                wins_within(q, 1 - p.turn, k);
            lemma_game_decided_grows(q, true, k, most);
        }
        assert forall|t: int, s: int| #[trigger]
            race_theorems::wall_playable(p, t, s) && t * 64 + s
                < n implies race_theorems::game_decided(race::after_wall(p, t, s), true, most) by {
            if t * 64 + s < n - 1 {
                lemma_game_decided_grows(race::after_wall(p, t, s), true, before, most);
            } else {
                assert(t == t0 && s == s0);
            }
        }
        most
    }
}

/// One number of plies serves every pawn move up to place `n`.
proof fn lemma_steps_within(p: game::Position, n: int) -> (most: nat)
    requires
        0 <= n <= game::pawn_moves(p).len(),
        forall|k: int|
            0 <= k < game::pawn_moves(p).len() ==> wins_the_game(
                game::played(p, #[trigger] game::pawn_moves(p)[k] as int),
                1 - p.turn,
            ),
    ensures
        forall|k: int|
            0 <= k < n ==> race_theorems::game_decided(
                game::played(p, #[trigger] game::pawn_moves(p)[k] as int),
                true,
                most,
            ),
    decreases n,
{
    let ms = game::pawn_moves(p);
    if n == 0 {
        0
    } else {
        let before = lemma_steps_within(p, n - 1);
        let q = game::played(p, ms[n - 1] as int);
        assert(wins_the_game(q, 1 - p.turn));
        let k = choose|k: nat| #[trigger] wins_within(q, 1 - p.turn, k);
        let most: nat = if k > before {
            k
        } else {
            before
        };
        lemma_game_decided_grows(q, true, k, most);
        assert forall|j: int| 0 <= j < n implies race_theorems::game_decided(
            game::played(p, #[trigger] ms[j] as int),
            true,
            most,
        ) by {
            if j < n - 1 {
                lemma_game_decided_grows(game::played(p, ms[j] as int), true, before, most);
            }
        }
        most
    }
}

/// A side that is beaten whatever it does has lost.
proof fn lemma_no_way_out(p: game::Position)
    requires
        game::pawn_moves(p).len() > 0,
        forall|k: int|
            0 <= k < game::pawn_moves(p).len() ==> !board::is_goal(
                p.turn,
                #[trigger] game::pawn_moves(p)[k] as int,
            ) && wins_the_game(game::played(p, game::pawn_moves(p)[k] as int), 1 - p.turn),
        forall|t: int, s: int| #[trigger]
            race_theorems::wall_playable(p, t, s) ==> wins_the_game(
                race::after_wall(p, t, s),
                1 - p.turn,
            ),
    ensures
        wins_the_game(p, 1 - p.turn),
{
    let ms = game::pawn_moves(p);
    assert forall|k: int| 0 <= k < ms.len() implies wins_the_game(
        game::played(p, #[trigger] ms[k] as int),
        1 - p.turn,
    ) by {
        assert(!board::is_goal(p.turn, ms[k] as int));
    }
    let a = lemma_walls_within(p, 128);
    let b = lemma_steps_within(p, ms.len() as int);
    let most = a + b;
    assert forall|k: int| 0 <= k < ms.len() implies !board::is_goal(p.turn, #[trigger] ms[k] as int)
        && race_theorems::game_decided(game::played(p, ms[k] as int), true, most) by {
        lemma_game_decided_grows(game::played(p, ms[k] as int), true, b, most);
    }
    assert forall|t: int, s: int| #[trigger]
        race_theorems::wall_playable(p, t, s) implies race_theorems::game_decided(
        race::after_wall(p, t, s),
        true,
        most,
    ) by {
        lemma_game_decided_grows(race::after_wall(p, t, s), true, a, most);
    }
    assert(race_theorems::game_decided(p, false, most + 1));
    assert(wins_within(p, 1 - p.turn, most + 1));
}

/// The winner of the pure race wins the real game where nobody can disturb it: its opponent has
/// no wall.
proof fn lemma_undisturbed(p: game::Position, x: int)
    requires
        running(p),
        x == 0 || x == 1,
        game::hand_of(p, 1 - x) == 0,
        race::pure_winner_is(p, x),
    ensures
        wins_the_game(p, x),
{
    let i = race_cache::state_of(p);
    let v = choose|v: int|
        v != 0 && #[trigger] race_table::value_is(p.w, i, v) && x == if v > 0 {
            p.turn
        } else {
            1 - p.turn
        };
    race_table::lemma_state_index(p.p0, p.p1, p.turn);
    let win = x == p.turn;
    let n = (if v > 0 {
        v
    } else {
        -v
    }) as nat;
    race_theorems::law_refuse_to_place(p, win, n);
    assert(wins_within(p, x, n));
}

/// A loser of the pure race has moves, and none of them arrives.
proof fn lemma_loser_does_not_arrive(p: game::Position)
    requires
        running(p),
        race::pure_winner_is(p, 1 - p.turn),
    ensures
        game::pawn_moves(p).len() > 0,
        forall|k: int|
            0 <= k < game::pawn_moves(p).len() ==> !board::is_goal(
                p.turn,
                #[trigger] game::pawn_moves(p)[k] as int,
            ),
{
    let i = race_cache::state_of(p);
    let v = choose|v: int|
        v != 0 && #[trigger] race_table::value_is(p.w, i, v) && 1 - p.turn == if v > 0 {
            p.turn
        } else {
            1 - p.turn
        };
    race_table::lemma_state_index(p.p0, p.p1, p.turn);
    assert(race_table::decided_within(p.w, i, false, (-v) as nat));
    assert(race_table::race_moves(p.w, i) == game::pawn_moves(p));
}

/// A pawn one step from home, with no pawn beside it, goes home.
proof fn lemma_steps_home(q: game::Position)
    requires
        running(q),
        q.p0 != q.p1,
        !laws_rules::adjacent(q.p0, q.p1),
        board::goal_distance(q.w, q.turn, game::pawn_of(q, q.turn)) == 1,
    ensures
        wins_the_game(q, q.turn),
{
    let me = game::pawn_of(q, q.turn);
    let opp = game::pawn_of(q, 1 - q.turn);
    assert(board::reaches_goal(q.w, q.turn, me));
    let n = choose|n: nat| board::goal_within(q.w, q.turn, me, n);
    board::lemma_least_steps_exist(q.w, q.turn, me, n);
    assert(board::goal_within(q.w, q.turn, me, 1));
    let d = choose|d: int|
        0 <= d < 4 && #[trigger] board::step_open(q.w, me, d) && board::goal_within(
            q.w,
            q.turn,
            me + board::delta(d),
            0,
        );
    let to = me + board::delta(d);
    board::lemma_step_on_board(q.w, me, d);
    assert(board::is_goal(q.turn, to));
    assert(laws_rules::edge_open(q.w, me, to));
    laws_rules::law_steps_are_between_neighbours(q.w, me, to);
    assert(to != opp);
    assert(laws_rules::may_go(q.w, me, opp, to));
    laws_rules::lemma_some_target(q.w, me, opp, to);
    laws_rules::lemma_contains_upto(q.w, me, opp, 4, to);
    let ms = game::pawn_moves(q);
    assert(ms.contains(to as i16));
    let k = choose|k: int| 0 <= k < ms.len() && ms[k] == to as i16;
    assert(board::is_goal(q.turn, ms[k] as int));
    assert(race_theorems::game_decided(q, true, 1));
    assert(wins_within(q, q.turn, 1));
}

/// After a pawn move from pawns far apart they do not stand side by side.
proof fn lemma_far_apart(p: game::Position, k: int)
    requires
        running(p),
        race::separated(p),
        0 <= k < game::pawn_moves(p).len(),
    ensures
        ({
            let m = game::pawn_moves(p)[k] as int;
            let opp = game::pawn_of(p, 1 - p.turn);
            &&& 0 <= m < 81
            &&& m != opp
            &&& !laws_rules::adjacent(m, opp)
            &&& !laws_rules::adjacent(opp, m)
        }),
{
    let me = game::pawn_of(p, p.turn);
    let opp = game::pawn_of(p, 1 - p.turn);
    let ms = game::pawn_moves(p);
    game::lemma_targets_on_board(p.w, me, opp, 4);
    let m = ms[k] as int;
    assert(ms.contains(m as i16));
    laws_rules::lemma_contains_upto(p.w, me, opp, 4, m);
    assert(me != opp);
    laws_rules::lemma_some_target(p.w, me, opp, m);
    assert(laws_rules::may_go(p.w, me, opp, m));
    if laws_rules::edge_open(p.w, me, opp) {
        laws_rules::law_steps_are_between_neighbours(p.w, me, opp);
    }
    assert(laws_rules::edge_open(p.w, me, m));
    laws_rules::law_steps_are_between_neighbours(p.w, me, m);
}

/// At the door the opponent answers every pawn move by going home.
proof fn lemma_at_the_door(p: game::Position, k: int)
    requires
        running(p),
        race::separated(p),
        race::opponent_at_door(p),
        0 <= k < game::pawn_moves(p).len(),
        !board::is_goal(p.turn, game::pawn_moves(p)[k] as int),
    ensures
        wins_the_game(game::played(p, game::pawn_moves(p)[k] as int), 1 - p.turn),
{
    lemma_far_apart(p, k);
    lemma_steps_home(game::played(p, game::pawn_moves(p)[k] as int));
}

/// The position after a legal wall goes on, with one wall fewer in the mover's hand.
proof fn lemma_after_wall(p: game::Position, t: int, s: int)
    requires
        running(p),
        0 <= t < 2,
        0 <= s < 64,
        game::hand_of(p, p.turn) > 0,
    ensures
        running(race::after_wall(p, t, s)),
        race::after_wall(p, t, s).turn == 1 - p.turn,
        game::hand_of(race::after_wall(p, t, s), p.turn) == game::hand_of(p, p.turn) - 1,
        game::hand_of(race::after_wall(p, t, s), 1 - p.turn) == game::hand_of(p, 1 - p.turn),
{
}

/// A verdict with the last wall in the mover's hand names the winner of the real game.
pub proof fn law_holder_verdict_is_true(p: game::Position, x: int)
    requires
        running(p),
        race::holder_verdict(p, x),
    ensures
        x == 0 || x == 1,
        wins_the_game(p, x),
{
    if x == p.turn {
        if race::pure_winner_is(p, p.turn) {
            lemma_undisturbed(p, x);
        } else {
            let (t, s) = choose|t: int, s: int|
                0 <= t < 2 && 0 <= s < 64 && #[trigger] game::wall_is_legal(p, t, s)
                    && race::pure_winner_is(race::after_wall(p, t, s), p.turn);
            let q = race::after_wall(p, t, s);
            lemma_after_wall(p, t, s);
            lemma_undisturbed(q, x);
            let n = choose|n: nat| #[trigger] wins_within(q, x, n);
            assert(race_theorems::wall_playable(p, t, s));
            assert(race_theorems::game_decided(p, true, n + 1));
            assert(wins_within(p, x, n + 1));
        }
    } else {
        let ms = game::pawn_moves(p);
        lemma_loser_does_not_arrive(p);
        assert forall|k: int| 0 <= k < ms.len() implies !board::is_goal(
            p.turn,
            #[trigger] ms[k] as int,
        ) && wins_the_game(game::played(p, ms[k] as int), 1 - p.turn) by {
            lemma_at_the_door(p, k);
        }
        assert forall|t: int, s: int| #[trigger]
            race_theorems::wall_playable(p, t, s) implies wins_the_game(
            race::after_wall(p, t, s),
            1 - p.turn,
        ) by {
            lemma_after_wall(p, t, s);
            assert(game::wall_is_legal(p, t, s));
            lemma_undisturbed(race::after_wall(p, t, s), x);
        }
        lemma_no_way_out(p);
    }
}

/// A reply that settles the game names the winner of the real game after it.
proof fn lemma_reply_is_true(p: game::Position, k: int, x: int)
    requires
        running(p),
        race::nonholder_layer(p),
        0 <= k < game::pawn_moves(p).len(),
        race::reply_verdict(p, game::pawn_moves(p)[k] as int, x),
    ensures
        ({
            let m = game::pawn_moves(p)[k] as int;
            &&& board::is_goal(p.turn, m) ==> x == p.turn
            &&& !board::is_goal(p.turn, m) ==> wins_the_game(game::played(p, m), x)
        }),
{
    let me = game::pawn_of(p, p.turn);
    let opp = game::pawn_of(p, 1 - p.turn);
    game::lemma_targets_on_board(p.w, me, opp, 4);
    let m = game::pawn_moves(p)[k] as int;
    if !board::is_goal(p.turn, m) {
        law_holder_verdict_is_true(game::played(p, m), x);
    }
}

/// A verdict on the side without the last wall names the winner of the real game.
pub proof fn law_nonholder_verdict_is_true(p: game::Position, x: int)
    requires
        running(p),
        race::nonholder_verdict(p, x),
    ensures
        x == 0 || x == 1,
        wins_the_game(p, x),
{
    let ms = game::pawn_moves(p);
    if x == p.turn {
        let k = choose|k: int|
            0 <= k < ms.len() && race::reply_verdict(p, #[trigger] ms[k] as int, x);
        lemma_reply_is_true(p, k, x);
        if board::is_goal(p.turn, ms[k] as int) {
            assert(race_theorems::game_decided(p, true, 1));
            assert(wins_within(p, x, 1));
        } else {
            let q = game::played(p, ms[k] as int);
            let n = choose|n: nat| #[trigger] wins_within(q, x, n);
            assert(q.turn == 1 - p.turn);
            assert(race_theorems::game_decided(q, false, n));
            assert(race_theorems::game_decided(p, true, n + 1));
            assert(wins_within(p, x, n + 1));
        }
    } else {
        assert forall|k: int| 0 <= k < ms.len() implies !board::is_goal(
            p.turn,
            #[trigger] ms[k] as int,
        ) && wins_the_game(game::played(p, ms[k] as int), 1 - p.turn) by {
            assert(race::reply_verdict(p, ms[k] as int, x));
            lemma_reply_is_true(p, k, x);
        }
        lemma_no_way_out(p);
    }
}

/// A verdict with both last walls in the mover's hand names the winner of the real game.
pub proof fn law_monopoly_verdict_is_true(p: game::Position, x: int)
    requires
        running(p),
        race::monopoly_verdict(p, x),
    ensures
        x == 0 || x == 1,
        wins_the_game(p, x),
{
    if x == p.turn {
        if race::pure_winner_is(p, p.turn) {
            lemma_undisturbed(p, x);
        } else {
            let (t, s) = choose|t: int, s: int|
                0 <= t < 2 && 0 <= s < 64 && #[trigger] game::wall_is_legal(p, t, s)
                    && race::nonholder_verdict(race::after_wall(p, t, s), p.turn);
            let q = race::after_wall(p, t, s);
            lemma_after_wall(p, t, s);
            law_nonholder_verdict_is_true(q, x);
            let n = choose|n: nat| #[trigger] wins_within(q, x, n);
            assert(race_theorems::wall_playable(p, t, s));
            assert(race_theorems::game_decided(p, true, n + 1));
            assert(wins_within(p, x, n + 1));
        }
    } else {
        let ms = game::pawn_moves(p);
        lemma_loser_does_not_arrive(p);
        assert forall|k: int| 0 <= k < ms.len() implies !board::is_goal(
            p.turn,
            #[trigger] ms[k] as int,
        ) && wins_the_game(game::played(p, ms[k] as int), 1 - p.turn) by {
            lemma_at_the_door(p, k);
        }
        assert forall|t: int, s: int| #[trigger]
            race_theorems::wall_playable(p, t, s) implies wins_the_game(
            race::after_wall(p, t, s),
            1 - p.turn,
        ) by {
            lemma_after_wall(p, t, s);
            assert(game::wall_is_legal(p, t, s));
            law_nonholder_verdict_is_true(race::after_wall(p, t, s), x);
        }
        lemma_no_way_out(p);
    }
}

/// No verdict names both sides.
pub proof fn law_verdicts_do_not_contradict(p: game::Position, x: int, y: int)
    requires
        running(p),
        wins_the_game(p, x),
        wins_the_game(p, y),
        x == 0 || x == 1,
        y == 0 || y == 1,
    ensures
        x == y,
{
    let n = choose|n: nat| #[trigger] wins_within(p, x, n);
    let k = choose|k: nat| #[trigger] wins_within(p, y, k);
    if x != y {
        if x == p.turn {
            lemma_one_winner(p, n, k);
        } else {
            lemma_one_winner(p, k, n);
        }
    }
}

/// The side to move does not both win and lose.
proof fn lemma_one_winner(p: game::Position, n: nat, k: nat)
    ensures
        !(race_theorems::game_decided(p, true, n) && race_theorems::game_decided(p, false, k)),
    decreases n + k,
{
    if race_theorems::game_decided(p, true, n) && race_theorems::game_decided(p, false, k) {
        let ms = game::pawn_moves(p);
        let a = (n - 1) as nat;
        if exists|j: int|
            0 <= j < ms.len() && (board::is_goal(p.turn, #[trigger] ms[j] as int)
                || race_theorems::game_decided(game::played(p, ms[j] as int), false, a)) {
            let j = choose|j: int|
                0 <= j < ms.len() && (board::is_goal(p.turn, #[trigger] ms[j] as int)
                    || race_theorems::game_decided(game::played(p, ms[j] as int), false, a));
            lemma_one_winner(game::played(p, ms[j] as int), (k - 1) as nat, a);
        } else {
            let (t, s) = choose|t: int, s: int| #[trigger]
                race_theorems::wall_playable(p, t, s) && race_theorems::game_decided(
                    race::after_wall(p, t, s),
                    false,
                    a,
                );
            lemma_one_winner(race::after_wall(p, t, s), (k - 1) as nat, a);
        }
    }
}

/// A decided race has its winner: the side to move where its value is above zero, the other
/// where it is below.
pub proof fn law_decided_races_have_a_winner(p: game::Position, v: int)
    requires
        running(p),
        race_table::race_value_is(p.w, race_cache::state_of(p), v),
    ensures
        v > 0 ==> race::pure_winner_is(p, p.turn) && !race::pure_winner_is(p, 1 - p.turn),
        v < 0 ==> race::pure_winner_is(p, 1 - p.turn) && !race::pure_winner_is(p, p.turn),
        v == 0 ==> !race::pure_winner_is(p, p.turn) && !race::pure_winner_is(p, 1 - p.turn),
{
    let i = race_cache::state_of(p);
    race_table::lemma_state_index(p.p0, p.p1, p.turn);
    assert(race_table::value_is(p.w, i, v));
    assert forall|u: int| #[trigger] race_table::value_is(p.w, i, u) implies u == v by {
        race_table::law_race_value_is_unique(p.w, i, u, v);
    }
}

/// With the last wall in its hand the side to move has a verdict wherever the pure race or one
/// of its walls wins; and, with its opponent at the door, wherever neither does.
pub proof fn law_holder_verdicts_are_given(p: game::Position, t: int, s: int)
    requires
        running(p),
        p.wl0 + p.wl1 == 1,
        p.turn == 0 ==> p.wl0 == 1,
        p.turn == 1 ==> p.wl1 == 1,
        race::separated(p),
        0 <= t < 2,
        0 <= s < 64,
        game::wall_is_legal(p, t, s),
    ensures
        race::pure_winner_is(p, p.turn) ==> race::holder_verdict(p, p.turn),
        race::opponent_at_door(p) && race::pure_winner_is(race::after_wall(p, t, s), p.turn)
            ==> race::holder_verdict(p, p.turn),
        race::opponent_at_door(p) && race::pure_winner_is(p, 1 - p.turn) && (forall|a: int, b: int|
            0 <= a < 2 && 0 <= b < 64 && #[trigger] game::wall_is_legal(p, a, b)
                ==> race::pure_winner_is(race::after_wall(p, a, b), 1 - p.turn))
            ==> race::holder_verdict(p, 1 - p.turn),
{
}

/// Pawns are far apart with more than two rows or columns between them, and only then.
pub proof fn law_far_apart(p: game::Position)
    ensures
        race::separated(p) <==> p.p0 / 9 > p.p1 / 9 + 2 || p.p1 / 9 > p.p0 / 9 + 2 || p.p0 % 9 > p.p1
            % 9 + 2 || p.p1 % 9 > p.p0 % 9 + 2,
{
}

} // verus!

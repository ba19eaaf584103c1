//! Why race bounds hold in the real game: a side without walls cannot disturb a race,
//! and the side with walls need not place them.

use crate::board;
use crate::game;
use crate::race;
use crate::race_cache;
use crate::race_table;
use crate::score;
use vstd::prelude::*;

verus! {

/// The wall of type `t` at slot `s` may be played.
pub open spec fn wall_playable(p: game::Position, t: int, s: int) -> bool {
    0 <= t < 2 && 0 <= s < 64 && game::hand_of(p, p.turn) > 0 && game::wall_is_legal(p, t, s)
}

/// In the full game, walls and all, the side to move forces its arrival (`win`), or
/// cannot avoid the other's (`!win`), within `n` plies.
pub open spec fn game_decided(p: game::Position, win: bool, n: nat) -> bool
    decreases n,
{
    let ms = game::pawn_moves(p);
    n > 0 && if win {
        (exists|k: int|
            0 <= k < ms.len() && (board::is_goal(p.turn, #[trigger] ms[k] as int) || game_decided(
                game::played(p, ms[k] as int),
                false,
                (n - 1) as nat,
            ))) || (exists|t: int, s: int|
            #[trigger] wall_playable(p, t, s) && game_decided(
                race::after_wall(p, t, s),
                false,
                (n - 1) as nat,
            ))
    } else {
        &&& ms.len() > 0
        &&& forall|k: int|
            0 <= k < ms.len() ==> !board::is_goal(p.turn, #[trigger] ms[k] as int) && game_decided(
                game::played(p, ms[k] as int),
                true,
                (n - 1) as nat,
            )
        &&& forall|t: int, s: int| #[trigger]
            wall_playable(p, t, s) ==> game_decided(
                race::after_wall(p, t, s),
                true,
                (n - 1) as nat,
            )
    }
}

/// Moves and successors of a position agree with those of its race state.
proof fn lemma_race_state(p: game::Position, m: int)
    requires
        0 <= p.p0 < 81,
        0 <= p.p1 < 81,
        p.turn == 0 || p.turn == 1,
        0 <= m < 81,
    ensures
        race_table::race_moves(p.w, race_cache::state_of(p)) == game::pawn_moves(p),
        race_table::turn_at(race_cache::state_of(p)) == p.turn,
        race_cache::state_of(game::played(p, m)) == race_table::child_index(
            race_cache::state_of(p),
            m,
        ),
        game::played(p, m).w == p.w,
{
    race_table::lemma_state_index(p.p0, p.p1, p.turn);
}

/// Refuse-to-place theorem. If the opponent has no walls and the side to move wins the
/// pure race, it wins the game at least as fast. If the side to move has no walls and
/// loses the pure race, it loses the game at least as fast.
pub proof fn law_refuse_to_place(p: game::Position, win: bool, n: nat)
    requires
        0 <= p.p0 < 81,
        0 <= p.p1 < 81,
        p.turn == 0 || p.turn == 1,
        game::hand_of(
            p,
            if win {
                1 - p.turn
            } else {
                p.turn
            },
        ) == 0,
        race_table::decided_within(p.w, race_cache::state_of(p), win, n),
    ensures
        game_decided(p, win, n),
    decreases n,
{
    let i = race_cache::state_of(p);
    let ms = game::pawn_moves(p);
    lemma_race_state(p, 0);
    if win {
        let k = choose|k: int|
            0 <= k < ms.len() && (board::is_goal(p.turn, #[trigger] ms[k] as int)
                || race_table::decided_within(
                p.w,
                race_table::child_index(i, ms[k] as int),
                false,
                (n - 1) as nat,
            ));
        let m = ms[k] as int;
        if !board::is_goal(p.turn, m) {
            race_table::lemma_state_index(p.p0, p.p1, p.turn);
            race_table::lemma_race_moves_on_board(p.w, i, k);
            lemma_race_state(p, m);
            law_refuse_to_place(game::played(p, m), false, (n - 1) as nat);
        }
        assert(board::is_goal(p.turn, ms[k] as int) || game_decided(
            game::played(p, ms[k] as int),
            false,
            (n - 1) as nat,
        ));
    } else {
        assert forall|k: int| 0 <= k < ms.len() implies !board::is_goal(
            p.turn,
            #[trigger] ms[k] as int,
        ) && game_decided(game::played(p, ms[k] as int), true, (n - 1) as nat) by {
            let m = ms[k] as int;
            race_table::lemma_state_index(p.p0, p.p1, p.turn);
            race_table::lemma_race_moves_on_board(p.w, i, k);
            lemma_race_state(p, m);
            law_refuse_to_place(game::played(p, m), true, (n - 1) as nat);
        }
    }
}

/// The bound given when one side is out of walls is true of the real game: a lower bound
/// is a forced win, an upper bound a forced loss, within the plies the score encodes.
pub proof fn law_broke_bound_is_sound(p: game::Position, s: i32)
    requires
        game::position_ok(p),
        race_cache::race_score_is(p, Some(s)),
    ensures
        race::broke_bound(p, Some(s)) == race::RaceBound::Lower(s) ==> game_decided(
            p,
            true,
            (score::RACE_MATE - s) as nat,
        ),
        race::broke_bound(p, Some(s)) == race::RaceBound::Upper(s) ==> game_decided(
            p,
            false,
            (score::RACE_MATE + s) as nat,
        ),
{
    let i = race_cache::state_of(p);
    let v = choose|v: int|
        -13_122 <= v <= 13_122 && #[trigger] race_table::value_is(p.w, i, v)
            && race_cache::score_of_value(v) == Some(s);
    race_table::lemma_state_index(p.p0, p.p1, p.turn);
    assert(race_table::live(i));
    match race::broke_bound(p, Some(s)) {
        race::RaceBound::Lower(x) => {
            assert(v > 0);
            law_refuse_to_place(p, true, v as nat);
        },
        race::RaceBound::Upper(x) => {
            assert(v < 0);
            law_refuse_to_place(p, false, (-v) as nat);
        },
        _ => {},
    }
}

/// With both hands empty the game is the race: the race outcome is the game outcome.
pub proof fn law_empty_hands_are_a_race(p: game::Position, win: bool, n: nat)
    requires
        0 <= p.p0 < 81,
        0 <= p.p1 < 81,
        p.turn == 0 || p.turn == 1,
        p.wl0 == 0,
        p.wl1 == 0,
    ensures
        game_decided(p, win, n) == race_table::decided_within(
            p.w,
            race_cache::state_of(p),
            win,
            n,
        ),
    decreases n,
{
    let i = race_cache::state_of(p);
    let ms = game::pawn_moves(p);
    lemma_race_state(p, 0);
    if n > 0 {
        assert forall|k: int| 0 <= k < ms.len() implies game_decided(
            game::played(p, #[trigger] ms[k] as int),
            !win,
            (n - 1) as nat,
        ) == race_table::decided_within(
            p.w,
            race_table::child_index(i, ms[k] as int),
            !win,
            (n - 1) as nat,
        ) by {
            let m = ms[k] as int;
            race_table::lemma_state_index(p.p0, p.p1, p.turn);
            race_table::lemma_race_moves_on_board(p.w, i, k);
            lemma_race_state(p, m);
            law_empty_hands_are_a_race(game::played(p, m), !win, (n - 1) as nat);
        }
    }
}

} // verus!

//! What the clock's arithmetic promises: plans that shrink as the game goes on, budgets that
//! fit what is left, and shares that grow with trouble and shrink with quiet.

use crate::laws_rules;
use crate::time_alloc;
use crate::time_alloc::LengthBound;
use crate::timing;
use vstd::prelude::*;

verus! {

/// Nothing is known of the length.
pub open spec fn any_length() -> LengthBound {
    LengthBound { min_plies: None, max_plies: None }
}

/// Without distances and without a bound the plan and the own moves already played make up an
/// average game of thirty, so two plies later there is one move less to plan for, until one is
/// left; the plan never grows with the game.
pub proof fn law_plan_shrinks_move_by_move(ply: int)
    requires
        0 <= ply,
    ensures
        ply < 60 ==> time_alloc::planned_moves(ply, None, None, any_length()) + ply / 2 == 30,
        ply >= 58 ==> time_alloc::planned_moves(ply, None, None, any_length()) == 1,
        time_alloc::planned_moves(ply, None, None, any_length()) > 1 ==> time_alloc::planned_moves(
            ply + 2,
            None,
            None,
            any_length(),
        ) == time_alloc::planned_moves(ply, None, None, any_length()) - 1,
{
}

/// Without a known end the plan is no longer than its reasons: it is what is left of an average
/// game, one move, the distance of the nearer side, or the least own moves, and no less than
/// any of them.
pub proof fn law_plan_has_a_reason(ply: int, d0: Option<u32>, d1: Option<u32>, lo: Option<u32>)
    requires
        0 <= ply,
    ensures
        ({
            let b = LengthBound { min_plies: lo, max_plies: None };
            let n = time_alloc::planned_moves(ply, d0, d1, b);
            &&& n >= 1
            &&& n >= 30 - ply / 2
            &&& lo matches Some(p) ==> 2 * n >= p
            &&& (d0 matches Some(x) && 0 < x < u32::MAX) && (d1 matches Some(y) && 0 < y < u32::MAX)
                ==> n >= d0->0 || n >= d1->0
            &&& (d0 matches Some(x) && 0 < x < u32::MAX) && d1 is None ==> n >= d0->0
            &&& (d1 matches Some(y) && 0 < y < u32::MAX) && d0 is None ==> n >= d1->0
            &&& n == 1 || n == 30 - ply / 2 || (d0 matches Some(x) && n == x) || (d1 matches Some(y)
                && n == y) || (lo matches Some(p) && (2 * n == p || 2 * n == p + 1))
        }),
{
}

/// A known end shortens the plan: no more own moves than the plies left allow, unless the least
/// length says so, and never none.
pub proof fn law_known_end_shortens_the_plan(
    ply: int,
    d0: Option<u32>,
    d1: Option<u32>,
    lo: Option<u32>,
    hi: u32,
)
    requires
        0 <= ply,
    ensures
        ({
            let n = time_alloc::planned_moves(
                ply,
                d0,
                d1,
                LengthBound { min_plies: lo, max_plies: Some(hi) },
            );
            let open = time_alloc::planned_moves(
                ply,
                d0,
                d1,
                LengthBound { min_plies: lo, max_plies: None },
            );
            &&& 1 <= n <= open
            &&& lo is None ==> n == 1 || 2 * n <= hi + 1
            &&& lo matches Some(p) ==> 2 * n >= p && (n == 1 || 2 * n <= hi + 1 || 2 * n <= p + 1)
            &&& 2 * open <= hi ==> n == open
        }),
{
}

/// Of so many plies the side to move makes every other one, beginning with the first.
pub proof fn law_own_moves_are_every_other_ply(plies: int)
    requires
        0 <= plies,
    ensures
        plies <= 2 * time_alloc::own_moves(plies) <= plies + 1,
        time_alloc::own_moves(plies + 2) == time_alloc::own_moves(plies) + 1,
{
}

/// Rows to go: none on the player's last row, one less for each row nearer, and what one player
/// has behind it the other has before it.
pub proof fn law_rows_to_go(player: int, pawn: int)
    requires
        player == 0 || player == 1,
        0 <= pawn < 81,
    ensures
        time_alloc::rows_left(player, pawn) == 0 <==> laws_rules::on_last_row(player, pawn),
        0 <= time_alloc::rows_left(player, pawn) <= 8,
        time_alloc::rows_left(0, pawn) + time_alloc::rows_left(1, pawn) == 8,
        pawn >= 9 ==> time_alloc::rows_left(0, pawn - 9) == time_alloc::rows_left(0, pawn) - 1,
        pawn < 72 ==> time_alloc::rows_left(1, pawn + 9) == time_alloc::rows_left(1, pawn) - 1,
{
}

/// A turn takes two rows at most, so half the rows, rounded up, are turns enough to hope for.
/// The side to move arrives on odd plies, the other on even ones.
pub proof fn law_turns_and_arrivals(rows: int, player: int, turns: int)
    requires
        0 <= rows,
        player == 0 || player == 1,
        0 < turns,
    ensures
        rows <= 2 * time_alloc::turns_for(rows) <= rows + 1,
        time_alloc::arrival_ply(player, player, turns) % 2 == 1,
        time_alloc::arrival_ply(player, 1 - player, turns) % 2 == 0,
        time_alloc::arrival_ply(player, 1 - player, turns) == time_alloc::arrival_ply(
            player,
            player,
            turns,
        ) + 1,
        time_alloc::arrival_ply(player, player, turns + 1) == time_alloc::arrival_ply(
            player,
            player,
            turns,
        ) + 2,
        time_alloc::arrival_ply(player, player, 1) == 1,
        time_alloc::arrival_ply(player, player, 0) == 0,
{
}

/// What is never spent: all of a tenth of a second, a tenth of a second up to twenty seconds,
/// and half a percent beyond; more time never keeps back less.
pub proof fn law_safety(remaining: int, more: int)
    requires
        0 <= remaining <= more,
    ensures
        0 <= time_alloc::safety(remaining) <= remaining,
        remaining <= 100 ==> time_alloc::safety(remaining) == remaining,
        remaining >= 100 ==> time_alloc::safety(remaining) >= 100,
        100 <= remaining <= 20_000 ==> time_alloc::safety(remaining) == 100,
        remaining >= 20_000 ==> 200 * time_alloc::safety(remaining) <= remaining < 200 * (
        time_alloc::safety(remaining) + 1),
        time_alloc::safety(remaining) <= time_alloc::safety(more),
        remaining - time_alloc::safety(remaining) <= more - time_alloc::safety(more),
{
}

/// With more time on the clock a move may take no smaller factor of its share and no smaller
/// part of the clock; never more than a fifth, and a tenth when time is short.
pub proof fn law_spending(remaining: int, more: int)
    requires
        0 <= remaining <= more,
    ensures
        time_alloc::policy(remaining).0 <= time_alloc::policy(more).0,
        time_alloc::policy(remaining).1 <= time_alloc::policy(more).1,
        10 <= time_alloc::policy(remaining).1 <= 20,
        remaining >= 45_000 ==> time_alloc::policy(remaining).0 > 100,
        15_000 <= remaining < 45_000 ==> time_alloc::policy(remaining).0 == 100,
        remaining < 15_000 ==> time_alloc::policy(remaining).0 < 100 && time_alloc::policy(
            remaining,
        ).1 == 10,
        remaining >= 15_000 ==> time_alloc::policy(remaining).1 == 20,
        time_alloc::policy(remaining).0 >= 75,
{
}

/// The length of a long game falls by no more than half a move per ply, never rises, begins
/// above the plan of an average one and ends with five moves.
pub proof fn law_long_game_falls_steadily(ply: int)
    requires
        0 <= ply,
    ensures
        0 <= time_alloc::long_game(ply) - time_alloc::long_game(ply + 1) <= 50,
        500 <= time_alloc::long_game(ply) <= 3850,
        ply >= 80 ==> time_alloc::long_game(ply) == 500,
        ply < 80 ==> time_alloc::long_game(ply) > time_alloc::long_game(ply + 1),
        ply < 60 ==> time_alloc::long_game(ply) > 100 * (30 - ply / 2) - 150,
{
}

/// What can be planned: what may be spent without a tenth of a second for each of the last
/// five moves, and at least the least move time. More moves to go never leave more.
pub proof fn law_plannable(spendable: int, moves: int)
    requires
        0 <= spendable,
        0 <= moves,
    ensures
        time_alloc::plannable(spendable, moves) >= 50,
        spendable >= 550 ==> spendable - time_alloc::plannable(spendable, moves) <= 500,
        spendable >= 550 && moves >= 5 ==> spendable - time_alloc::plannable(spendable, moves) == 500,
        spendable >= 550 && moves <= 5 ==> spendable - time_alloc::plannable(spendable, moves) == 100
            * moves,
        time_alloc::plannable(spendable, moves + 1) <= time_alloc::plannable(spendable, moves),
        time_alloc::plannable(spendable, moves) <= time_alloc::plannable(spendable + 1, moves),
        time_alloc::plannable(spendable, moves) <= spendable || time_alloc::plannable(
            spendable,
            moves,
        ) == 50,
{
}

/// A fitted budget is the wish where the clock has room for it and for what is kept; the hard
/// limit is a quarter above the soft one or the whole clock; a larger wish is never given less.
pub proof fn law_fitting(wish: int, more: int, ply: int, spendable: int)
    requires
        0 <= wish <= more,
        0 <= ply,
        0 < spendable,
    ensures
        ({
            let (soft, hard) = time_alloc::fitted(wish, ply, spendable);
            &&& 1 <= soft <= hard <= spendable
            &&& soft <= wish || soft <= 50
            &&& 4 * hard <= 5 * soft + 2
            &&& hard == spendable || 4 * hard + 2 > 5 * soft
            &&& 50 <= wish && wish + time_alloc::leftover(ply) <= spendable ==> soft == wish
            &&& spendable >= 50 ==> soft >= 50
            &&& soft <= time_alloc::fitted(more, ply, spendable).0
            &&& soft + time_alloc::leftover(ply) <= spendable || soft <= 50
        }),
        40 <= time_alloc::leftover(ply) <= 500,
        time_alloc::leftover(ply + 1) <= time_alloc::leftover(ply),
{
}

/// The tighter of two bounds: what the merged one requires, one of them required; what one
/// requires, the merged one does.
pub proof fn law_merged_bounds(a: LengthBound, b: LengthBound)
    ensures
        ({
            let m = time_alloc::merged(a, b);
            &&& a.min_plies matches Some(x) ==> m.min_plies matches Some(z) && z >= x
            &&& b.min_plies matches Some(x) ==> m.min_plies matches Some(z) && z >= x
            &&& m.min_plies is Some ==> m.min_plies == a.min_plies || m.min_plies == b.min_plies
            &&& m.max_plies is Some ==> m.max_plies == a.max_plies || m.max_plies == b.max_plies
            &&& m.max_plies matches Some(z) ==> (a.max_plies matches Some(x) ==> z <= x) && (
            b.max_plies matches Some(x) ==> z <= x)
            &&& m.min_plies is None ==> a.min_plies is None && b.min_plies is None
            &&& m.max_plies is None && m.min_plies is None ==> a.max_plies is None && b.max_plies is None
        }),
{
}

/// The soft share: never under 55 nor over 100 hundredths; more after a fall of the score, with
/// more changes of the best move, and in a bad position; less where nothing moves.
pub proof fn law_soft_share(last: int, changes: int, delta: int, stable: int)
    requires
        0 <= changes,
        0 <= stable,
    ensures
        55 <= timing::soft_share(last, changes, delta, stable) <= 100,
        last < -80 ==> timing::soft_share(last, changes, delta, stable) >= timing::soft_share(
            0,
            changes,
            delta,
            stable,
        ),
        last >= -80 ==> timing::soft_share(last, changes, delta, stable) == timing::soft_share(
            0,
            changes,
            delta,
            stable,
        ),
        timing::soft_share(last, changes + 1, delta, stable) >= timing::soft_share(
            last,
            changes,
            delta,
            stable,
        ),
        timing::soft_share(last, changes, -40, stable) >= timing::soft_share(
            last,
            changes,
            delta,
            stable,
        ),
        timing::soft_share(last, 0, 0, stable + 1) <= timing::soft_share(last, 0, 0, stable),
        timing::soft_share(0, 0, 0, 3) < timing::soft_share(0, 0, 0, 2) < timing::soft_share(
            0,
            0,
            0,
            0,
        ) < timing::soft_share(0, 1, 0, stable) < timing::soft_share(0, 1, -40, stable),
        timing::soft_share(-81, 0, 0, stable) > timing::soft_share(-80, 0, 0, stable),
        // A settled search saves time while its score moves little: less than thirty after three
        // quiet iterations, less than twenty after two.
        -30 < delta < 30 ==> timing::soft_share(0, 0, delta, 3) == timing::soft_share(0, 1, delta, 0)
            - 15,
        30 <= delta < 80 || -40 < delta <= -30 ==> timing::soft_share(0, 0, delta, 3)
            == timing::soft_share(0, 1, delta, 0) - 5,
        -20 < delta < 20 ==> timing::soft_share(0, 0, delta, 2) == timing::soft_share(0, 1, delta, 0)
            - 10,
        20 <= delta < 80 || -40 < delta <= -20 ==> timing::soft_share(0, 0, delta, 2)
            == timing::soft_share(0, 1, delta, 0) - 5,
        delta <= -40 ==> timing::soft_share(0, 1, delta, 0) == 98,
        delta >= 80 ==> timing::soft_share(0, 1, delta, 0) == 93,
        -40 < delta < 80 ==> timing::soft_share(0, 1, delta, 0) == 90,
{
}

/// The soft budget is the share of the hard one to the nearest millisecond, and grows with
/// both.
pub proof fn law_soft_budget(time_ms: int, share: int)
    requires
        0 <= time_ms,
        0 <= share <= 100,
    ensures
        ({
            let s = timing::soft_budget(time_ms, share);
            &&& time_ms * share - 50 <= 100 * s <= time_ms * share + 50
            &&& 0 <= s <= time_ms
        }),
{
    assert(time_ms * share <= time_ms * 100) by (nonlinear_arith)
        requires
            0 <= time_ms,
            0 <= share <= 100,
    ;
    assert(0 <= time_ms * share) by (nonlinear_arith)
        requires
            0 <= time_ms,
            0 <= share,
    ;
}

/// The next depth is expected to take as long as the longer of the last two, and twenty
/// milliseconds at least: later moments and smaller budgets are over as well, and nothing is
/// expected before a depth is done.
pub proof fn law_prediction(
    elapsed: int,
    later: int,
    budget: int,
    smaller: int,
    log: Seq<timing::AceDepthLogEntry>,
)
    requires
        elapsed <= later,
        smaller <= budget,
    ensures
        timing::predicted_over(elapsed, budget, log) ==> timing::predicted_over(later, smaller, log),
        log.len() == 0 ==> !timing::predicted_over(elapsed, budget, log),
        log.len() > 0 && elapsed + 20 > budget ==> timing::predicted_over(elapsed, budget, log),
        log.len() == 1 && elapsed + log[0].elapsed_ms > budget ==> timing::predicted_over(
            elapsed,
            budget,
            log,
        ),
        log.len() >= 2 && elapsed + (log.last().elapsed_ms - log[log.len() - 2].elapsed_ms) > budget
            ==> timing::predicted_over(elapsed, budget, log),
        log.len() >= 3 && elapsed + (log[log.len() - 2].elapsed_ms - log[log.len() - 3].elapsed_ms)
            > budget ==> timing::predicted_over(elapsed, budget, log),
        log.len() == 2 && elapsed + log[0].elapsed_ms > budget ==> timing::predicted_over(
            elapsed,
            budget,
            log,
        ),
        log.len() == 1 && elapsed + log[0].elapsed_ms <= budget && elapsed + 20 <= budget
            ==> !timing::predicted_over(elapsed, budget, log),
{
}

/// What is held back for the last wall: no more than three tenths of the time, and within that
/// at least a fortieth of a second, fifteen percent, and the time a table takes.
pub proof fn law_held_back(time_ms: int, build_ms: int)
    requires
        0 <= time_ms,
        0 <= build_ms,
    ensures
        ({
            let r = timing::gate_reserve(time_ms, build_ms);
            &&& 0 <= r
            &&& 10 * r <= 3 * time_ms
            &&& 10 * (r + 1) > 3 * time_ms || (r >= 25 && r >= build_ms && 100 * (r + 1) > 15 * time_ms)
            &&& r <= build_ms || r <= 25 || 100 * r <= 15 * time_ms
            &&& r <= timing::gate_reserve(time_ms, build_ms + 1)
        }),
{
}

} // verus!

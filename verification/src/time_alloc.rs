//! Move budgets from the remaining game clock: how long the game may still last, what is
//! kept back, and how far a budget may stretch.

use crate::num;
use vstd::prelude::*;

verus! {

/// Least time of a move.
pub const MIN_MOVE_MS: u64 = 50;

/// Own moves of an average game.
pub const PLAN_OWN_MOVES: u64 = 30;

/// Moves at the end of a game that are answered at once, and what each is given.
pub const TAIL_MOVES: u64 = 5;

pub const TAIL_MS_PER_MOVE: u64 = 100;

/// How long the game lasts: at least and at most so many plies, as far as known.
#[derive(Clone, Copy, Debug, PartialEq, Eq, Structural)]
pub struct LengthBound {
    pub min_plies: Option<u32>,
    pub max_plies: Option<u32>,
}

/// The number of plies is possible under the bound.
pub open spec fn allows(b: LengthBound, plies: int) -> bool {
    &&& b.min_plies matches Some(lo) ==> lo <= plies
    &&& b.max_plies matches Some(hi) ==> plies <= hi
}

/// The tighter of two least numbers.
pub open spec fn tighter_min(a: Option<u32>, b: Option<u32>) -> Option<u32> {
    match (a, b) {
        (Some(x), Some(y)) => Some(
            if x < y {
                y
            } else {
                x
            },
        ),
        (Some(x), None) => Some(x),
        (None, y) => y,
    }
}

/// The tighter of two greatest numbers.
pub open spec fn tighter_max(a: Option<u32>, b: Option<u32>) -> Option<u32> {
    match (a, b) {
        (Some(x), Some(y)) => Some(
            if y < x {
                y
            } else {
                x
            },
        ),
        (Some(x), None) => Some(x),
        (None, y) => y,
    }
}

/// Both bounds together. A greatest number below the least is dropped.
pub open spec fn merged(a: LengthBound, b: LengthBound) -> LengthBound {
    let lo = tighter_min(a.min_plies, b.min_plies);
    let hi = tighter_max(a.max_plies, b.max_plies);
    LengthBound {
        min_plies: lo,
        max_plies: match (lo, hi) {
            (Some(x), Some(y)) => if x > y {
                None
            } else {
                hi
            },
            _ => hi,
        },
    }
}

/// Rows left to a player's goal row.
pub open spec fn rows_left(player: int, pawn: int) -> int {
    if player == 0 {
        pawn / 9
    } else {
        8 - pawn / 9
    }
}

/// Own turns for so many rows, two at most per turn.
pub open spec fn turns_for(rows: int) -> int {
    (rows + 1) / 2
}

/// First ply at which a player with so many turns left can arrive.
pub open spec fn arrival_ply(player: int, stm: int, turns: int) -> int {
    if turns == 0 {
        0
    } else if player == stm {
        2 * turns - 1
    } else {
        2 * turns
    }
}

/// First ply at which the game can end.
pub open spec fn earliest_end(stm: int, p0: int, p1: int) -> int {
    num::smaller(
        arrival_ply(0, stm, turns_for(rows_left(0, p0))),
        arrival_ply(1, stm, turns_for(rows_left(1, p1))),
    )
}

/// Own moves of the side to move within so many plies.
pub open spec fn own_moves(plies: int) -> int {
    (plies + 1) / 2
}

/// Rows a player still needs.
pub fn rows_to_goal(player: usize, pawn: usize) -> (rows: u32)
    requires
        pawn < 81,
    ensures
        rows == rows_left(player as int, pawn as int),
        rows <= 8,
{
    if player == 0 {
        (pawn / 9) as u32
    } else {
        (8 - pawn / 9) as u32
    }
}

/// Own turns for so many rows.
pub fn own_turns_lb(rows: u32) -> (turns: u32)
    requires
        rows < u32::MAX,
    ensures
        turns == turns_for(rows as int),
{
    (rows + 1) / 2
}

/// First ply at which the game can end, with every wall helping.
pub fn geometric_terminal_ply_lb(stm: usize, pawn: [usize; 2]) -> (ply: u32)
    requires
        pawn[0] < 81,
        pawn[1] < 81,
    ensures
        ply == earliest_end(stm as int, pawn[0] as int, pawn[1] as int),
        ply <= 8,
{
    let t0: u32 = own_turns_lb(rows_to_goal(0, pawn[0]));
    let t1: u32 = own_turns_lb(rows_to_goal(1, pawn[1]));
    let a: u32 = if t0 == 0 {
        0
    } else if stm == 0 {
        2 * t0 - 1
    } else {
        2 * t0
    };
    let b: u32 = if t1 == 0 {
        0
    } else if stm == 1 {
        2 * t1 - 1
    } else {
        2 * t1
    };
    a.min(b)
}

/// Own moves within so many plies.
pub fn own_moves_lb_from_plies(plies: u32) -> (n: u32)
    requires
        plies < u32::MAX,
    ensures
        n == own_moves(plies as int),
{
    if plies == 0 {
        0
    } else {
        (plies + 1) / 2
    }
}

/// A usable distance: known, positive and finite.
pub open spec fn usable(d: Option<u32>) -> bool {
    d matches Some(x) && 0 < x < u32::MAX
}

/// The smaller usable distance to win; zero when there is none.
pub open spec fn race_floor(d0: Option<u32>, d1: Option<u32>) -> int {
    if usable(d0) && usable(d1) {
        num::smaller(d0->0 as int, d1->0 as int)
    } else if usable(d0) {
        d0->0 as int
    } else if usable(d1) {
        d1->0 as int
    } else {
        0
    }
}

/// Least number of own moves by the race: the smaller distance to win.
pub fn eval_race_own_moves_lb(dist0: Option<u32>, dist1: Option<u32>) -> (n: u32)
    ensures
        n == race_floor(dist0, dist1),
{
    let d0: u32 = match dist0 {
        Some(d) => if d > 0 {
            d
        } else {
            u32::MAX
        },
        None => u32::MAX,
    };
    let d1: u32 = match dist1 {
        Some(d) => if d > 0 {
            d
        } else {
            u32::MAX
        },
        None => u32::MAX,
    };
    let m: u32 = d0.min(d1);
    if m == u32::MAX {
        0
    } else {
        m
    }
}

impl LengthBound {
    /// From the board alone: no end before the earliest.
    pub fn optimistic_board(stm: usize, pawn: [usize; 2]) -> (b: Self)
        requires
            pawn[0] < 81,
            pawn[1] < 81,
        ensures
            b.min_plies == Some(earliest_end(stm as int, pawn[0] as int, pawn[1] as int) as u32),
            b.max_plies is None,
    {
        LengthBound { min_plies: Some(geometric_terminal_ply_lb(stm, pawn)), max_plies: None }
    }

    /// Ends in exactly so many plies.
    pub fn exact(plies: u32) -> (b: Self)
        ensures
            b == (LengthBound { min_plies: Some(plies), max_plies: Some(plies) }),
    {
        LengthBound { min_plies: Some(plies), max_plies: Some(plies) }
    }

    /// Lasts at least so many plies.
    pub fn with_min(plies: u32) -> (b: Self)
        ensures
            b == (LengthBound { min_plies: Some(plies), max_plies: None }),
    {
        LengthBound { min_plies: Some(plies), max_plies: None }
    }

    /// Both bounds together. A greatest number below the least is dropped.
    pub fn merge(self, other: Self) -> (b: Self)
        ensures
            b == merged(self, other),
    {
        let lo: Option<u32> = match (self.min_plies, other.min_plies) {
            (Some(x), Some(y)) => Some(x.max(y)),
            (Some(x), None) => Some(x),
            (None, y) => y,
        };
        let hi: Option<u32> = match (self.max_plies, other.max_plies) {
            (Some(x), Some(y)) => Some(x.min(y)),
            (Some(x), None) => Some(x),
            (None, y) => y,
        };
        let max_plies: Option<u32> = match (lo, hi) {
            (Some(x), Some(y)) => if x > y {
                None
            } else {
                hi
            },
            _ => hi,
        };
        LengthBound { min_plies: lo, max_plies }
    }

    /// Own moves there will be at least.
    pub fn min_own_moves(&self) -> (n: u32)
        requires
            self.min_plies matches Some(p) ==> p < u32::MAX,
        ensures
            n == match self.min_plies {
                Some(p) => own_moves(p as int),
                None => 0,
            },
    {
        match self.min_plies {
            Some(p) => own_moves_lb_from_plies(p),
            None => 0,
        }
    }

    /// Own moves there will be at most, one at least.
    pub fn max_own_moves(&self) -> (n: Option<u32>)
        requires
            self.max_plies matches Some(p) ==> p < u32::MAX,
        ensures
            match self.max_plies {
                Some(p) => n == Some(num::larger(own_moves(p as int), 1) as u32),
                None => n is None,
            },
    {
        match self.max_plies {
            Some(p) => Some(own_moves_lb_from_plies(p).max(1)),
            None => None,
        }
    }
}

impl Default for LengthBound {
    fn default() -> (b: Self)
        ensures
            b.min_plies is None,
            b.max_plies is None,
    {
        LengthBound { min_plies: None, max_plies: None }
    }
}

/// Merging does not care about the order.
pub proof fn law_merge_commutes(a: LengthBound, b: LengthBound)
    ensures
        merged(a, b) == merged(b, a),
{
}

/// Merging twice with the same bound changes nothing.
pub proof fn law_merge_is_idempotent(a: LengthBound)
    requires
        a.min_plies matches Some(lo) ==> (a.max_plies matches Some(hi) ==> lo <= hi),
    ensures
        merged(a, a) == a,
{
}

/// A length that both bounds allow is allowed by the merged one; and as long as they do not
/// contradict each other the merged one allows nothing more.
pub proof fn law_merge_tightens(a: LengthBound, b: LengthBound, plies: int)
    ensures
        allows(a, plies) && allows(b, plies) ==> allows(merged(a, b), plies),
        merged(a, b).max_plies == tighter_max(a.max_plies, b.max_plies) && allows(
            merged(a, b),
            plies,
        ) ==> allows(a, plies) && allows(b, plies),
        merged(a, b).min_plies matches Some(lo) ==> (merged(a, b).max_plies matches Some(hi)
            ==> lo <= hi),
{
}

/// The earliest end is no later than either player's own arrival, and is reached by one of
/// them.
pub proof fn law_earliest_end_is_an_arrival(stm: int, p0: int, p1: int)
    requires
        0 <= p0 < 81,
        0 <= p1 < 81,
    ensures
        ({
            let e = earliest_end(stm, p0, p1);
            let a = arrival_ply(0, stm, turns_for(rows_left(0, p0)));
            let b = arrival_ply(1, stm, turns_for(rows_left(1, p1)));
            e <= a && e <= b && (e == a || e == b) && 0 <= e
        }),
{
}

/// Own moves to plan for: what is left of an average game, raised by the race and by the
/// least length, lowered only by a known end.
pub open spec fn planned_moves(ply: int, d0: Option<u32>, d1: Option<u32>, b: LengthBound) -> int {
    let tail = num::larger(30 - ply / 2, 1);
    let floor = match b.min_plies {
        Some(p) => own_moves(p as int),
        None => 0,
    };
    let wanted = num::larger(num::larger(tail, race_floor(d0, d1)), floor);
    match b.max_plies {
        Some(p) => num::larger(
            num::larger(num::smaller(wanted, num::larger(own_moves(p as int), 1)), floor),
            1,
        ),
        None => wanted,
    }
}

/// Own moves to plan for.
pub fn expected_own_moves(ply: usize, dist0: Option<u32>, dist1: Option<u32>, length: LengthBound) -> (n:
    u64)
    requires
        length.min_plies matches Some(p) ==> p < u32::MAX,
        length.max_plies matches Some(p) ==> p < u32::MAX,
    ensures
        n == planned_moves(ply as int, dist0, dist1, length),
        n >= 1,
{
    let played: usize = ply / 2;
    let tail: u64 = if played >= 29 {
        1
    } else {
        PLAN_OWN_MOVES - played as u64
    };
    let race: u64 = eval_race_own_moves_lb(dist0, dist1) as u64;
    let floor: u64 = length.min_own_moves() as u64;
    let wanted: u64 = tail.max(race).max(floor);
    match length.max_own_moves() {
        Some(most) => wanted.min(most as u64).max(floor).max(1),
        None => wanted,
    }
}

/// The race and the least length may only raise the plan of an average game.
pub proof fn law_plan_is_only_raised_without_an_end(
    ply: int,
    d0: Option<u32>,
    d1: Option<u32>,
    b: LengthBound,
)
    requires
        0 <= ply,
        b.max_plies is None,
    ensures
        planned_moves(ply, d0, d1, b) >= num::larger(30 - ply / 2, 1),
        planned_moves(ply, d0, d1, b) >= race_floor(d0, d1),
{
}

/// Time never spent: half a percent, 100 ms at least, but no more than there is.
pub open spec fn safety(remaining: int) -> int {
    num::smaller(num::larger(remaining / 200, 100), remaining)
}

/// Time never spent.
pub fn safety_ms(remaining_ms: u64) -> (ms: u64)
    ensures
        ms == safety(remaining_ms as int),
        ms <= remaining_ms,
{
    (remaining_ms / 200).max(100).min(remaining_ms)
}

/// Spend factor and largest share of the clock, in hundredths, by clock band.
pub open spec fn policy(remaining: int) -> (int, int) {
    if remaining >= 45_000 {
        (135, 20)
    } else if remaining >= 15_000 {
        (100, 20)
    } else {
        (75, 10)
    }
}

/// Spend factor and largest share of the clock, in hundredths.
pub fn spend_policy(remaining_ms: u64) -> (r: (u64, u64))
    ensures
        (r.0 as int, r.1 as int) == policy(remaining_ms as int),
{
    if remaining_ms >= 45_000 {
        (135, 20)
    } else if remaining_ms >= 15_000 {
        (100, 20)
    } else {
        (75, 10)
    }
}

/// Own moves that nineteen of twenty games do not exceed from this ply on, in hundredths:
/// straight lines between measured points.
pub open spec fn long_game(ply: int) -> int {
    if ply >= 80 {
        500
    } else if ply >= 70 {
        900 - 40 * (ply - 70)
    } else if ply >= 60 {
        1100 - 20 * (ply - 60)
    } else if ply >= 50 {
        1400 - 30 * (ply - 50)
    } else if ply >= 40 {
        1850 - 45 * (ply - 40)
    } else if ply >= 20 {
        2850 - 50 * (ply - 20)
    } else {
        3850 - 50 * ply
    }
}

/// Own moves that nineteen of twenty games do not exceed, in hundredths.
pub fn reserve_own_moves_p95_hundredths(ply: usize) -> (h: u64)
    ensures
        h == long_game(ply as int),
        500 <= h <= 3850,
{
    if ply >= 80 {
        return 500;
    }
    let p: u64 = ply as u64;
    if p >= 70 {
        900 - 40 * (p - 70)
    } else if p >= 60 {
        1100 - 20 * (p - 60)
    } else if p >= 50 {
        1400 - 30 * (p - 50)
    } else if p >= 40 {
        1850 - 45 * (p - 40)
    } else if p >= 20 {
        2850 - 50 * (p - 20)
    } else {
        3850 - 50 * p
    }
}

/// The later in the game, the fewer moves a long game still has.
pub proof fn law_long_games_get_shorter(p: int, q: int)
    requires
        0 <= p <= q,
    ensures
        long_game(q) <= long_game(p),
{
}

/// Time left over for a long game: a quarter of the least move time for each of its moves
/// but this one, to the nearest millisecond.
pub open spec fn leftover(ply: int) -> int {
    (long_game(ply) - 100 + 4) / 8
}

/// Time that can be planned after a token for the moves answered at once.
pub open spec fn plannable(spendable: int, own_moves: int) -> int {
    let tail = num::smaller(own_moves, 5) * 100;
    num::larger(
        if spendable < tail {
            0
        } else {
            spendable - tail
        },
        50,
    )
}

/// Time that can be planned.
pub fn plannable_ms(spendable_ms: u64, own_moves: u64) -> (ms: u64)
    ensures
        ms == plannable(spendable_ms as int, own_moves as int),
{
    let tail: u64 = own_moves.min(TAIL_MOVES) * TAIL_MS_PER_MOVE;
    spendable_ms.saturating_sub(tail).max(MIN_MOVE_MS)
}

/// A wished budget fitted to the clock: soft and hard. The soft one keeps the leftover and
/// the least move time, the hard one is a quarter more, and neither exceeds the clock.
pub open spec fn fitted(wish: int, ply: int, spendable: int) -> (int, int) {
    if spendable == 0 {
        (1, 1)
    } else {
        let least = num::larger(num::smaller(50, spendable), 1);
        let keep = num::smaller(leftover(ply), spendable - num::smaller(50, spendable));
        let soft = num::clamped(
            num::smaller(wish, num::larger(spendable - keep, 1)),
            least,
            spendable,
        );
        (soft, num::clamped((5 * soft + 2) / 4, soft, spendable))
    }
}

/// A wished budget fitted to the clock: soft and hard.
pub fn fit_budget(wish_ms: u64, ply: usize, spendable_ms: u64) -> (r: (u64, u64))
    ensures
        (r.0 as int, r.1 as int) == fitted(wish_ms as int, ply as int, spendable_ms as int),
{
    if spendable_ms == 0 {
        return (1, 1);
    }
    let least: u64 = MIN_MOVE_MS.min(spendable_ms).max(1);
    let leave: u64 = (reserve_own_moves_p95_hundredths(ply) - 100 + 4) / 8;
    let keep: u64 = leave.min(spendable_ms - MIN_MOVE_MS.min(spendable_ms));
    let mut soft: u64 = wish_ms.min((spendable_ms - keep).max(1));
    if soft < least {
        soft = least;
    }
    if soft > spendable_ms {
        soft = spendable_ms;
    }
    let stretched: u128 = (5 * soft as u128 + 2) / 4;
    let hard: u64 = if stretched > spendable_ms as u128 {
        spendable_ms
    } else {
        stretched as u64
    };
    let hard: u64 = hard.max(soft);
    (soft, hard)
}

/// A budget never exceeds what may be spent, and the soft one never the hard one.
pub proof fn law_budget_fits_the_clock(wish: int, ply: int, spendable: int)
    requires
        0 <= wish,
        0 <= ply,
        0 <= spendable,
    ensures
        1 <= fitted(wish, ply, spendable).0 <= fitted(wish, ply, spendable).1,
        fitted(wish, ply, spendable).1 <= num::larger(spendable, 1),
{
}

} // verus!

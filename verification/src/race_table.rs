//! Pure pawn races: the exact outcome of every pawn pair on a fixed wall topology, with
//! both hands empty.
//!
//! A table entry is positive when the side to move wins, negative when it loses, and
//! its size is the number of plies to the arrival; zero means that neither side can
//! force one. The winner hurries and the loser delays.

use crate::board;
use crate::game;
use crate::moves;
use vstd::prelude::*;

verus! {

/// Number of table entries.
pub const STATES: usize = 13_122;

/// Table index of a race state.
pub open spec fn state_index(p0: int, p1: int, turn: int) -> int {
    (p0 * 81 + p1) * 2 + turn
}

/// Player 0's pawn in the state at an index.
pub open spec fn pawn0_at(i: int) -> int {
    i / 162
}

/// Player 1's pawn in the state at an index.
pub open spec fn pawn1_at(i: int) -> int {
    (i / 2) % 81
}

/// Side to move in the state at an index.
pub open spec fn turn_at(i: int) -> int {
    i % 2
}

/// Neither pawn has arrived.
pub open spec fn live(i: int) -> bool {
    0 <= i < 13_122 && pawn0_at(i) >= 9 && pawn1_at(i) < 72
}

/// Pawn moves in the state at an index.
pub open spec fn race_moves(w: board::Topo, i: int) -> Seq<i16> {
    if turn_at(i) == 0 {
        game::targets_upto(w, pawn0_at(i), pawn1_at(i), 4)
    } else {
        game::targets_upto(w, pawn1_at(i), pawn0_at(i), 4)
    }
}

/// The state after pawn move `m`.
pub open spec fn child_index(i: int, m: int) -> int {
    if turn_at(i) == 0 {
        state_index(m, pawn1_at(i), 1)
    } else {
        state_index(pawn0_at(i), m, 0)
    }
}

/// The side to move forces its arrival (`win`), or cannot avoid the other's (`!win`),
/// within `n` plies.
pub open spec fn decided_within(w: board::Topo, i: int, win: bool, n: nat) -> bool
    decreases n,
{
    let ms = race_moves(w, i);
    n > 0 && if win {
        exists|k: int|
            0 <= k < ms.len() && (board::is_goal(turn_at(i), #[trigger] ms[k] as int)
                || decided_within(w, child_index(i, ms[k] as int), false, (n - 1) as nat))
    } else {
        ms.len() > 0 && forall|k: int|
            0 <= k < ms.len() ==> !board::is_goal(turn_at(i), #[trigger] ms[k] as int)
                && decided_within(w, child_index(i, ms[k] as int), true, (n - 1) as nat)
    }
}

/// `v` is the exact race value of a state.
pub open spec fn race_value_is(w: board::Topo, i: int, v: int) -> bool {
    if v > 0 {
        decided_within(w, i, true, v as nat) && !decided_within(w, i, true, (v - 1) as nat)
    } else if v < 0 {
        decided_within(w, i, false, (-v) as nat) && !decided_within(w, i, false, (-v - 1) as nat)
    } else {
        forall|n: nat|
            !(#[trigger] decided_within(w, i, true, n)) && !decided_within(w, i, false, n)
    }
}

/// `v` is the table value of a state: exact while both pawns run, zero once one has
/// arrived.
pub open spec fn value_is(w: board::Topo, i: int, v: int) -> bool {
    if live(i) {
        race_value_is(w, i, v)
    } else {
        v == 0
    }
}

/// A table holds the value of every state, none larger than the number of
/// states.
pub open spec fn solves(w: board::Topo, tbl: Seq<i16>) -> bool {
    tbl.len() == 13_122 && forall|i: int|
        0 <= i < 13_122 ==> value_is(w, i, #[trigger] tbl[i] as int) && -13_122 <= tbl[i]
            <= 13_122
}

/// The parts of a state and its index agree.
pub proof fn lemma_state_index(p0: int, p1: int, turn: int)
    requires
        0 <= p0 < 81,
        0 <= p1 < 81,
        turn == 0 || turn == 1,
    ensures
        0 <= state_index(p0, p1, turn) < 13_122,
        pawn0_at(state_index(p0, p1, turn)) == p0,
        pawn1_at(state_index(p0, p1, turn)) == p1,
        turn_at(state_index(p0, p1, turn)) == turn,
{
}

/// A pawn move that does not arrive leads from a live state to a live state.
pub proof fn lemma_child_is_live(i: int, m: int)
    requires
        live(i),
        0 <= m < 81,
        !board::is_goal(turn_at(i), m),
    ensures
        live(child_index(i, m)),
{
    assert(0 <= pawn0_at(i) < 81 && 0 <= pawn1_at(i) < 81);
    if turn_at(i) == 0 {
        lemma_state_index(m, pawn1_at(i), 1);
    } else {
        lemma_state_index(pawn0_at(i), m, 0);
    }
}

/// Moves of a race state are cells of the board.
pub proof fn lemma_race_moves_on_board(w: board::Topo, i: int, k: int)
    requires
        0 <= i < 13_122,
        0 <= k < race_moves(w, i).len(),
    ensures
        0 <= race_moves(w, i)[k] < 81,
{
    assert(0 <= pawn0_at(i) < 81 && 0 <= pawn1_at(i) < 81);
    if turn_at(i) == 0 {
        game::lemma_targets_on_board(w, pawn0_at(i), pawn1_at(i), 4);
    } else {
        game::lemma_targets_on_board(w, pawn1_at(i), pawn0_at(i), 4);
    }
}

/// What is decided stays decided with more plies.
pub proof fn lemma_decided_grows(w: board::Topo, i: int, win: bool, n: nat, k: nat)
    requires
        decided_within(w, i, win, n),
        n <= k,
    ensures
        decided_within(w, i, win, k),
    decreases n,
{
    let ms = race_moves(w, i);
    if win {
        let j = choose|j: int|
            0 <= j < ms.len() && (board::is_goal(turn_at(i), #[trigger] ms[j] as int)
                || decided_within(w, child_index(i, ms[j] as int), false, (n - 1) as nat));
        if !board::is_goal(turn_at(i), ms[j] as int) {
            lemma_decided_grows(
                w,
                child_index(i, ms[j] as int),
                false,
                (n - 1) as nat,
                (k - 1) as nat,
            );
        }
        assert(0 <= j < ms.len() && (board::is_goal(turn_at(i), ms[j] as int) || decided_within(
            w,
            child_index(i, ms[j] as int),
            false,
            (k - 1) as nat,
        )));
    } else {
        assert forall|j: int| 0 <= j < ms.len() implies !board::is_goal(
            turn_at(i),
            #[trigger] ms[j] as int,
        ) && decided_within(w, child_index(i, ms[j] as int), true, (k - 1) as nat) by {
            lemma_decided_grows(
                w,
                child_index(i, ms[j] as int),
                true,
                (n - 1) as nat,
                (k - 1) as nat,
            );
        }
    }
}

/// No state is both won and lost.
pub proof fn law_race_outcome_is_unique(w: board::Topo, i: int, n: nat, k: nat)
    ensures
        !(decided_within(w, i, true, n) && decided_within(w, i, false, k)),
    decreases n + k,
{
    if decided_within(w, i, true, n) && decided_within(w, i, false, k) {
        let ms = race_moves(w, i);
        let j = choose|j: int|
            0 <= j < ms.len() && (board::is_goal(turn_at(i), #[trigger] ms[j] as int)
                || decided_within(w, child_index(i, ms[j] as int), false, (n - 1) as nat));
        assert(!board::is_goal(turn_at(i), ms[j] as int));
        let c = child_index(i, ms[j] as int);
        assert(decided_within(w, c, true, (k - 1) as nat));
        law_race_outcome_is_unique(w, c, (k - 1) as nat, (n - 1) as nat);
    }
}

/// A race value is unique.
pub proof fn law_race_value_is_unique(w: board::Topo, i: int, a: int, b: int)
    requires
        race_value_is(w, i, a),
        race_value_is(w, i, b),
    ensures
        a == b,
{
    if a > 0 && b > 0 {
        if a < b {
            lemma_decided_grows(w, i, true, a as nat, (b - 1) as nat);
        } else if b < a {
            lemma_decided_grows(w, i, true, b as nat, (a - 1) as nat);
        }
    } else if a < 0 && b < 0 {
        if -a < -b {
            lemma_decided_grows(w, i, false, (-a) as nat, (-b - 1) as nat);
        } else if -b < -a {
            lemma_decided_grows(w, i, false, (-b) as nat, (-a - 1) as nat);
        }
    } else if a > 0 && b < 0 {
        law_race_outcome_is_unique(w, i, a as nat, (-b) as nat);
    } else if a < 0 && b > 0 {
        law_race_outcome_is_unique(w, i, b as nat, (-a) as nat);
    } else if a == 0 && b != 0 {
        assert(!decided_within(w, i, true, magnitude_nat(b)));
    } else if b == 0 && a != 0 {
        assert(!decided_within(w, i, true, magnitude_nat(a)));
    }
}

spec fn magnitude_nat(v: int) -> nat {
    if v < 0 {
        (-v) as nat
    } else {
        v as nat
    }
}

/// What the table knows after the states decided within `n` plies are entered.
spec fn settled(w: board::Topo, n: int, tbl: Seq<i16>) -> bool {
    tbl.len() == 13_122 && (forall|i: int| 0 <= i < 13_122 && !live(i) ==> #[trigger] tbl[i] == 0)
        && forall|i: int|
        live(i) ==> {
            &&& -n <= #[trigger] tbl[i] <= n
            &&& tbl[i] != 0 ==> race_value_is(w, i, tbl[i] as int)
            &&& tbl[i] == 0 ==> !decided_within(w, i, true, n as nat) && !decided_within(
                w,
                i,
                false,
                n as nat,
            )
        }
}

/// In a settled table a state is decided within `n` exactly when its entry says so.
proof fn lemma_settled_reads(w: board::Topo, n: int, tbl: Seq<i16>, i: int)
    requires
        settled(w, n, tbl),
        n >= 0,
        live(i),
    ensures
        decided_within(w, i, true, n as nat) == (tbl[i] > 0),
        decided_within(w, i, false, n as nat) == (tbl[i] < 0),
{
    let v = tbl[i] as int;
    if v > 0 {
        lemma_decided_grows(w, i, true, v as nat, n as nat);
        if decided_within(w, i, false, n as nat) {
            law_race_outcome_is_unique(w, i, v as nat, n as nat);
        }
    } else if v < 0 {
        lemma_decided_grows(w, i, false, (-v) as nat, n as nat);
        if decided_within(w, i, true, n as nat) {
            law_race_outcome_is_unique(w, i, n as nat, (-v) as nat);
        }
    }
}

/// When no state is newly decided at `n + 1`, none is decided later.
proof fn lemma_decided_stable(w: board::Topo, n: nat, i: int, win: bool, k: nat)
    requires
        forall|j: int, b: bool|
            live(j) && #[trigger] decided_within(w, j, b, (n + 1) as nat) ==> decided_within(
                w,
                j,
                b,
                n,
            ),
        live(i),
        decided_within(w, i, win, k),
    ensures
        decided_within(w, i, win, n),
    decreases k,
{
    let ms = race_moves(w, i);
    if win {
        let j = choose|j: int|
            0 <= j < ms.len() && (board::is_goal(turn_at(i), #[trigger] ms[j] as int)
                || decided_within(w, child_index(i, ms[j] as int), false, (k - 1) as nat));
        if !board::is_goal(turn_at(i), ms[j] as int) {
            lemma_race_moves_on_board(w, i, j);
            lemma_child_is_live(i, ms[j] as int);
            lemma_decided_stable(w, n, child_index(i, ms[j] as int), false, (k - 1) as nat);
        }
        assert(board::is_goal(turn_at(i), ms[j] as int) || decided_within(
            w,
            child_index(i, ms[j] as int),
            false,
            n,
        ));
        assert(decided_within(w, i, true, (n + 1) as nat));
    } else {
        assert forall|j: int| 0 <= j < ms.len() implies !board::is_goal(
            turn_at(i),
            #[trigger] ms[j] as int,
        ) && decided_within(w, child_index(i, ms[j] as int), true, n) by {
            lemma_race_moves_on_board(w, i, j);
            lemma_child_is_live(i, ms[j] as int);
            lemma_decided_stable(w, n, child_index(i, ms[j] as int), true, (k - 1) as nat);
        }
        assert(decided_within(w, i, false, (n + 1) as nat));
    }
}

spec fn open_count(tbl: Seq<i16>, n: int) -> int
    decreases n,
{
    if n <= 0 {
        0
    } else {
        open_count(tbl, n - 1) + if tbl[n - 1] == 0 {
            1int
        } else {
            0int
        }
    }
}

proof fn lemma_open_count_bounds(tbl: Seq<i16>, n: int)
    requires
        0 <= n,
    ensures
        0 <= open_count(tbl, n) <= n,
    decreases n,
{
    if n > 0 {
        lemma_open_count_bounds(tbl, n - 1);
    }
}

proof fn lemma_open_count_update(tbl: Seq<i16>, i: int, v: i16, n: int)
    requires
        0 <= i < tbl.len(),
        0 <= n <= tbl.len(),
        tbl[i] == 0,
        v != 0,
    ensures
        open_count(tbl.update(i, v), n) == open_count(tbl, n) - if i < n {
            1int
        } else {
            0int
        },
    decreases n,
{
    if n > 0 {
        lemma_open_count_update(tbl, i, v, n - 1);
    }
}

/// One-ply look-ahead on a table settled to `n` plies: 1 when the state is won within
/// `n + 1`, -1 when it is lost within `n + 1`, 0 otherwise. Entries beyond `n` count as
/// open.
fn look_ahead(hw: &[u8; 64], vw: &[u8; 64], tbl: &Vec<i16>, i: usize, n: i16, Ghost(base): Ghost<
    Seq<i16>,
>) -> (r: i16)
    requires
        live(i as int),
        0 <= n < 13_122,
        settled((board::Topo { hw: hw@, vw: vw@ }), n as int, base),
        tbl@.len() == 13_122,
        forall|j: int|
            live(j) ==> #[trigger] tbl@[j] == base[j] || (base[j] == 0 && (tbl@[j] == n + 1
                || tbl@[j] == -(n + 1))),
        base[i as int] == 0,
    ensures
        r == 1 || r == -1 || r == 0,
        (r == 1) == decided_within(
            (board::Topo { hw: hw@, vw: vw@ }),
            i as int,
            true,
            (n + 1) as nat,
        ),
        (r == -1) == decided_within(
            (board::Topo { hw: hw@, vw: vw@ }),
            i as int,
            false,
            (n + 1) as nat,
        ),
{
    let ghost w = board::Topo { hw: hw@, vw: vw@ };
    let p0: usize = i / 162;
    let p1: usize = (i / 2) % 81;
    let turn: usize = i % 2;
    let ms = if turn == 0 {
        game::pawn_targets(hw, vw, p0, p1)
    } else {
        game::pawn_targets(hw, vw, p1, p0)
    };
    assert(ms@ == race_moves(w, i as int));
    let mut all_lost: bool = ms.len() > 0;
    let mut k: usize = 0;
    while k < ms.len()
        invariant
            k <= ms@.len(),
            w == (board::Topo { hw: hw@, vw: vw@ }),
            live(i as int),
            p0 == pawn0_at(i as int),
            p1 == pawn1_at(i as int),
            turn == turn_at(i as int),
            0 <= n < 13_122,
            settled(w, n as int, base),
            tbl@.len() == 13_122,
            forall|j: int|
                live(j) ==> #[trigger] tbl@[j] == base[j] || (base[j] == 0 && (tbl@[j] == n + 1
                    || tbl@[j] == -(n + 1))),
            ms@ == race_moves(w, i as int),
            forall|j: int| 0 <= j < ms@.len() ==> moves::pawn_id(#[trigger] ms@[j] as int),
            forall|j: int|
                0 <= j < k ==> !board::is_goal(turn as int, #[trigger] ms@[j] as int)
                    && !decided_within(w, child_index(i as int, ms@[j] as int), false, n as nat),
            all_lost == (ms@.len() > 0 && forall|j: int|
                0 <= j < k ==> decided_within(
                    w,
                    child_index(i as int, #[trigger] ms@[j] as int),
                    true,
                    n as nat,
                )),
        decreases ms@.len() - k,
    {
        let m: usize = ms[k] as usize;
        assert(moves::pawn_id(ms@[k as int] as int));
        if board::is_goal_cell(turn, m) {
            assert(board::is_goal(turn_at(i as int), ms@[k as int] as int));
            proof {
                lemma_win_is_not_loss(w, i as int, k as int, n as nat);
            }
            return 1;
        }
        proof {
            lemma_child_is_live(i as int, m as int);
            lemma_settled_reads(w, n as int, base, child_index(i as int, m as int));
        }
        let c: usize = if turn == 0 {
            (m * 81 + p1) * 2 + 1
        } else {
            (p0 * 81 + m) * 2
        };
        assert(c == child_index(i as int, m as int));
        let v: i16 = tbl[c];
        if v < 0 && v >= -n {
            proof {
                lemma_win_is_not_loss(w, i as int, k as int, n as nat);
            }
            return 1;
        }
        if !(v > 0 && v <= n) {
            all_lost = false;
        }
        k += 1;
    }
    if all_lost {
        -1
    } else {
        0
    }
}

/// A move that arrives, or leaves the opponent lost within `n`, wins within `n + 1`.
proof fn lemma_win_is_not_loss(w: board::Topo, i: int, k: int, n: nat)
    requires
        live(i),
        0 <= k < race_moves(w, i).len(),
        board::is_goal(turn_at(i), race_moves(w, i)[k] as int) || decided_within(
            w,
            child_index(i, race_moves(w, i)[k] as int),
            false,
            n,
        ),
    ensures
        decided_within(w, i, true, (n + 1) as nat),
        !decided_within(w, i, false, (n + 1) as nat),
{
    assert(decided_within(w, i, true, (n + 1) as nat));
    law_race_outcome_is_unique(w, i, (n + 1) as nat, (n + 1) as nat);
}

/// Solves the race on one wall topology.
pub fn solve_race_config(hw: &[u8; 64], vw: &[u8; 64]) -> (tbl: Vec<i16>)
    ensures
        solves((board::Topo { hw: hw@, vw: vw@ }), tbl@),
{
    let ghost w = board::Topo { hw: hw@, vw: vw@ };
    let mut tbl: Vec<i16> = vec![0i16; STATES];
    let mut n: i16 = 0;
    proof {
        assert forall|i: int| live(i) implies !decided_within(w, i, true, 0) && !decided_within(
            w,
            i,
            false,
            0,
        ) by {}
        assert(settled(w, 0, tbl@));
        lemma_open_count_bounds(tbl@, 13_122);
    }
    loop
        invariant
            w == (board::Topo { hw: hw@, vw: vw@ }),
            0 <= n,
            settled(w, n as int, tbl@),
            0 <= open_count(tbl@, 13_122),
            n + open_count(tbl@, 13_122) <= 13_122,
        decreases open_count(tbl@, 13_122),
    {
        let ghost base = tbl@;
        let mut changed: bool = false;
        let mut i: usize = 0;
        while i < STATES
            invariant
                w == (board::Topo { hw: hw@, vw: vw@ }),
                0 <= n,
                n + open_count(base, 13_122) <= 13_122,
                i <= 13_122,
                settled(w, n as int, base),
                tbl@.len() == 13_122,
                0 <= open_count(tbl@, 13_122) <= open_count(base, 13_122),
                changed ==> open_count(tbl@, 13_122) < open_count(base, 13_122),
                !changed ==> tbl@ == base,
                forall|j: int| 0 <= j < 13_122 && !live(j) ==> #[trigger] tbl@[j] == 0,
                forall|j: int| i <= j < 13_122 ==> tbl@[j] == base[j],
                forall|j: int|
                    0 <= j < i && live(j) ==> #[trigger] tbl@[j] == if base[j] != 0 {
                        base[j]
                    } else if decided_within(w, j, true, (n + 1) as nat) {
                        (n + 1) as i16
                    } else if decided_within(w, j, false, (n + 1) as nat) {
                        (-(n + 1)) as i16
                    } else {
                        0i16
                    },
            decreases 13_122 - i,
        {
            let p0: usize = i / 162;
            let p1: usize = (i / 2) % 81;
            if p0 >= 9 && p1 < 72 && tbl[i] == 0 {
                assert(live(i as int));
                proof {
                    lemma_one_is_open(base, i as int, 13_122);
                }
                let r: i16 = look_ahead(hw, vw, &tbl, i, n, Ghost(base));
                if r != 0 {
                    let v: i16 = if r > 0 {
                        n + 1
                    } else {
                        -(n + 1)
                    };
                    proof {
                        lemma_open_count_update(tbl@, i as int, v, 13_122);
                        lemma_open_count_bounds(tbl@.update(i as int, v), 13_122);
                        if r > 0 {
                            law_race_outcome_is_unique(w, i as int, (n + 1) as nat, (n + 1) as nat);
                        }
                    }
                    tbl.set(i, v);
                    changed = true;
                }
            }
            i += 1;
        }
        if !changed {
            proof {
                assert forall|j: int, b: bool|
                    live(j) && #[trigger] decided_within(w, j, b, (n + 1) as nat) implies decided_within(
                    w,
                    j,
                    b,
                    n as nat,
                ) by {
                    lemma_settled_reads(w, n as int, base, j);
                    assert(tbl@[j] == base[j]);
                    if base[j] != 0 {
                        let v = base[j] as int;
                        if v > 0 && !b {
                            law_race_outcome_is_unique(w, j, v as nat, (n + 1) as nat);
                        } else if v < 0 && b {
                            law_race_outcome_is_unique(w, j, (n + 1) as nat, (-v) as nat);
                        }
                    }
                }
                assert forall|j: int| 0 <= j < 13_122 implies value_is(
                    w,
                    j,
                    #[trigger] tbl@[j] as int,
                ) && -13_122 <= tbl@[j] <= 13_122 by {
                    if live(j) && tbl@[j] == 0 {
                        assert forall|k: nat|
                            !(#[trigger] decided_within(w, j, true, k)) && !decided_within(
                                w,
                                j,
                                false,
                                k,
                            ) by {
                            if decided_within(w, j, true, k) {
                                lemma_decided_stable(w, n as nat, j, true, k);
                            }
                            if decided_within(w, j, false, k) {
                                lemma_decided_stable(w, n as nat, j, false, k);
                            }
                        }
                    }
                }
            }
            return tbl;
        }
        proof {
            assert forall|j: int| live(j) implies {
                &&& -(n + 1) <= #[trigger] tbl@[j] <= n + 1
                &&& tbl@[j] != 0 ==> race_value_is(w, j, tbl@[j] as int)
                &&& tbl@[j] == 0 ==> !decided_within(w, j, true, (n + 1) as nat)
                    && !decided_within(w, j, false, (n + 1) as nat)
            } by {
                lemma_settled_reads(w, n as int, base, j);
            }
        }
        n = n + 1;
    }
}

proof fn lemma_one_is_open(tbl: Seq<i16>, i: int, n: int)
    requires
        0 <= i < n <= tbl.len(),
        tbl[i] == 0,
    ensures
        open_count(tbl, n) >= 1,
    decreases n,
{
    if i < n - 1 {
        lemma_one_is_open(tbl, i, n - 1);
    } else {
        lemma_open_count_bounds(tbl, n - 1);
    }
}

} // verus!

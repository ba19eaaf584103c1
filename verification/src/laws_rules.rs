//! The rules of the game as they are played on the board: which cells are neighbours, what a
//! wall closes, where a pawn may go, and when a game is over. Everything here is said of rows,
//! columns and pairs of cells.

use crate::board;
use crate::game;
use crate::movegen;
use crate::moves;
use vstd::prelude::*;

verus! {

/// The cells lie side by side, in a row or in a column.
pub open spec fn adjacent(a: int, b: int) -> bool {
    ||| a / 9 == b / 9 && (a % 9 == b % 9 + 1 || b % 9 == a % 9 + 1)
    ||| a % 9 == b % 9 && (a / 9 == b / 9 + 1 || b / 9 == a / 9 + 1)
}

/// A pawn may walk from `a` to `b` in one step, other pawns aside.
pub open spec fn edge_open(w: board::Topo, a: int, b: int) -> bool {
    exists|d: int| 0 <= d < 4 && #[trigger] board::step_open(w, a, d) && b == a + board::delta(d)
}

/// No wall stands.
pub open spec fn bare(w: board::Topo) -> bool {
    &&& forall|s: int| 0 <= s < 64 ==> #[trigger] w.hw[s] == 0
    &&& forall|s: int| 0 <= s < 64 ==> #[trigger] w.vw[s] == 0
}

/// The pair of cells is one of the two that a wall of this type at row `r`, column `c` keeps
/// apart: above and below a horizontal one, left and right of a vertical one.
pub open spec fn wall_between(t: int, r: int, c: int, a: int, b: int) -> bool {
    let nw = r * 9 + c;
    if t == 0 {
        (a == nw && b == nw + 9) || (a == nw + 9 && b == nw) || (a == nw + 1 && b == nw + 10) || (a
            == nw + 10 && b == nw + 1)
    } else {
        (a == nw && b == nw + 1) || (a == nw + 1 && b == nw) || (a == nw + 9 && b == nw + 10) || (a
            == nw + 10 && b == nw + 9)
    }
}

/// On a board without walls a pawn steps to every cell beside it, and to no other.
pub proof fn law_open_board(w: board::Topo, a: int, b: int)
    requires
        board::topo_ok(w),
        bare(w),
        0 <= a < 81,
        0 <= b < 81,
    ensures
        edge_open(w, a, b) <==> adjacent(a, b),
{
    if adjacent(a, b) {
        let d: int = if b == a - 9 {
            0
        } else if b == a + 9 {
            1
        } else if b == a - 1 {
            2
        } else {
            3
        };
        assert(board::step_open(w, a, d) && b == a + board::delta(d));
    }
}

/// Steps lead to cells beside, and can be taken back.
pub proof fn law_steps_are_between_neighbours(w: board::Topo, a: int, b: int)
    requires
        board::topo_ok(w),
        0 <= a < 81,
        edge_open(w, a, b),
    ensures
        0 <= b < 81,
        adjacent(a, b),
        edge_open(w, b, a),
{
    let d = choose|d: int|
        0 <= d < 4 && #[trigger] board::step_open(w, a, d) && b == a + board::delta(d);
    board::lemma_step_symmetric(w, a, d);
    let e = board::opposite(d);
    assert(board::step_open(w, b, e) && a == b + board::delta(e));
}

/// A wall closes exactly the two pairs of cells it stands between, and no other.
pub proof fn law_wall_closes_two_edges(w: board::Topo, t: int, s: int, a: int, b: int)
    requires
        board::topo_ok(w),
        t == 0 || t == 1,
        0 <= s < 64,
        0 <= a < 81,
    ensures
        edge_open(game::with_wall(w, moves::wall_move_id(t, s)), a, b) <==> edge_open(w, a, b)
            && !wall_between(t, s / 8, s % 8, a, b),
{
    let m = moves::wall_move_id(t, s);
    let after = game::with_wall(w, m);
    let r = s / 8;
    let c = s % 8;
    assert(s == r * 8 + c);
    assert forall|d: int| 0 <= d < 4 implies board::step_open(after, a, d) == (#[trigger] board::step_open(w, a, d)
        && !wall_between(t, r, c, a, a + board::delta(d))) by {
        lemma_wall_slots(w, t, s, a / 9, a % 9);
        lemma_wall_slots(w, t, s, a / 9, a % 9 - 1);
        lemma_wall_slots(w, t, s, a / 9 - 1, a % 9);
        lemma_wall_slots(w, t, s, a / 9 - 1, a % 9 - 1);
        assert(a == (a / 9) * 9 + a % 9);
    }
    if edge_open(after, a, b) {
        let d = choose|d: int|
            0 <= d < 4 && #[trigger] board::step_open(after, a, d) && b == a + board::delta(d);
        assert(board::step_open(w, a, d));
    }
    if edge_open(w, a, b) && !wall_between(t, r, c, a, b) {
        let d = choose|d: int|
            0 <= d < 4 && #[trigger] board::step_open(w, a, d) && b == a + board::delta(d);
        assert(board::step_open(after, a, d));
    }
}

proof fn lemma_wall_slots(w: board::Topo, t: int, s: int, i: int, j: int)
    requires
        board::topo_ok(w),
        t == 0 || t == 1,
        0 <= s < 64,
    ensures
        ({
            let after = game::with_wall(w, moves::wall_move_id(t, s));
            &&& board::wall_at(after.hw, i, j) == (board::wall_at(w.hw, i, j) || (t == 0 && i == s / 8
                && j == s % 8))
            &&& board::wall_at(after.vw, i, j) == (board::wall_at(w.vw, i, j) || (t == 1 && i == s / 8
                && j == s % 8))
        }),
{
    if 0 <= i < 8 && 0 <= j < 8 {
        assert((i * 8 + j) / 8 == i && (i * 8 + j) % 8 == j);
    }
}

/// Both pairs of cells that a wall would keep apart.
pub open spec fn both_edges_open(w: board::Topo, t: int, s: int) -> bool {
    let nw = (s / 8) * 9 + s % 8;
    if t == 0 {
        edge_open(w, nw, nw + 9) && edge_open(w, nw + 1, nw + 10)
    } else {
        edge_open(w, nw, nw + 1) && edge_open(w, nw + 9, nw + 10)
    }
}

/// A wall fits exactly where both pairs of cells it would keep apart are still open to each
/// other and no wall crosses it in the middle. So two walls never share an edge.
pub proof fn law_walls_never_share_an_edge(w: board::Topo, t: int, s: int)
    requires
        board::topo_ok(w),
        t == 0 || t == 1,
        0 <= s < 64,
    ensures
        game::fits(w, t, s) <==> both_edges_open(w, t, s) && (if t == 0 {
            w.vw[s] == 0
        } else {
            w.hw[s] == 0
        }),
{
    let r = s / 8;
    let c = s % 8;
    let nw = r * 9 + c;
    assert(s == r * 8 + c);
    assert(nw / 9 == r && nw % 9 == c);
    assert((nw + 1) / 9 == r && (nw + 1) % 9 == c + 1);
    assert((nw + 9) / 9 == r + 1 && (nw + 9) % 9 == c);
    assert((nw + 10) / 9 == r + 1 && (nw + 10) % 9 == c + 1);
    if t == 0 {
        assert(edge_open(w, nw, nw + 9) == board::step_open(w, nw, 1));
        assert(edge_open(w, nw + 1, nw + 10) == board::step_open(w, nw + 1, 1));
    } else {
        assert(edge_open(w, nw, nw + 1) == board::step_open(w, nw, 3));
        assert(edge_open(w, nw + 9, nw + 10) == board::step_open(w, nw + 9, 3));
    }
}

/// The cells form a walk over open edges.
pub open spec fn is_walk(w: board::Topo, path: Seq<int>) -> bool {
    &&& path.len() > 0
    &&& forall|i: int| 0 <= i < path.len() ==> 0 <= #[trigger] path[i] < 81
    &&& forall|i: int| 0 <= i < path.len() - 1 ==> edge_open(w, #[trigger] path[i], path[i + 1])
}

/// The last row for a player: row 0 for player 0, row 8 for player 1.
pub open spec fn on_last_row(side: int, cell: int) -> bool {
    if side == 0 {
        cell / 9 == 0
    } else {
        cell / 9 == 8
    }
}

/// A walk of at most `n` steps leads from the cell to the player's last row.
pub open spec fn walks_home(w: board::Topo, side: int, cell: int, n: nat) -> bool {
    exists|path: Seq<int>| #[trigger]
        is_walk(w, path) && path[0] == cell && path.len() <= n + 1 && on_last_row(side, path.last())
}

/// Reaching a goal within `n` steps is walking there in at most `n`.
pub proof fn law_goals_are_reached_on_foot(w: board::Topo, side: int, cell: int, n: nat)
    requires
        board::topo_ok(w),
        side == 0 || side == 1,
        0 <= cell < 81,
    ensures
        board::goal_within(w, side, cell, n) <==> walks_home(w, side, cell, n),
    decreases n,
{
    if board::goal_within(w, side, cell, n) {
        if board::is_goal(side, cell) {
            assert(is_walk(w, seq![cell]));
        } else {
            let d = choose|d: int|
                0 <= d < 4 && #[trigger] board::step_open(w, cell, d) && board::goal_within(
                    w,
                    side,
                    cell + board::delta(d),
                    (n - 1) as nat,
                );
            let to = cell + board::delta(d);
            board::lemma_step_on_board(w, cell, d);
            law_goals_are_reached_on_foot(w, side, to, (n - 1) as nat);
            let rest = choose|path: Seq<int>| #[trigger]
                is_walk(w, path) && path[0] == to && path.len() <= n && on_last_row(
                    side,
                    path.last(),
                );
            let path = seq![cell] + rest;
            assert(edge_open(w, cell, to));
            assert forall|i: int| 0 <= i < path.len() - 1 implies edge_open(
                w,
                #[trigger] path[i],
                path[i + 1],
            ) by {
                if i > 0 {
                    assert(path[i] == rest[i - 1] && path[i + 1] == rest[i]);
                    assert(edge_open(w, rest[i - 1], rest[i - 1 + 1]));
                }
            }
            assert forall|i: int| 0 <= i < path.len() implies 0 <= #[trigger] path[i] < 81 by {
                if i > 0 {
                    assert(path[i] == rest[i - 1]);
                }
            }
            assert(path.last() == rest.last());
            assert(is_walk(w, path));
        }
    }
    if walks_home(w, side, cell, n) {
        let path = choose|path: Seq<int>| #[trigger]
            is_walk(w, path) && path[0] == cell && path.len() <= n + 1 && on_last_row(
                side,
                path.last(),
            );
        if path.len() == 1 {
            assert(board::is_goal(side, cell));
        } else {
            let rest = path.subrange(1, path.len() as int);
            let to = path[1];
            let first: int = 0;
            assert(edge_open(w, path[first], path[first + 1]));
            let d = choose|d: int|
                0 <= d < 4 && #[trigger] board::step_open(w, cell, d) && to == cell + board::delta(d);
            assert forall|i: int| 0 <= i < rest.len() - 1 implies edge_open(
                w,
                #[trigger] rest[i],
                rest[i + 1],
            ) by {
                assert(edge_open(w, path[i + 1], path[i + 1 + 1]));
            }
            assert forall|i: int| 0 <= i < rest.len() implies 0 <= #[trigger] rest[i] < 81 by {
                assert(rest[i] == path[i + 1]);
            }
            assert(rest.last() == path.last());
            assert(is_walk(w, rest));
            assert(walks_home(w, side, to, (n - 1) as nat));
            law_goals_are_reached_on_foot(w, side, to, (n - 1) as nat);
        }
    }
}

/// A wall is legal exactly where it fits and leaves each pawn a walk to its own last row.
pub proof fn law_legal_walls_leave_both_a_way(p: game::Position, t: int, s: int)
    requires
        game::position_ok(p),
        t == 0 || t == 1,
        0 <= s < 64,
    ensures
        ({
            let after = game::with_wall(p.w, moves::wall_move_id(t, s));
            game::wall_is_legal(p, t, s) <==> game::fits(p.w, t, s) && (exists|n: nat| #[trigger]
                walks_home(after, 0, p.p0, n)) && (exists|n: nat| #[trigger]
                walks_home(after, 1, p.p1, n))
        }),
{
    let after = game::with_wall(p.w, moves::wall_move_id(t, s));
    assert forall|n: nat| #[trigger]
        walks_home(after, 0, p.p0, n) == board::goal_within(after, 0, p.p0, n) by {
        law_goals_are_reached_on_foot(after, 0, p.p0, n);
    }
    assert forall|n: nat| #[trigger]
        walks_home(after, 1, p.p1, n) == board::goal_within(after, 1, p.p1, n) by {
        law_goals_are_reached_on_foot(after, 1, p.p1, n);
    }
    if game::wall_is_legal(p, t, s) {
        let n = choose|n: nat| board::goal_within(after, 0, p.p0, n);
        assert(walks_home(after, 0, p.p0, n));
        let k = choose|k: nat| board::goal_within(after, 1, p.p1, k);
        assert(walks_home(after, 1, p.p1, k));
    }
}

/// A distance field is that of shortest walks: zero on the last row alone, never more than one
/// apart over an open edge, and every other cell that has a way has a neighbour one nearer.
pub proof fn law_distances_are_shortest_walks(w: board::Topo, side: int, f: Seq<u8>, a: int, b: int)
    requires
        board::topo_ok(w),
        side == 0 || side == 1,
        board::dist_field(w, side, f),
        0 <= a < 81,
    ensures
        f[a] == 0 <==> on_last_row(side, a),
        edge_open(w, a, b) && f[b] < 254 ==> f[a] <= f[b] + 1,
        0 < f[a] < 255 ==> exists|c: int| #[trigger] edge_open(w, a, c) && f[c] == f[a] - 1,
        f[a] == 255 <==> forall|n: nat| !(#[trigger] walks_home(w, side, a, n)),
{
    assert(board::dist_value(w, side, a, f[a] as int));
    let v = f[a] as nat;
    if on_last_row(side, a) {
        assert(board::is_goal(side, a));
        assert(board::goal_within(w, side, a, 0));
        if v > 0 && v < 255 {
            assert(board::goal_within(w, side, a, (v - 1) as nat));
        }
    }
    if edge_open(w, a, b) && f[b] < 254 {
        let d = choose|d: int|
            0 <= d < 4 && #[trigger] board::step_open(w, a, d) && b == a + board::delta(d);
        board::lemma_step_on_board(w, a, d);
        assert(board::dist_value(w, side, b, f[b] as int));
        assert(board::goal_within(w, side, a, (f[b] + 1) as nat));
        if f[a] == 255 {
            assert(board::reaches_goal(w, side, a));
        } else if f[a] > f[b] + 1 {
            board::lemma_goal_within_grows(w, side, a, (f[b] + 1) as nat, (f[a] - 1) as nat);
        }
    }
    if 0 < f[a] < 255 {
        let d = choose|d: int|
            0 <= d < 4 && #[trigger] board::step_open(w, a, d) && board::goal_within(
                w,
                side,
                a + board::delta(d),
                (v - 1) as nat,
            );
        let c = a + board::delta(d);
        board::lemma_step_on_board(w, a, d);
        assert(edge_open(w, a, c));
        assert(board::dist_value(w, side, c, f[c] as int));
        if f[c] == 255 {
            assert(board::reaches_goal(w, side, c));
        } else {
            if f[c] > v - 1 {
                board::lemma_goal_within_grows(w, side, c, (v - 1) as nat, (f[c] - 1) as nat);
            }
            if f[c] < v - 1 {
                assert(board::goal_within(w, side, a, (f[c] + 1) as nat));
                board::lemma_goal_within_grows(w, side, a, (f[c] + 1) as nat, (v - 1) as nat);
            }
        }
    }
    assert forall|n: nat| #[trigger]
        walks_home(w, side, a, n) == board::goal_within(w, side, a, n) by {
        law_goals_are_reached_on_foot(w, side, a, n);
    }
    if f[a] == 255 {
        assert forall|n: nat| !(#[trigger] walks_home(w, side, a, n)) by {
            if walks_home(w, side, a, n) {
                assert(board::goal_within(w, side, a, n));
            }
        }
    } else {
        assert(walks_home(w, side, a, v));
    }
}

/// The step goes straight on from `me` over the other pawn on `opp`.
pub open spec fn straight_over(me: int, opp: int, to: int) -> bool {
    to - opp == opp - me && adjacent(opp, to)
}

/// Where a pawn on `me` may go against a pawn on `opp`: to an open cell beside it that is free;
/// over the other pawn to the cell straight behind it; or, where that is closed or off the
/// board, to a cell beside the other pawn at a right angle.
pub open spec fn may_go(w: board::Topo, me: int, opp: int, to: int) -> bool {
    ||| to != opp && edge_open(w, me, to)
    ||| edge_open(w, me, opp) && edge_open(w, opp, to) && straight_over(me, opp, to)
    ||| edge_open(w, me, opp) && !edge_open(w, opp, opp + opp - me) && edge_open(w, opp, to) && to
        != me && !straight_over(me, opp, to)
}

/// The pawn moves of a position are exactly those the rules allow.
pub proof fn law_pawn_moves_are_the_rules(p: game::Position, to: int)
    requires
        game::position_ok(p),
        p.p0 != p.p1,
    ensures
        0 <= to < 81 ==> (game::pawn_moves(p).contains(to as i16) <==> may_go(
            p.w,
            if p.turn == 0 {
                p.p0
            } else {
                p.p1
            },
            if p.turn == 0 {
                p.p1
            } else {
                p.p0
            },
            to,
        )),
{
    let me = if p.turn == 0 {
        p.p0
    } else {
        p.p1
    };
    let opp = if p.turn == 0 {
        p.p1
    } else {
        p.p0
    };
    if 0 <= to < 81 {
        lemma_contains_upto(p.w, me, opp, 4, to);
        lemma_some_target(p.w, me, opp, to);
    }
}

/// The destination is one of direction `d`.
pub open spec fn target_in(w: board::Topo, me: int, opp: int, d: int, to: int) -> bool {
    game::targets_in(w, me, opp, d).contains(to as i16)
}

pub proof fn lemma_contains_upto(w: board::Topo, me: int, opp: int, n: int, to: int)
    requires
        0 <= n <= 4,
    ensures
        game::targets_upto(w, me, opp, n).contains(to as i16) <==> exists|d: int|
            0 <= d < n && #[trigger] target_in(w, me, opp, d, to),
    decreases n,
{
    let all = game::targets_upto(w, me, opp, n);
    if n <= 0 {
        assert(all.len() == 0);
    } else {
        lemma_contains_upto(w, me, opp, n - 1, to);
        let head = game::targets_upto(w, me, opp, n - 1);
        let tail = game::targets_in(w, me, opp, n - 1);
        assert(all == head + tail);
        if all.contains(to as i16) {
            let i = choose|i: int| 0 <= i < all.len() && all[i] == to as i16;
            if i < head.len() {
                assert(head[i] == to as i16);
                assert(head.contains(to as i16));
            } else {
                assert(tail[i - head.len()] == to as i16);
                assert(target_in(w, me, opp, n - 1, to));
            }
        }
        if exists|d: int| 0 <= d < n && #[trigger] target_in(w, me, opp, d, to) {
            let d = choose|d: int| 0 <= d < n && #[trigger] target_in(w, me, opp, d, to);
            if d == n - 1 {
                let i = choose|i: int| 0 <= i < tail.len() && tail[i] == to as i16;
                assert(all[head.len() + i] == to as i16);
            } else {
                assert(head.contains(to as i16));
                let i = choose|i: int| 0 <= i < head.len() && head[i] == to as i16;
                assert(all[i] == to as i16);
            }
        }
    }
}

/// What is in one direction, spelled out.
proof fn lemma_target_in(w: board::Topo, me: int, opp: int, d: int, to: int)
    requires
        0 <= me < 81,
        0 <= opp < 81,
        me != opp,
        0 <= d < 4,
        0 <= to < 81,
    ensures
        target_in(w, me, opp, d, to) <==> board::step_open(w, me, d) && if me + board::delta(d) != opp {
            to == me + board::delta(d)
        } else if board::step_open(w, opp, d) {
            to == opp + board::delta(d)
        } else {
            let a = if d < 2 {
                2int
            } else {
                0int
            };
            (board::step_open(w, opp, a) && to == opp + board::delta(a)) || (board::step_open(
                w,
                opp,
                a + 1,
            ) && to == opp + board::delta(a + 1))
        },
{
    let ts = game::targets_in(w, me, opp, d);
    if board::step_open(w, me, d) {
        board::lemma_step_on_board(w, me, d);
        if me + board::delta(d) != opp {
            assert(ts[0] == (me + board::delta(d)) as i16);
        } else if board::step_open(w, opp, d) {
            board::lemma_step_on_board(w, opp, d);
            assert(ts[0] == (opp + board::delta(d)) as i16);
        } else {
            let a = if d < 2 {
                2int
            } else {
                0int
            };
            if board::step_open(w, opp, a) {
                board::lemma_step_on_board(w, opp, a);
                assert(ts[0] == (opp + board::delta(a)) as i16);
            }
            if board::step_open(w, opp, a + 1) {
                board::lemma_step_on_board(w, opp, a + 1);
                assert(ts[ts.len() - 1] == (opp + board::delta(a + 1)) as i16);
            }
        }
    }
}

pub proof fn lemma_some_target(w: board::Topo, me: int, opp: int, to: int)
    requires
        0 <= me < 81,
        0 <= opp < 81,
        me != opp,
        0 <= to < 81,
    ensures
        (exists|d: int| 0 <= d < 4 && #[trigger] target_in(w, me, opp, d, to)) <==> may_go(
            w,
            me,
            opp,
            to,
        ),
{
    assert forall|d: int| 0 <= d < 4 implies (#[trigger] target_in(w, me, opp, d, to) <==> (
    board::step_open(w, me, d) && if me + board::delta(d) != opp {
        to == me + board::delta(d)
    } else if board::step_open(w, opp, d) {
        to == opp + board::delta(d)
    } else {
        let a = if d < 2 {
            2int
        } else {
            0int
        };
        (board::step_open(w, opp, a) && to == opp + board::delta(a)) || (board::step_open(
            w,
            opp,
            a + 1,
        ) && to == opp + board::delta(a + 1))
    })) by {
        lemma_target_in(w, me, opp, d, to);
    }
    if exists|d: int| 0 <= d < 4 && #[trigger] target_in(w, me, opp, d, to) {
        let d = choose|d: int| 0 <= d < 4 && #[trigger] target_in(w, me, opp, d, to);
        board::lemma_step_on_board(w, me, d);
        if me + board::delta(d) != opp {
            assert(edge_open(w, me, to));
        } else {
            assert(edge_open(w, me, opp));
            lemma_edge_is_a_step(w, opp, opp + opp - me, d);
            let a = if d < 2 {
                2int
            } else {
                0int
            };
            if board::step_open(w, opp, d) {
                lemma_edge_is_a_step(w, opp, to, d);
            } else if board::step_open(w, opp, a) && to == opp + board::delta(a) {
                lemma_edge_is_a_step(w, opp, to, a);
            } else {
                lemma_edge_is_a_step(w, opp, to, a + 1);
            }
        }
    }
    if may_go(w, me, opp, to) {
        if to != opp && edge_open(w, me, to) {
            let d = choose|d: int|
                0 <= d < 4 && #[trigger] board::step_open(w, me, d) && to == me + board::delta(d);
            assert(target_in(w, me, opp, d, to));
        } else {
            let d = choose|d: int|
                0 <= d < 4 && #[trigger] board::step_open(w, me, d) && opp == me + board::delta(d);
            let e = choose|e: int|
                0 <= e < 4 && #[trigger] board::step_open(w, opp, e) && to == opp + board::delta(e);
            board::lemma_step_on_board(w, me, d);
            board::lemma_step_on_board(w, opp, e);
            lemma_edge_is_a_step(w, opp, opp + opp - me, d);
            assert(target_in(w, me, opp, d, to));
        }
    }
}

/// Over one pair of cells there is one direction.
proof fn lemma_edge_is_a_step(w: board::Topo, a: int, b: int, d: int)
    requires
        0 <= a < 81,
        0 <= d < 4,
        b == a + board::delta(d),
    ensures
        edge_open(w, a, b) <==> board::step_open(w, a, d),
        board::step_open(w, a, d) ==> adjacent(a, b),
{
    if edge_open(w, a, b) {
        let e = choose|e: int|
            0 <= e < 4 && #[trigger] board::step_open(w, a, e) && b == a + board::delta(e);
        assert(e == d);
    }
}

/// At the root the generated moves are the pawn moves and, for a side that has walls in hand,
/// exactly the legal walls.
pub proof fn law_root_generates_the_legal_walls(p: game::Position, policy: movegen::WallPolicy, t: int, s: int)
    requires
        game::position_ok(p),
        t == 0 || t == 1,
        0 <= s < 64,
    ensures
        ({
            let all = movegen::generated(p, true, policy, Seq::empty(), 0);
            let hand = if p.turn == 0 {
                p.wl0
            } else {
                p.wl1
            };
            all.contains(moves::wall_move_id(t, s) as i16) <==> hand > 0 && game::wall_is_legal(
                p,
                t,
                s,
            )
        }),
{
    let all = movegen::generated(p, true, policy, Seq::empty(), 0);
    let pawns = game::pawn_moves(p);
    let walls = movegen::legal_walls(p, 64);
    let m = moves::wall_move_id(t, s) as i16;
    let me = game::pawn_of(p, p.turn);
    let opp = game::pawn_of(p, 1 - p.turn);
    game::lemma_targets_on_board(p.w, me, opp, 4);
    lemma_legal_walls(p, 64, t, s);
    if all.contains(m) {
        let i = choose|i: int| 0 <= i < all.len() && all[i] == m;
        if i < pawns.len() {
            assert(moves::pawn_id(pawns[i] as int));
        } else {
            assert(walls[i - pawns.len()] == m);
        }
    }
    if game::hand_of(p, p.turn) > 0 && walls.contains(m) {
        let i = choose|i: int| 0 <= i < walls.len() && walls[i] == m;
        assert(all[pawns.len() + i] == m);
    }
}

proof fn lemma_legal_walls(p: game::Position, n: int, t: int, s: int)
    requires
        0 <= n <= 64,
        t == 0 || t == 1,
        0 <= s < 64,
    ensures
        movegen::legal_walls(p, n).contains(moves::wall_move_id(t, s) as i16) <==> s < n
            && game::wall_is_legal(p, t, s),
    decreases n,
{
    let m = moves::wall_move_id(t, s) as i16;
    let all = movegen::legal_walls(p, n);
    if n > 0 {
        lemma_legal_walls(p, n - 1, t, s);
        let head = movegen::legal_walls(p, n - 1);
        let h = movegen::wall_if(game::wall_is_legal(p, 0, n - 1), 0, n - 1);
        let v = movegen::wall_if(game::wall_is_legal(p, 1, n - 1), 1, n - 1);
        assert(all == head + h + v);
        if all.contains(m) {
            let i = choose|i: int| 0 <= i < all.len() && all[i] == m;
            if i < head.len() {
                assert(head[i] == m);
            } else if i < head.len() + h.len() {
                assert(h[i - head.len()] == m);
            } else {
                assert(v[i - head.len() - h.len()] == m);
            }
        }
        if head.contains(m) {
            let i = choose|i: int| 0 <= i < head.len() && head[i] == m;
            assert(all[i] == m);
        }
        if s == n - 1 && game::wall_is_legal(p, t, s) {
            if t == 0 {
                assert(all[head.len() as int] == m);
            } else {
                assert(all[(head.len() + h.len()) as int] == m);
            }
        }
    }
}

/// Below the root a wall is listed only where it fits and a wall is in hand, and without a
/// filter every such wall is.
pub proof fn law_inner_nodes_list_fitting_walls(
    p: game::Position,
    policy: movegen::WallPolicy,
    relevant: Seq<bool>,
    tt_move: int,
    t: int,
    s: int,
)
    requires
        game::position_ok(p),
        t == 0 || t == 1,
        0 <= s < 64,
    ensures
        ({
            let all = movegen::generated(p, false, policy, relevant, tt_move);
            let m = moves::wall_move_id(t, s);
            let hand = if p.turn == 0 {
                p.wl0
            } else {
                p.wl1
            };
            &&& all.contains(m as i16) ==> hand > 0 && game::fits(p.w, t, s)
            &&& policy == movegen::WallPolicy::Legal ==> (all.contains(m as i16) <==> hand > 0
                && game::wall_is_legal(p, t, s))
            &&& policy == movegen::WallPolicy::Lazy ==> (all.contains(m as i16) <==> hand > 0
                && game::fits(p.w, t, s))
            &&& policy == movegen::WallPolicy::Relevant ==> (all.contains(m as i16) <==> hand > 0
                && game::fits(p.w, t, s) && (m == tt_move || (m < relevant.len() && relevant[m])))
            &&& policy == movegen::WallPolicy::DeadZone ==> (all.contains(m as i16) <==> hand > 0
                && game::fits(p.w, t, s) && !movegen::in_dead_zone(p, s))
        }),
{
    let all = movegen::generated(p, false, policy, relevant, tt_move);
    let pawns = game::pawn_moves(p);
    let m = moves::wall_move_id(t, s);
    let me = game::pawn_of(p, p.turn);
    let opp = game::pawn_of(p, 1 - p.turn);
    game::lemma_targets_on_board(p.w, me, opp, 4);
    lemma_legal_walls(p, 64, t, s);
    let keep = if policy == movegen::WallPolicy::Relevant {
        movegen::relevant_mask(relevant, tt_move)
    } else if policy == movegen::WallPolicy::DeadZone {
        movegen::live_mask(p)
    } else {
        Seq::new(256, |i: int| true)
    };
    lemma_kept_walls(p.w, keep, 64, t, s);
    let walls = if policy == movegen::WallPolicy::Legal {
        movegen::legal_walls(p, 64)
    } else {
        movegen::kept_walls(p.w, keep, 64)
    };
    assert(moves::slot_of(m) == s);
    assert forall|i: int| 0 <= i < pawns.len() implies #[trigger] pawns[i] != m as i16 by {
        assert(moves::pawn_id(pawns[i] as int));
    }
    if game::hand_of(p, p.turn) > 0 {
        assert(all == pawns + walls);
        if all.contains(m as i16) {
            let i = choose|i: int| 0 <= i < all.len() && all[i] == m as i16;
            assert(i >= pawns.len());
            assert(walls[i - pawns.len()] == m as i16);
        }
        if walls.contains(m as i16) {
            let i = choose|i: int| 0 <= i < walls.len() && walls[i] == m as i16;
            assert(all[pawns.len() + i] == m as i16);
        }
    } else {
        assert(all == pawns);
    }
}

proof fn lemma_kept_walls(w: board::Topo, keep: Seq<bool>, n: int, t: int, s: int)
    requires
        0 <= n <= 64,
        t == 0 || t == 1,
        0 <= s < 64,
    ensures
        movegen::kept_walls(w, keep, n).contains(moves::wall_move_id(t, s) as i16) <==> s < n
            && game::fits(w, t, s) && keep[moves::wall_move_id(t, s)],
    decreases n,
{
    let m = moves::wall_move_id(t, s) as i16;
    let all = movegen::kept_walls(w, keep, n);
    if n > 0 {
        lemma_kept_walls(w, keep, n - 1, t, s);
        let head = movegen::kept_walls(w, keep, n - 1);
        let h = movegen::wall_if(
            game::fits(w, 0, n - 1) && keep[moves::wall_move_id(0, n - 1)],
            0,
            n - 1,
        );
        let v = movegen::wall_if(
            game::fits(w, 1, n - 1) && keep[moves::wall_move_id(1, n - 1)],
            1,
            n - 1,
        );
        assert(all == head + h + v);
        if all.contains(m) {
            let i = choose|i: int| 0 <= i < all.len() && all[i] == m;
            if i < head.len() {
                assert(head[i] == m);
            } else if i < head.len() + h.len() {
                assert(h[i - head.len()] == m);
            } else {
                assert(v[i - head.len() - h.len()] == m);
            }
        }
        if head.contains(m) {
            let i = choose|i: int| 0 <= i < head.len() && head[i] == m;
            assert(all[i] == m);
        }
        if s == n - 1 && game::fits(w, t, s) && keep[moves::wall_move_id(t, s)] {
            if t == 0 {
                assert(all[head.len() as int] == m);
            } else {
                assert(all[(head.len() + h.len()) as int] == m);
            }
        }
    }
}

/// What a pawn move does: the mover's pawn stands on the cell, the other side is to move, and
/// nothing else on the board or in the hands has changed.
pub proof fn law_pawn_move_moves_one_pawn(p: game::Position, m: int)
    requires
        game::position_ok(p),
        0 <= m < 81,
    ensures
        ({
            let q = game::played(p, m);
            &&& q.w == p.w
            &&& q.turn != p.turn
            &&& q.turn == 0 || q.turn == 1
            &&& q.wl0 == p.wl0 && q.wl1 == p.wl1
            &&& p.turn == 0 ==> q.p0 == m && q.p1 == p.p1
            &&& p.turn == 1 ==> q.p1 == m && q.p0 == p.p0
            &&& q.hist.len() == p.hist.len() + 1
            &&& q.hist.drop_last() == p.hist
            &&& q.stamp == p.stamp
        }),
{
    assert(game::played(p, m).hist.drop_last() =~= p.hist);
}

/// What a wall does: one wall leaves the mover's hand and stands on the board where it says, no
/// pawn moves, and the other side is to move.
pub proof fn law_wall_leaves_the_hand(p: game::Position, t: int, s: int)
    requires
        game::position_ok(p),
        t == 0 || t == 1,
        0 <= s < 64,
    ensures
        ({
            let q = game::played(p, moves::wall_move_id(t, s));
            &&& q.p0 == p.p0 && q.p1 == p.p1
            &&& q.turn != p.turn
            &&& q.turn == 0 || q.turn == 1
            &&& q.wl0 + q.wl1 == p.wl0 + p.wl1 - 1
            &&& p.turn == 0 ==> q.wl1 == p.wl1
            &&& p.turn == 1 ==> q.wl0 == p.wl0
            &&& forall|k: int|
                0 <= k < 64 ==> (#[trigger] q.w.hw[k] != 0) == (p.w.hw[k] != 0 || (t == 0 && k == s))
            &&& forall|k: int|
                0 <= k < 64 ==> (#[trigger] q.w.vw[k] != 0) == (p.w.vw[k] != 0 || (t == 1 && k == s))
            &&& q.hist.len() == p.hist.len() + 1
            &&& q.stamp == p.stamp + 1
        }),
{
}

/// A game that goes on is ended by the mover alone, with a pawn on the mover's own last row.
pub proof fn law_only_the_mover_wins(p: game::Position, m: int)
    requires
        game::position_ok(p),
        game::winner_of(p) < 0,
        0 <= m < 209,
    ensures
        ({
            let w = game::winner_of(game::played(p, m));
            &&& w < 0 || w == p.turn
            &&& w == p.turn <==> m < 81 && on_last_row(p.turn, m)
        }),
{
}

/// A game is over exactly where a pawn stands on its last row, and its owner has won.
pub proof fn law_winner_stands_on_the_last_row(p: game::Position)
    requires
        game::position_ok(p),
    ensures
        game::winner_of(p) >= 0 <==> on_last_row(0, p.p0) || on_last_row(1, p.p1),
        game::winner_of(p) == 0 ==> on_last_row(0, p.p0),
        game::winner_of(p) == 1 ==> on_last_row(1, p.p1),
        game::winner_of(p) <= 1,
        forall|side: int, cell: int|
            (side == 0 || side == 1) && 0 <= cell < 81 ==> (#[trigger] board::is_goal(side, cell)
                <==> on_last_row(side, cell)),
{
}

/// Two positions with the same walls, pawns and side to move have the same key, whatever was
/// played before.
pub proof fn law_key_is_of_what_stands_on_the_board(p: game::Position, q: game::Position)
    requires
        game::position_ok(p),
        game::position_ok(q),
        p.w == q.w,
        p.p0 == q.p0,
        p.p1 == q.p1,
        p.turn == q.turn,
    ensures
        p.hash_lo == q.hash_lo,
        p.hash_hi == q.hash_hi,
{
}

/// Four pawn moves that lead both pawns back repeat the position. After a wall no position of
/// the game can come back.
pub proof fn law_walking_back_repeats(p: game::Position, a: int, b: int, t: int, s: int)
    requires
        game::position_ok(p),
        p.hist.len() + 4 <= game::MAX_HISTORY,
        0 <= a < 81,
        0 <= b < 81,
        t == 0 || t == 1,
        0 <= s < 64,
    ensures
        ({
            let me = if p.turn == 0 {
                p.p0
            } else {
                p.p1
            };
            let opp = if p.turn == 0 {
                p.p1
            } else {
                p.p0
            };
            let q = game::played(
                game::played(game::played(game::played(p, a), b), me),
                opp,
            );
            &&& q.w == p.w && q.p0 == p.p0 && q.p1 == p.p1 && q.turn == p.turn
            &&& game::repeats_history(q)
        }),
        !game::repeats_history(game::played(p, moves::wall_move_id(t, s))),
{
    let me = if p.turn == 0 {
        p.p0
    } else {
        p.p1
    };
    let opp = if p.turn == 0 {
        p.p1
    } else {
        p.p0
    };
    let q1 = game::played(p, a);
    let q2 = game::played(q1, b);
    let q3 = game::played(q2, me);
    let q = game::played(q3, opp);
    assert(q1.hist[p.hist.len() as int].hash_lo == p.hash_lo);
    assert(q.hist[p.hist.len() as int] == q1.hist[p.hist.len() as int]);
    assert(q.last_wall_ply == p.last_wall_ply);
}

/// A repetition is of an earlier position with the same side to move: not of the one just
/// left, nor of one before the last wall.
pub proof fn law_repetition_is_of_an_earlier_position(p: game::Position)
    requires
        game::position_ok(p),
        game::repeats_history(p),
    ensures
        exists|i: int|
            0 <= i < p.hist.len() - 1 && p.last_wall_ply <= i && (#[trigger] p.hist[i]).hash_lo
                == p.hash_lo && p.hist[i].hash_hi == p.hash_hi,
{
}

/// How a move is spelled: the letter counts the columns from the left, the digit the ranks from
/// player 0's side, so that player 0 walks up to rank nine; a wall is spelled by the cell at its
/// lower left corner.
pub proof fn law_spelling_follows_the_board(m: int, s: int)
    requires
        0 <= m < 81,
        0 <= s < 64,
    ensures
        moves::algebraic(m).len() == 2,
        moves::algebraic(m)[0] as int - 'a' as int == m % 9,
        moves::algebraic(m)[1] as int - '1' as int == 8 - m / 9,
        on_last_row(0, m) <==> moves::algebraic(m)[1] == '9',
        on_last_row(1, m) <==> moves::algebraic(m)[1] == '1',
        moves::algebraic(moves::wall_move_id(0, s)).len() == 3,
        moves::algebraic(moves::wall_move_id(1, s)).len() == 3,
        // The cell below the middle and to its left has the wall's own letter and digit.
        moves::algebraic(moves::wall_move_id(0, s)).take(2) == moves::algebraic(
            (s / 8 + 1) * 9 + s % 8,
        ),
        moves::algebraic(moves::wall_move_id(1, s)).take(2) == moves::algebraic(
            (s / 8 + 1) * 9 + s % 8,
        ),
        moves::algebraic(moves::wall_move_id(0, s))[2] == 'h',
        moves::algebraic(moves::wall_move_id(1, s))[2] == 'v',
{
    let cell = (s / 8 + 1) * 9 + s % 8;
    assert(cell / 9 == s / 8 + 1 && cell % 9 == s % 8);
    assert(0 <= cell < 81);
    assert(moves::algebraic(moves::wall_move_id(0, s)).take(2) =~= moves::algebraic(cell));
    assert(moves::algebraic(moves::wall_move_id(1, s)).take(2) =~= moves::algebraic(cell));
}

} // verus!

//! What routes and corridors are on the board: which walls can stand on an edge, when a runner
//! arrives, where shortest ways lead, and which walls touch them.

use crate::board;
use crate::corridor;
use crate::game;
use crate::game::GameState;
use crate::laws_rules;
use crate::movegen;
use crate::moves;
use crate::routes;
use vstd::prelude::*;

verus! {

/// The walls listed for the edge between two neighbours are exactly those that would keep the two
/// cells apart.
pub proof fn law_blocking_walls_stand_on_the_edge(a: int, b: int, t: int, r: int, c: int)
    requires
        0 <= a < 81,
        0 <= b < 81,
        laws_rules::adjacent(a, b),
        t == 0 || t == 1,
        0 <= r < 8,
        0 <= c < 8,
    ensures
        corridor::blocking_walls(a, b).contains(corridor::wall_code(t, r * 8 + c) as i16)
            <==> laws_rules::wall_between(t, r, c, a, b),
        1 <= corridor::blocking_walls(a, b).len() <= 2,
{
    let low = if a <= b {
        a
    } else {
        b
    };
    let row = low / 9;
    let col = low % 9;
    let list = corridor::blocking_walls(a, b);
    let x = corridor::wall_code(t, r * 8 + c) as i16;
    assert(0 <= r * 8 + c < 64);
    if a % 9 == b % 9 {
        assert(row < 8);
        let first: Seq<i16> = if col < 8 {
            seq![(100 + row * 8 + col) as i16]
        } else {
            Seq::empty()
        };
        let second: Seq<i16> = if col > 0 {
            seq![(100 + row * 8 + col - 1) as i16]
        } else {
            Seq::empty()
        };
        assert(list =~= first + second);
        lemma_two(first, second, x);
    } else {
        assert(a / 9 == b / 9);
        assert(col < 8);
        let first: Seq<i16> = if row < 8 {
            seq![(200 + row * 8 + col) as i16]
        } else {
            Seq::empty()
        };
        let second: Seq<i16> = if row > 0 {
            seq![(200 + (row - 1) * 8 + col) as i16]
        } else {
            Seq::empty()
        };
        assert(list =~= first + second);
        lemma_two(first, second, x);
    }
}

/// What two lists of at most one hold together.
proof fn lemma_two(first: Seq<i16>, second: Seq<i16>, x: i16)
    requires
        first.len() <= 1,
        second.len() <= 1,
    ensures
        (first + second).contains(x) <==> (first.len() == 1 && first[0] == x) || (second.len() == 1
            && second[0] == x),
{
    let all = first + second;
    if first.len() == 1 && first[0] == x {
        assert(all[0] == x);
    }
    if second.len() == 1 && second[0] == x {
        assert(all[first.len() as int] == x);
    }
}

/// An edge is the same from both sides, and is that of no other two cells.
pub proof fn law_edges_have_no_direction(a: int, b: int, x: int, y: int)
    requires
        0 <= a < 81,
        0 <= b < 81,
        0 <= x < 81,
        0 <= y < 81,
    ensures
        corridor::edge_between(a, b) == corridor::edge_between(b, a),
        corridor::edge_between(a, b) == corridor::edge_between(x, y) <==> (a == x && b == y) || (a
            == y && b == x),
{
}

/// A runner arrives with the first ply by which it has had as many turns as it needs: the side
/// to move has the first, third and so on, the other the second, fourth and so on.
pub proof fn law_arrival(player: int, stm: int, dist: int, n: int)
    requires
        player == 0 || player == 1,
        stm == 0 || stm == 1,
        0 <= dist,
        0 <= n,
    ensures
        player == stm ==> (n >= corridor::terminal_ply(player, stm, dist) <==> (n + 1) / 2 >= dist),
        player != stm ==> (n >= corridor::terminal_ply(player, stm, dist) <==> n / 2 >= dist),
{
}

/// A certified runner is no further from home than its opponent, and cannot do without any edge
/// of its path.
pub proof fn law_certified_runner(g: GameState, i: int)
    requires
        corridor::certified_margin(g),
        0 <= i < corridor::runner_path(g, 0).len() - 1,
    ensures
        board::goal_distance(g.topo(), 0, g@.p0) <= board::goal_distance(g.topo(), 1, g@.p1),
        !corridor::reaches_avoiding(
            g.topo(),
            0,
            g@.p0,
            corridor::path_edge(corridor::runner_path(g, 0), i),
        ),
{
}

/// Avoiding an edge is harder than not avoiding it.
pub proof fn law_avoiding_is_harder(w: board::Topo, side: int, cell: int, e: corridor::BoardEdge, n: nat)
    requires
        corridor::goal_within_avoiding(w, side, cell, e, n),
    ensures
        board::goal_within(w, side, cell, n),
    decreases n,
{
    if !board::is_goal(side, cell) {
        let d = choose|d: int|
            0 <= d < 4 && #[trigger] board::step_open(w, cell, d) && corridor::edge_between(
                cell,
                cell + board::delta(d),
            ) != e && corridor::goal_within_avoiding(
                w,
                side,
                cell + board::delta(d),
                e,
                (n - 1) as nat,
            );
        law_avoiding_is_harder(w, side, cell + board::delta(d), e, (n - 1) as nat);
    }
}

/// A shortest route runs from the pawn home: from each of its cells but the pawn's own an open
/// step leads back to one that is a step further from home, and from each but the last an open
/// step leads on to one that is a step nearer.
pub proof fn law_routes_run_home(p: game::Position, side: int, f: Seq<u8>, c: int)
    requires
        board::topo_ok(p.w),
        side == 0 || side == 1,
        board::dist_field(p.w, side, f),
        0 <= c < 81,
        board::on_route(p.w, f, game::pawn_of(p, side), c),
        f[c] < 255,
    ensures
        c != game::pawn_of(p, side) ==> exists|b: int| #[trigger]
            laws_rules::edge_open(p.w, c, b) && f[b] == f[c] + 1 && board::on_route(
                p.w,
                f,
                game::pawn_of(p, side),
                b,
            ),
        f[c] > 0 ==> exists|b: int| #[trigger]
            laws_rules::edge_open(p.w, c, b) && f[b] == f[c] - 1 && board::on_route(
                p.w,
                f,
                game::pawn_of(p, side),
                b,
            ),
{
    let from = game::pawn_of(p, side);
    if c != from {
        let d = choose|d: int|
            0 <= d < 4 && #[trigger] board::step_open(p.w, c, d) && f[c + board::delta(d)] == f[c] + 1
                && board::on_route(p.w, f, from, c + board::delta(d));
        assert(laws_rules::edge_open(p.w, c, c + board::delta(d)));
    }
    if f[c] > 0 {
        laws_rules::law_distances_are_shortest_walks(p.w, side, f, c, c);
        let b = choose|b: int| #[trigger] laws_rules::edge_open(p.w, c, b) && f[b] == f[c] - 1;
        let d = choose|d: int|
            0 <= d < 4 && #[trigger] board::step_open(p.w, c, d) && b == c + board::delta(d);
        board::lemma_step_on_board(p.w, c, d);
        board::lemma_step_symmetric(p.w, c, d);
        let back = board::opposite(d);
        assert(board::step_open(p.w, b, back));
        assert(b + board::delta(back) == c);
        assert(board::on_route(p.w, f, from, b));
    }
}

/// A wall that keeps a route's cell apart from another touches the route.
pub proof fn law_walls_on_a_route_touch_it(p: game::Position, side: int, t: int, r: int, c: int, a: int, b: int)
    requires
        t == 0 || t == 1,
        0 <= r < 8,
        0 <= c < 8,
        laws_rules::wall_between(t, r, c, a, b),
        routes::on_shortest_route(p, side, a) || routes::on_shortest_route(p, side, b),
    ensures
        routes::touches_route_of(p, side, moves::wall_move_id(t, r * 8 + c)),
{
    let s = r * 8 + c;
    assert(s / 8 == r && s % 8 == c);
    assert(moves::slot_of(moves::wall_move_id(t, s)) == s);
    assert((r + 1) * 9 == r * 9 + 9);
}

/// A wall that keeps apart a cell to which a pawn can come is not dead.
pub proof fn law_walls_in_reach_are_alive(p: game::Position, t: int, r: int, c: int, a: int, b: int)
    requires
        t == 0 || t == 1,
        0 <= r < 8,
        0 <= c < 8,
        laws_rules::wall_between(t, r, c, a, b),
        movegen::connected(p.w, p.p0, a) || movegen::connected(p.w, p.p1, a),
    ensures
        !movegen::in_dead_zone(p, r * 8 + c),
{
    let s = r * 8 + c;
    assert(s / 8 == r && s % 8 == c);
    let k = a - (r * 9 + c);
    let i: int = if k == 0 {
        0
    } else if k == 1 {
        1
    } else if k == 9 {
        2
    } else {
        3
    };
    assert(movegen::touched(s, i) == a);
}

/// A pawn can come to where it stands, and from where it can come to wherever a step leads.
pub proof fn law_reach_grows(w: board::Topo, from: int, c: int, d: int)
    requires
        board::topo_ok(w),
        0 <= c < 81,
        0 <= d < 4,
        board::step_open(w, c, d),
        movegen::connected(w, from, c),
    ensures
        movegen::connected(w, from, from),
        movegen::connected(w, from, c + board::delta(d)),
{
    assert(movegen::steps_from(w, from, from, 0));
    let n = choose|n: nat| movegen::steps_from(w, from, c, n);
    let b = c + board::delta(d);
    board::lemma_step_on_board(w, c, d);
    board::lemma_step_symmetric(w, c, d);
    let back = board::opposite(d);
    assert(board::step_open(w, b, back));
    assert(b + board::delta(back) == c);
    assert(movegen::steps_from(w, from, b, n + 1));
}

} // verus!

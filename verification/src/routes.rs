//! Shortest-route cells, the cells next to them, and where the two players meet.

use crate::board;
use crate::game;
use crate::game::GameState;
use crate::moves;
use crate::moves::WallOrientation;
use vstd::prelude::*;

verus! {

/// The goal-distance field of a side.
pub open spec fn field_of(w: board::Topo, side: int) -> Seq<u8> {
    choose|f: Seq<u8>| board::dist_field(w, side, f)
}

/// The cell lies on a shortest goal route of the side's pawn.
pub open spec fn on_shortest_route(p: game::Position, side: int, c: int) -> bool {
    let f = field_of(p.w, side);
    f[game::pawn_of(p, side)] < 255 && board::on_route(p.w, f, game::pawn_of(p, side), c)
}

/// One open step from a route cell, and none itself.
pub open spec fn beside_route(p: game::Position, side: int, c: int) -> bool {
    !on_shortest_route(p, side, c) && exists|d: int|
        0 <= d < 4 && #[trigger] board::step_open(p.w, c, d) && on_shortest_route(
            p,
            side,
            c + board::delta(d),
        )
}

/// Both players have a route there or next to it.
pub open spec fn is_contested(p: game::Position, c: int) -> bool {
    &&& on_shortest_route(p, 0, c) || beside_route(p, 0, c)
    &&& on_shortest_route(p, 1, c) || beside_route(p, 1, c)
}

/// A computed field is the side's field.
pub proof fn lemma_field_of(w: board::Topo, side: int, f: Seq<u8>)
    requires
        board::topo_ok(w),
        0 <= side <= 1,
        board::dist_field(w, side, f),
    ensures
        f == field_of(w, side),
{
    board::law_dist_field_unique(w, side, f, field_of(w, side));
}

/// The shortest-route cells of a side, from its distance field.
pub fn route_cells(g: &GameState, f: &[u8; 81], side: usize) -> (mask: [u8; 81])
    requires
        g.wf(),
        side < 2,
        board::dist_field(g.topo(), side as int, f@),
    ensures
        forall|c: int|
            0 <= c < 81 ==> (#[trigger] mask[c] != 0) == on_shortest_route(g@, side as int, c),
{
    proof {
        lemma_field_of(g.topo(), side as int, f@);
    }
    let from: usize = g.pawn[side];
    if f[from] < 255 {
        board::route_mask(&g.hw, &g.vw, f, from)
    } else {
        [0u8; 81]
    }
}

fn has_route_neighbour(g: &GameState, route: &[u8; 81], cell: usize, side: Ghost<int>) -> (yes: bool)
    requires
        g.wf(),
        cell < 81,
        forall|c: int| 0 <= c < 81 ==> (#[trigger] route[c] != 0) == on_shortest_route(g@, side@, c),
    ensures
        yes == exists|d: int|
            0 <= d < 4 && #[trigger] board::step_open(g@.w, cell as int, d) && on_shortest_route(
                g@,
                side@,
                cell + board::delta(d),
            ),
{
    let mut d: usize = 0;
    while d < 4
        invariant
            g.wf(),
            cell < 81,
            d <= 4,
            forall|c: int|
                0 <= c < 81 ==> (#[trigger] route[c] != 0) == on_shortest_route(g@, side@, c),
            forall|e: int|
                0 <= e < d ==> !(#[trigger] board::step_open(g@.w, cell as int, e)
                    && on_shortest_route(g@, side@, cell + board::delta(e))),
        decreases 4 - d,
    {
        if board::can_step(&g.hw, &g.vw, cell, d) {
            proof {
                board::lemma_step_on_board(g@.w, cell as int, d as int);
            }
            let to: usize = board::step_to(cell, d);
            if route[to] != 0 {
                return true;
            }
        }
        d += 1;
    }
    false
}

/// The cells beside a side's routes.
pub fn flank_cells(g: &GameState, f: &[u8; 81], side: usize) -> (mask: [u8; 81])
    requires
        g.wf(),
        side < 2,
        board::dist_field(g.topo(), side as int, f@),
    ensures
        forall|c: int| 0 <= c < 81 ==> (#[trigger] mask[c] != 0) == beside_route(g@, side as int, c),
{
    let route = route_cells(g, f, side);
    let mut mask: [u8; 81] = [0u8; 81];
    let mut c: usize = 0;
    while c < 81
        invariant
            g.wf(),
            c <= 81,
            forall|k: int|
                0 <= k < 81 ==> (#[trigger] route[k] != 0) == on_shortest_route(
                    g@,
                    side as int,
                    k,
                ),
            forall|k: int|
                0 <= k < c ==> (#[trigger] mask[k] != 0) == beside_route(g@, side as int, k),
            forall|k: int| c <= k < 81 ==> #[trigger] mask[k] == 0,
        decreases 81 - c,
    {
        if route[c] == 0 && has_route_neighbour(g, &route, c, Ghost(side as int)) {
            mask[c] = 1;
        }
        c += 1;
    }
    mask
}

/// What the route features of the evaluation look at.
pub struct RouteCells {
    pub route0: [u8; 81],
    pub route1: [u8; 81],
    pub near0: [u8; 81],
    pub near1: [u8; 81],
    pub contested: [u8; 81],
}

/// The cells say what they should of a position.
pub open spec fn describes(r: RouteCells, p: game::Position) -> bool {
    forall|c: int| #![trigger r.contested[c]]
        0 <= c < 81 ==> {
            &&& (r.route0[c] != 0) == on_shortest_route(p, 0, c)
            &&& (r.route1[c] != 0) == on_shortest_route(p, 1, c)
            &&& (r.near0[c] != 0) == beside_route(p, 0, c)
            &&& (r.near1[c] != 0) == beside_route(p, 1, c)
            &&& (r.contested[c] != 0) == is_contested(p, c)
        }
}

/// Route cells of both players.
pub fn current_route_cells(g: &GameState) -> (r: RouteCells)
    requires
        g.wf(),
    ensures
        describes(r, g@),
{
    let f0 = board::compute_dist(&g.hw, &g.vw, 0);
    let f1 = board::compute_dist(&g.hw, &g.vw, 1);
    let route0 = route_cells(g, &f0, 0);
    let route1 = route_cells(g, &f1, 1);
    let near0 = flank_cells(g, &f0, 0);
    let near1 = flank_cells(g, &f1, 1);
    let mut contested: [u8; 81] = [0u8; 81];
    let mut c: usize = 0;
    while c < 81
        invariant
            c <= 81,
            forall|k: int|
                0 <= k < 81 ==> (#[trigger] route0[k] != 0) == on_shortest_route(g@, 0, k),
            forall|k: int|
                0 <= k < 81 ==> (#[trigger] route1[k] != 0) == on_shortest_route(g@, 1, k),
            forall|k: int| 0 <= k < 81 ==> (#[trigger] near0[k] != 0) == beside_route(g@, 0, k),
            forall|k: int| 0 <= k < 81 ==> (#[trigger] near1[k] != 0) == beside_route(g@, 1, k),
            forall|k: int|
                0 <= k < c ==> (#[trigger] contested[k] != 0) == is_contested(g@, k),
            forall|k: int| c <= k < 81 ==> #[trigger] contested[k] == 0,
        decreases 81 - c,
    {
        if (route0[c] != 0 || near0[c] != 0) && (route1[c] != 0 || near1[c] != 0) {
            contested[c] = 1;
        }
        c += 1;
    }
    let r = RouteCells { route0, route1, near0, near1, contested };
    proof {
        assert forall|c: int| #![trigger r.contested[c]] 0 <= c < 81 implies {
            &&& (r.route0[c] != 0) == on_shortest_route(g@, 0, c)
            &&& (r.route1[c] != 0) == on_shortest_route(g@, 1, c)
            &&& (r.near0[c] != 0) == beside_route(g@, 0, c)
            &&& (r.near1[c] != 0) == beside_route(g@, 1, c)
            &&& (r.contested[c] != 0) == is_contested(g@, c)
        } by {
            assert((route0[c] != 0) == on_shortest_route(g@, 0, c));
            assert((route1[c] != 0) == on_shortest_route(g@, 1, c));
            assert((near0[c] != 0) == beside_route(g@, 0, c));
            assert((near1[c] != 0) == beside_route(g@, 1, c));
        }
    }
    r
}

/// A pawn that can reach its goal stands on its own route, and no cell is both on and
/// beside a route.
pub proof fn law_pawn_is_on_its_route(p: game::Position, side: int, c: int)
    requires
        0 <= side <= 1,
        field_of(p.w, side)[game::pawn_of(p, side)] < 255,
    ensures
        on_shortest_route(p, side, game::pawn_of(p, side)),
        !(on_shortest_route(p, side, c) && beside_route(p, side, c)),
{
}

/// A route of the side runs through one of the four cells around a wall.
pub open spec fn touches_route_of(p: game::Position, side: int, m: int) -> bool {
    let r = moves::slot_of(m) / 8;
    let c = moves::slot_of(m) % 8;
    on_shortest_route(p, side, r * 9 + c) || on_shortest_route(p, side, r * 9 + c + 1)
        || on_shortest_route(p, side, (r + 1) * 9 + c) || on_shortest_route(
        p,
        side,
        (r + 1) * 9 + c + 1,
    )
}

/// Walls next to a shortest route of either player, by move identifier.
pub fn route_touches(g: &GameState, f0: &[u8; 81], f1: &[u8; 81]) -> (touch: Vec<bool>)
    requires
        g.wf(),
        board::dist_field(g.topo(), 0, f0@),
        board::dist_field(g.topo(), 1, f1@),
    ensures
        touch@.len() == 256,
        forall|m: int|
            0 <= m < 256 ==> #[trigger] touch@[m] == (moves::wall_id(m) && (touches_route_of(g@, 0, m)
                || touches_route_of(g@, 1, m))),
{
    let route0 = route_cells(g, f0, 0);
    let route1 = route_cells(g, f1, 1);
    let mut touch: Vec<bool> = Vec::new();
    let mut m: usize = 0;
    while m < 256
        invariant
            m <= 256,
            touch@.len() == m,
            forall|c: int|
                0 <= c < 81 ==> (#[trigger] route0[c] != 0) == on_shortest_route(g@, 0, c),
            forall|c: int|
                0 <= c < 81 ==> (#[trigger] route1[c] != 0) == on_shortest_route(g@, 1, c),
            forall|k: int|
                0 <= k < m ==> #[trigger] touch@[k] == (moves::wall_id(k) && (touches_route_of(
                    g@,
                    0,
                    k,
                ) || touches_route_of(g@, 1, k))),
        decreases 256 - m,
    {
        let id: i16 = m as i16;
        let hit: bool = if moves::is_wall_move(id) {
            let slot: usize = moves::wall_slot(id);
            let orientation = if moves::is_hwall_move(id) {
                WallOrientation::Horizontal
            } else {
                WallOrientation::Vertical
            };
            moves::wall_touches_route(
                (slot / 8) as u8,
                (slot % 8) as u8,
                orientation,
                &route0,
                &route1,
            )
        } else {
            false
        };
        touch.push(hit);
        m += 1;
    }
    touch
}

} // verus!

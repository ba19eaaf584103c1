//! Move generation: pawn moves, then walls slot by slot, horizontal before vertical.
//! At the root walls are fully legal; inside the tree only their geometry is checked and
//! filters may drop some.

use crate::board;
use crate::dist_cache;
use crate::game;
use crate::game::GameState;
use crate::moves;
use vstd::prelude::*;

verus! {

/// Legal walls in the first `n` slots.
pub open spec fn legal_walls(p: game::Position, n: int) -> Seq<i16>
    decreases n,
{
    if n <= 0 {
        Seq::empty()
    } else {
        legal_walls(p, n - 1) + wall_if(game::wall_is_legal(p, 0, n - 1), 0, n - 1) + wall_if(
            game::wall_is_legal(p, 1, n - 1),
            1,
            n - 1,
        )
    }
}

/// One wall or none.
pub open spec fn wall_if(take: bool, wall_type: int, slot: int) -> Seq<i16> {
    if take {
        seq![moves::wall_move_id(wall_type, slot) as i16]
    } else {
        Seq::empty()
    }
}

/// Walls in the first `n` slots that fit and are marked in `keep`.
pub open spec fn kept_walls(w: board::Topo, keep: Seq<bool>, n: int) -> Seq<i16>
    decreases n,
{
    if n <= 0 {
        Seq::empty()
    } else {
        kept_walls(w, keep, n - 1) + wall_if(
            game::fits(w, 0, n - 1) && keep[moves::wall_move_id(0, n - 1)],
            0,
            n - 1,
        ) + wall_if(
            game::fits(w, 1, n - 1) && keep[moves::wall_move_id(1, n - 1)],
            1,
            n - 1,
        )
    }
}

/// `c` is at most `n` steps from `from`.
pub open spec fn steps_from(w: board::Topo, from: int, c: int, n: nat) -> bool
    decreases n,
{
    c == from || (n > 0 && exists|d: int|
        0 <= d < 4 && #[trigger] board::step_open(w, c, d) && steps_from(
            w,
            from,
            c + board::delta(d),
            (n - 1) as nat,
        ))
}

/// A pawn on `from` can ever come to `c`.
pub open spec fn connected(w: board::Topo, from: int, c: int) -> bool {
    exists|n: nat| steps_from(w, from, c, n)
}

/// Touched cells of a wall: the four around its middle.
pub open spec fn touched(slot: int, k: int) -> int {
    (slot / 8) * 9 + slot % 8 + if k == 0 {
        0int
    } else if k == 1 {
        1int
    } else if k == 2 {
        9int
    } else {
        10int
    }
}

/// No pawn can come to any cell the wall touches.
pub open spec fn in_dead_zone(p: game::Position, slot: int) -> bool {
    forall|k: int|
        0 <= k < 4 ==> !connected(p.w, p.p0, #[trigger] touched(slot, k)) && !connected(
            p.w,
            p.p1,
            touched(slot, k),
        )
}

/// A set that holds `from` and is closed under steps holds everything connected.
proof fn lemma_closed_covers(w: board::Topo, from: int, mark: Seq<bool>, c: int, n: nat)
    requires
        mark.len() == 81,
        0 <= from < 81,
        mark[from],
        0 <= c < 81,
        steps_from(w, from, c, n),
        forall|x: int, d: int|
            0 <= x < 81 && 0 <= d < 4 && mark[x] && #[trigger] board::step_open(w, x, d)
                ==> mark[x + board::delta(d)],
    ensures
        mark[c],
    decreases n,
{
    if c != from {
        let d = choose|d: int|
            0 <= d < 4 && #[trigger] board::step_open(w, c, d) && steps_from(
                w,
                from,
                c + board::delta(d),
                (n - 1) as nat,
            );
        board::lemma_step_on_board(w, c, d);
        board::lemma_step_symmetric(w, c, d);
        lemma_closed_covers(w, from, mark, c + board::delta(d), (n - 1) as nat);
        let back = board::opposite(d);
        assert(0 <= back < 4);
        assert(board::step_open(w, c + board::delta(d), back));
    }
}

/// Unmarked cells among the first `n`.
spec fn unmarked(mark: Seq<bool>, n: int) -> int
    decreases n,
{
    if n <= 0 {
        0
    } else {
        unmarked(mark, n - 1) + if mark[n - 1] {
            0int
        } else {
            1int
        }
    }
}

proof fn lemma_unmarked(mark: Seq<bool>, i: int, n: int)
    requires
        0 <= n <= mark.len(),
        0 <= i < mark.len(),
        !mark[i],
    ensures
        0 <= unmarked(mark, n) <= n,
        unmarked(mark.update(i, true), n) == unmarked(mark, n) - if i < n {
            1int
        } else {
            0int
        },
    decreases n,
{
    if n > 0 {
        lemma_unmarked(mark, i, n - 1);
    }
}

proof fn lemma_unmarked_bounds(mark: Seq<bool>, n: int)
    requires
        0 <= n <= mark.len(),
    ensures
        0 <= unmarked(mark, n) <= n,
    decreases n,
{
    if n > 0 {
        lemma_unmarked_bounds(mark, n - 1);
    }
}

/// Cells a pawn on `from` can come to.
pub fn reachable_mask(hw: &[u8; 64], vw: &[u8; 64], from: usize) -> (mark: [bool; 81])
    requires
        from < 81,
    ensures
        forall|c: int|
            0 <= c < 81 ==> #[trigger] mark@[c] == connected(
                (board::Topo { hw: hw@, vw: vw@ }),
                from as int,
                c,
            ),
{
    let ghost w = board::Topo { hw: hw@, vw: vw@ };
    let ghost src = from as int;
    let mut mark: [bool; 81] = [false; 81];
    mark[from] = true;
    let mut todo: Vec<usize> = Vec::new();
    todo.push(from);
    assert(todo@[0] == from);
    assert(steps_from(w, src, src, 0));
    proof {
        lemma_unmarked_bounds(mark@, 81);
    }
    while todo.len() > 0
        invariant
            w == (board::Topo { hw: hw@, vw: vw@ }),
            src == from as int,
            0 <= src < 81,
            mark@[src],
            forall|c: int| 0 <= c < 81 && mark@[c] ==> #[trigger] connected(w, src, c),
            forall|i: int| 0 <= i < todo@.len() ==> 0 <= #[trigger] todo@[i] < 81 && mark@[todo@[i] as int],
            forall|x: int, d: int|
                0 <= x < 81 && 0 <= d < 4 && mark@[x] && #[trigger] board::step_open(w, x, d)
                    ==> mark@[x + board::delta(d)] || (exists|i: int|
                    0 <= i < todo@.len() && #[trigger] todo@[i] == x),
        decreases unmarked(mark@, 81) + todo@.len(),
    {
        proof {
            lemma_unmarked_bounds(mark@, 81);
        }
        let ghost before = todo@;
        let x: usize = todo.pop().unwrap();
        assert(before.last() == x);
        let ghost rest = todo@;
        let ghost mark0 = mark@;
        let mut d: usize = 0;
        while d < 4
            invariant
                d <= 4,
                w == (board::Topo { hw: hw@, vw: vw@ }),
                src == from as int,
                0 <= src < 81,
                x < 81,
                mark@[x as int],
                mark@[src],
                rest == before.drop_last(),
                before.last() == x,
                before.len() > 0,
                mark0.len() == 81,
                forall|c: int| 0 <= c < 81 && mark@[c] ==> #[trigger] connected(w, src, c),
                forall|i: int|
                    0 <= i < todo@.len() ==> 0 <= #[trigger] todo@[i] < 81
                        && mark@[todo@[i] as int],
                forall|c: int| 0 <= c < 81 && mark0[c] ==> #[trigger] mark@[c],
                forall|c: int|
                    0 <= c < 81 && #[trigger] mark@[c] ==> mark0[c] || (exists|i: int|
                        rest.len() <= i < todo@.len() && #[trigger] todo@[i] == c),
                rest.len() <= todo@.len(),
                forall|i: int| 0 <= i < rest.len() ==> #[trigger] todo@[i] == rest[i],
                forall|e: int|
                    0 <= e < d && #[trigger] board::step_open(w, x as int, e) ==> mark@[x
                        + board::delta(e)],
                unmarked(mark@, 81) + todo@.len() == unmarked(mark0, 81) + rest.len(),
                forall|y: int, e: int|
                    0 <= y < 81 && 0 <= e < 4 && mark0[y] && #[trigger] board::step_open(w, y, e)
                        ==> mark0[y + board::delta(e)] || (exists|i: int|
                        0 <= i < before.len() && #[trigger] before[i] == y),
            decreases 4 - d,
        {
            if board::can_step(hw, vw, x, d) {
                proof {
                    board::lemma_step_on_board(w, x as int, d as int);
                }
                let to: usize = board::step_to(x, d);
                if !mark[to] {
                    proof {
                        lemma_unmarked(mark@, to as int, 81);
                        board::lemma_step_symmetric(w, x as int, d as int);
                        assert(connected(w, src, x as int));
                        let n = choose|n: nat| steps_from(w, src, x as int, n);
                        let back = board::opposite(d as int);
                        assert(board::step_open(w, to as int, back));
                        assert(steps_from(w, src, to as int, (n + 1) as nat));
                    }
                    let ghost todo0 = todo@;
                    mark[to] = true;
                    todo.push(to);
                    assert(todo@[todo@.len() - 1] == to);
                    assert forall|c: int| 0 <= c < 81 && #[trigger] mark@[c] implies mark0[c] || (
                    exists|i: int| rest.len() <= i < todo@.len() && #[trigger] todo@[i] == c) by {
                        if c != to && !mark0[c] {
                            let i = choose|i: int|
                                rest.len() <= i < todo0.len() && #[trigger] todo0[i] == c;
                            assert(todo@[i] == c);
                        }
                    }
                }
            }
            d += 1;
        }
        assert forall|y: int, e: int|
            0 <= y < 81 && 0 <= e < 4 && mark@[y] && #[trigger] board::step_open(
                w,
                y,
                e,
            ) implies mark@[y + board::delta(e)] || (exists|i: int|
            0 <= i < todo@.len() && #[trigger] todo@[i] == y) by {
            board::lemma_step_on_board(w, y, e);
            if y != x {
                if mark0[y] {
                    if !mark0[y + board::delta(e)] {
                        let i = choose|i: int| 0 <= i < before.len() && #[trigger] before[i] == y;
                        assert(rest[i] == y);
                        assert(todo@[i] == y);
                    } else {
                        assert(mark@[y + board::delta(e)]);
                    }
                }
            }
        }
    }
    assert forall|c: int| 0 <= c < 81 implies #[trigger] mark@[c] == connected(w, src, c) by {
        if connected(w, src, c) {
            let n = choose|n: nat| steps_from(w, src, c, n);
            lemma_closed_covers(w, src, mark@, c, n);
        }
    }
    mark
}

/// Does the wall touch no cell of the mask?
pub fn wall_in_dead_zone(slot: usize, reach0: &[bool; 81], reach1: &[bool; 81]) -> (dead: bool)
    requires
        slot < 64,
    ensures
        dead == forall|k: int|
            0 <= k < 4 ==> !reach0@[#[trigger] touched(slot as int, k)] && !reach1@[touched(
                slot as int,
                k,
            )],
{
    let corner: usize = (slot / 8) * 9 + slot % 8;
    assert(touched(slot as int, 0) == corner);
    assert(touched(slot as int, 1) == corner + 1);
    assert(touched(slot as int, 2) == corner + 9);
    assert(touched(slot as int, 3) == corner + 10);
    let dead: bool = !reach0[corner] && !reach1[corner] && !reach0[corner + 1] && !reach1[corner + 1]
        && !reach0[corner + 9] && !reach1[corner + 9] && !reach0[corner + 10] && !reach1[corner
        + 10];
    dead
}

/// A wall that touches no cell a pawn can come to leaves that pawn's distance to every
/// goal as it was.
pub proof fn law_dead_wall_changes_nothing(w: board::Topo, m: int, side: int, from: int, n: nat)
    requires
        board::topo_ok(w),
        moves::wall_id(m),
        0 <= from < 81,
        forall|k: int| 0 <= k < 4 ==> !connected(w, from, #[trigger] touched(moves::slot_of(m), k)),
    ensures
        board::goal_within(game::with_wall(w, m), side, from, n) == board::goal_within(
            w,
            side,
            from,
            n,
        ),
{
    assert(steps_from(w, from, from, 0));
    lemma_dead_wall_walk(w, m, side, from, from, n);
}

proof fn lemma_dead_wall_walk(w: board::Topo, m: int, side: int, from: int, c: int, n: nat)
    requires
        board::topo_ok(w),
        moves::wall_id(m),
        0 <= from < 81,
        0 <= c < 81,
        connected(w, from, c),
        forall|k: int| 0 <= k < 4 ==> !connected(w, from, #[trigger] touched(moves::slot_of(m), k)),
    ensures
        board::goal_within(game::with_wall(w, m), side, c, n) == board::goal_within(w, side, c, n),
    decreases n,
{
    let after = game::with_wall(w, m);
    if n > 0 && !board::is_goal(side, c) {
        let s = moves::slot_of(m);
        assert(!connected(w, from, touched(s, 0)));
        assert(!connected(w, from, touched(s, 1)));
        assert(!connected(w, from, touched(s, 2)));
        assert(!connected(w, from, touched(s, 3)));
        assert forall|d: int| 0 <= d < 4 implies #[trigger] board::step_open(after, c, d)
            == board::step_open(w, c, d) && (board::step_open(w, c, d) ==> board::goal_within(
            after,
            side,
            c + board::delta(d),
            (n - 1) as nat,
        ) == board::goal_within(w, side, c + board::delta(d), (n - 1) as nat)) by {
            dist_cache::lemma_wall_takes_crossings(w, m, c, d);
            assert(!dist_cache::crosses(m, c, d)) by {
                assert(c != touched(s, 0) && c != touched(s, 1) && c != touched(s, 2) && c
                    != touched(s, 3));
            }
            if board::step_open(w, c, d) {
                board::lemma_step_on_board(w, c, d);
                board::lemma_step_symmetric(w, c, d);
                let k = choose|k: nat| steps_from(w, from, c, k);
                let to = c + board::delta(d);
                assert(board::step_open(w, to, board::opposite(d)));
                assert(steps_from(w, from, to, (k + 1) as nat));
                lemma_dead_wall_walk(w, m, side, from, to, (n - 1) as nat);
            }
        }
        if board::goal_within(after, side, c, n) {
            let d = choose|d: int|
                0 <= d < 4 && #[trigger] board::step_open(after, c, d) && board::goal_within(
                    after,
                    side,
                    c + board::delta(d),
                    (n - 1) as nat,
                );
            assert(board::step_open(w, c, d));
        }
        if board::goal_within(w, side, c, n) {
            let d = choose|d: int|
                0 <= d < 4 && #[trigger] board::step_open(w, c, d) && board::goal_within(
                    w,
                    side,
                    c + board::delta(d),
                    (n - 1) as nat,
                );
            assert(board::step_open(after, c, d));
        }
    }
}

/// Appends every legal wall.
fn push_legal_walls(g: &GameState, out: &mut Vec<i16>)
    requires
        g.wf(),
    ensures
        final(out)@ == old(out)@ + legal_walls(g@, 64),
{
    let ghost start = out@;
    let mut slot: usize = 0;
    assert(out@ =~= start + legal_walls(g@, 0));
    while slot < 64
        invariant
            slot <= 64,
            g.wf(),
            start == old(out)@,
            out@ == start + legal_walls(g@, slot as int),
        decreases 64 - slot,
    {
        if g.wall_legal(0, slot) {
            out.push(moves::wall_move(0, slot));
        }
        if g.wall_legal(1, slot) {
            out.push(moves::wall_move(1, slot));
        }
        slot += 1;
        assert(out@ =~= start + legal_walls(g@, slot as int));
    }
}

/// Appends every wall that fits and is marked.
fn push_kept_walls(g: &GameState, keep: &Vec<bool>, out: &mut Vec<i16>)
    requires
        g.wf(),
        keep@.len() == 256,
    ensures
        final(out)@ == old(out)@ + kept_walls(g.topo(), keep@, 64),
{
    let ghost start = out@;
    let mut slot: usize = 0;
    assert(out@ =~= start + kept_walls(g.topo(), keep@, 0));
    while slot < 64
        invariant
            slot <= 64,
            g.wf(),
            keep@.len() == 256,
            start == old(out)@,
            out@ == start + kept_walls(g.topo(), keep@, slot as int),
        decreases 64 - slot,
    {
        let h: i16 = moves::wall_move(0, slot);
        if g.wall_fits(0, slot) && keep[h as usize] {
            out.push(h);
        }
        let v: i16 = moves::wall_move(1, slot);
        if g.wall_fits(1, slot) && keep[v as usize] {
            out.push(v);
        }
        slot += 1;
        assert(out@ =~= start + kept_walls(g.topo(), keep@, slot as int));
    }
}

/// How walls are generated inside the tree.
#[derive(Clone, Copy, Debug, PartialEq, Eq, Structural)]
pub enum WallPolicy {
    /// Fully legal at every node.
    Legal,
    /// Geometry only; sealing walls are weeded out when they are searched.
    Lazy,
    /// Geometry and relevance.
    Relevant,
    /// Geometry, without walls that touch no reachable cell.
    DeadZone,
}

/// Policy from the switches: relevance before dead zones, legal generation only without
/// either.
pub open spec fn policy_of(ti_movegen: bool, cat_walls: bool, dead_zone_prune: bool) -> WallPolicy {
    if ti_movegen && !cat_walls && !dead_zone_prune {
        WallPolicy::Legal
    } else if cat_walls {
        WallPolicy::Relevant
    } else if dead_zone_prune {
        WallPolicy::DeadZone
    } else {
        WallPolicy::Lazy
    }
}

pub fn wall_policy(ti_movegen: bool, cat_walls: bool, dead_zone_prune: bool) -> (p: WallPolicy)
    ensures
        p == policy_of(ti_movegen, cat_walls, dead_zone_prune),
{
    if ti_movegen && !cat_walls && !dead_zone_prune {
        WallPolicy::Legal
    } else if cat_walls {
        WallPolicy::Relevant
    } else if dead_zone_prune {
        WallPolicy::DeadZone
    } else {
        WallPolicy::Lazy
    }
}

/// Which walls pass the relevance filter: the table move always does.
pub open spec fn relevant_mask(relevant: Seq<bool>, tt_move: int) -> Seq<bool> {
    Seq::new(256, |m: int| m == tt_move || (m < relevant.len() && relevant[m]))
}

/// Which walls pass the dead-zone filter.
pub open spec fn live_mask(p: game::Position) -> Seq<bool> {
    Seq::new(256, |m: int| moves::wall_id(m) && !in_dead_zone(p, moves::slot_of(m)))
}

/// The generated moves.
pub open spec fn generated(
    p: game::Position,
    root: bool,
    policy: WallPolicy,
    relevant: Seq<bool>,
    tt_move: int,
) -> Seq<i16> {
    let pawns = game::pawn_moves(p);
    if game::hand_of(p, p.turn) <= 0 {
        pawns
    } else if root || policy == WallPolicy::Legal {
        pawns + legal_walls(p, 64)
    } else if policy == WallPolicy::Relevant {
        pawns + kept_walls(p.w, relevant_mask(relevant, tt_move), 64)
    } else if policy == WallPolicy::DeadZone {
        pawns + kept_walls(p.w, live_mask(p), 64)
    } else {
        pawns + kept_walls(p.w, Seq::new(256, |m: int| true), 64)
    }
}

/// Walls that fit and pass the relevance filter, after the pawn moves in `out`.
pub fn gen_walls_cat_filtered(g: &GameState, relevant: &Vec<bool>, tt_move: i16, out: &mut Vec<i16>)
    requires
        g.wf(),
    ensures
        final(out)@ == old(out)@ + kept_walls(
            g.topo(),
            relevant_mask(relevant@, tt_move as int),
            64,
        ),
{
    let mut keep: Vec<bool> = Vec::new();
    let mut m: usize = 0;
    while m < 256
        invariant
            m <= 256,
            keep@.len() == m,
            forall|k: int|
                0 <= k < m ==> #[trigger] keep@[k] == relevant_mask(relevant@, tt_move as int)[k],
        decreases 256 - m,
    {
        keep.push(m as i32 == tt_move as i32 || (m < relevant.len() && relevant[m]));
        m += 1;
    }
    assert(keep@ =~= relevant_mask(relevant@, tt_move as int));
    push_kept_walls(g, &keep, out);
}

/// Walls that fit and touch a cell some pawn can come to, after the pawn moves in `out`.
pub fn gen_walls_deadzone_filtered(g: &GameState, out: &mut Vec<i16>)
    requires
        g.wf(),
    ensures
        final(out)@ == old(out)@ + kept_walls(g.topo(), live_mask(g@), 64),
{
    let reach0: [bool; 81] = reachable_mask(&g.hw, &g.vw, g.pawn[0]);
    let reach1: [bool; 81] = reachable_mask(&g.hw, &g.vw, g.pawn[1]);
    let mut keep: Vec<bool> = Vec::new();
    let mut m: usize = 0;
    while m < 256
        invariant
            m <= 256,
            g.wf(),
            keep@.len() == m,
            forall|k: int| 0 <= k < m ==> #[trigger] keep@[k] == live_mask(g@)[k],
            forall|c: int| 0 <= c < 81 ==> #[trigger] reach0@[c] == connected(g@.w, g@.p0, c),
            forall|c: int| 0 <= c < 81 ==> #[trigger] reach1@[c] == connected(g@.w, g@.p1, c),
        decreases 256 - m,
    {
        let id: i16 = m as i16;
        let live: bool = moves::is_wall_move(id) && {
            let slot: usize = moves::wall_slot(id);
            let dead: bool = wall_in_dead_zone(slot, &reach0, &reach1);
            proof {
                assert forall|k: int| 0 <= k < 4 implies 0 <= #[trigger] touched(slot as int, k)
                    < 81 by {}
                assert(dead == in_dead_zone(g@, slot as int));
            }
            !dead
        };
        keep.push(live);
        m += 1;
    }
    assert(keep@ =~= live_mask(g@));
    push_kept_walls(g, &keep, out);
}

/// Every wall that fits, after the pawn moves in `out`.
fn gen_walls_lazy(g: &GameState, out: &mut Vec<i16>)
    requires
        g.wf(),
    ensures
        final(out)@ == old(out)@ + kept_walls(g.topo(), Seq::new(256, |m: int| true), 64),
{
    let keep: Vec<bool> = vec![true; 256];
    assert(keep@ =~= Seq::new(256, |m: int| true));
    push_kept_walls(g, &keep, out);
}

/// A pawn destination, or a wall on a free slot by a side that has one.
pub open spec fn playable(p: game::Position, m: int) -> bool {
    moves::pawn_id(m) || (moves::wall_id(m) && game::slot_is_free(p.w, m) && game::hand_of(
        p,
        p.turn,
    ) > 0)
}

/// Every move can be played.
pub open spec fn all_playable(p: game::Position, ms: Seq<i16>) -> bool {
    forall|i: int| 0 <= i < ms.len() ==> playable(p, #[trigger] ms[i] as int)
}

proof fn lemma_walls_playable(p: game::Position, keep: Seq<bool>, n: int)
    requires
        game::position_ok(p),
        game::hand_of(p, p.turn) > 0,
        0 <= n <= 64,
    ensures
        all_playable(p, legal_walls(p, n)),
        all_playable(p, kept_walls(p.w, keep, n)),
    decreases n,
{
    if n > 0 {
        lemma_walls_playable(p, keep, n - 1);
    }
}

/// Generated moves can be played.
pub proof fn lemma_generated_moves(
    p: game::Position,
    root: bool,
    policy: WallPolicy,
    relevant: Seq<bool>,
    tt_move: int,
)
    requires
        game::position_ok(p),
    ensures
        all_playable(p, generated(p, root, policy, relevant, tt_move)),
{
    game::lemma_targets_on_board(p.w, game::pawn_of(p, p.turn), game::pawn_of(p, 1 - p.turn), 4);
    assert(all_playable(p, game::pawn_moves(p)));
    if game::hand_of(p, p.turn) > 0 {
        lemma_walls_playable(p, relevant_mask(relevant, tt_move), 64);
        lemma_walls_playable(p, live_mask(p), 64);
        lemma_walls_playable(p, Seq::new(256, |m: int| true), 64);
    }
}

/// Generates the moves of a node. `relevant` marks the walls the relevance filter lets
/// through; other policies do not look at it.
pub fn gen_moves_inner(
    g: &GameState,
    ply: usize,
    policy: WallPolicy,
    relevant: &Vec<bool>,
    tt_move: i16,
) -> (out: Vec<i16>)
    requires
        g.wf(),
    ensures
        out@ == generated(g@, ply == 0, policy, relevant@, tt_move as int),
        all_playable(g@, out@),
{
    let mut out: Vec<i16> = g.gen_pawn_moves();
    proof {
        lemma_generated_moves(g@, ply == 0, policy, relevant@, tt_move as int);
    }
    if g.wl[g.turn] <= 0 {
        return out;
    }
    if ply == 0 || policy == WallPolicy::Legal {
        push_legal_walls(g, &mut out);
    } else if policy == WallPolicy::Relevant {
        gen_walls_cat_filtered(g, relevant, tt_move, &mut out);
    } else if policy == WallPolicy::DeadZone {
        gen_walls_deadzone_filtered(g, &mut out);
    } else {
        gen_walls_lazy(g, &mut out);
    }
    out
}

} // verus!

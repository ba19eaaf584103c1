//! Wall topology of a Quoridor board: which steps are open, which cells reach a
//! goal row, and in how many steps.
//!
//! Cells are numbered row by row, row 0 being player 0's goal row and row 8
//! player 1's. A horizontal wall at slot `r * 8 + c` stands below cells `(r, c)`
//! and `(r, c + 1)`; a vertical wall at that slot stands to the right of cells
//! `(r, c)` and `(r + 1, c)`.

use vstd::prelude::*;

verus! {

/// Distance value of a cell that reaches no goal.
pub const UNREACHABLE: u8 = 255;

/// Wall slots of a position: nonzero where a wall stands.
#[verifier::ext_equal]
pub struct Topo {
    pub hw: Seq<u8>,
    pub vw: Seq<u8>,
}

/// Both slot tables have one entry per slot.
pub open spec fn topo_ok(w: Topo) -> bool {
    w.hw.len() == 64 && w.vw.len() == 64
}

/// A wall stands at row `r`, column `c` of a slot table.
pub open spec fn wall_at(slots: Seq<u8>, r: int, c: int) -> bool {
    0 <= r < 8 && 0 <= c < 8 && slots[r * 8 + c] != 0
}

/// Cell offset of a direction: north, south, west, east.
pub open spec fn delta(d: int) -> int {
    if d == 0 {
        -9
    } else if d == 1 {
        9
    } else if d == 2 {
        -1
    } else {
        1
    }
}

/// A pawn on `cell` may step in direction `d`: no border and no wall in between.
pub open spec fn step_open(w: Topo, cell: int, d: int) -> bool {
    let r = cell / 9;
    let c = cell % 9;
    if d == 0 {
        r > 0 && !wall_at(w.hw, r - 1, c) && !wall_at(w.hw, r - 1, c - 1)
    } else if d == 1 {
        r < 8 && !wall_at(w.hw, r, c) && !wall_at(w.hw, r, c - 1)
    } else if d == 2 {
        c > 0 && !wall_at(w.vw, r, c - 1) && !wall_at(w.vw, r - 1, c - 1)
    } else {
        c < 8 && !wall_at(w.vw, r, c) && !wall_at(w.vw, r - 1, c)
    }
}

/// Goal cells of a player: the far row for player 0, the near row for player 1.
pub open spec fn is_goal(side: int, cell: int) -> bool {
    (side == 0 && cell < 9) || (side == 1 && cell >= 72)
}

/// `cell` reaches a goal of `side` in at most `n` steps.
pub open spec fn goal_within(w: Topo, side: int, cell: int, n: nat) -> bool
    decreases n,
{
    is_goal(side, cell) || (n > 0 && exists|d: int|
        0 <= d < 4 && #[trigger] step_open(w, cell, d) && goal_within(
            w,
            side,
            cell + delta(d),
            (n - 1) as nat,
        ))
}

/// `cell` reaches a goal of `side` at all.
pub open spec fn reaches_goal(w: Topo, side: int, cell: int) -> bool {
    exists|n: nat| goal_within(w, side, cell, n)
}

/// `v` is the goal distance of `cell`: the least number of steps to a goal, or
/// `UNREACHABLE`.
pub open spec fn dist_value(w: Topo, side: int, cell: int, v: int) -> bool {
    if v == 255 {
        !reaches_goal(w, side, cell)
    } else {
        0 <= v < 255 && goal_within(w, side, cell, v as nat) && (v > 0 ==> !goal_within(
            w,
            side,
            cell,
            (v - 1) as nat,
        ))
    }
}

/// `f` holds the goal distance of every cell.
pub open spec fn dist_field(w: Topo, side: int, f: Seq<u8>) -> bool {
    f.len() == 81 && forall|cell: int|
        0 <= cell < 81 ==> dist_value(w, side, cell, #[trigger] f[cell] as int)
}

/// A step from a cell of the board stays on it.
pub proof fn lemma_step_on_board(w: Topo, cell: int, d: int)
    requires
        0 <= cell < 81,
        0 <= d < 4,
        step_open(w, cell, d),
    ensures
        0 <= cell + delta(d) < 81,
{
}

/// The opposite direction.
pub open spec fn opposite(d: int) -> int {
    if d == 0 {
        1
    } else if d == 1 {
        0
    } else if d == 2 {
        3
    } else {
        2
    }
}

/// Steps can be taken back.
pub proof fn lemma_step_symmetric(w: Topo, cell: int, d: int)
    requires
        0 <= cell < 81,
        0 <= d < 4,
        step_open(w, cell, d),
    ensures
        step_open(w, cell + delta(d), opposite(d)),
        cell + delta(d) + delta(opposite(d)) == cell,
{
    let to = cell + delta(d);
    let r = cell / 9;
    let c = cell % 9;
    if d == 0 {
        assert(to / 9 == r - 1 && to % 9 == c);
    } else if d == 1 {
        assert(to / 9 == r + 1 && to % 9 == c);
    } else if d == 2 {
        assert(to / 9 == r && to % 9 == c - 1);
    } else {
        assert(to / 9 == r && to % 9 == c + 1);
    }
}

/// More steps reach no less.
pub proof fn lemma_goal_within_grows(w: Topo, side: int, cell: int, n: nat, k: nat)
    requires
        goal_within(w, side, cell, n),
        n <= k,
    ensures
        goal_within(w, side, cell, k),
    decreases n,
{
    if !is_goal(side, cell) {
        let d = choose|d: int|
            0 <= d < 4 && #[trigger] step_open(w, cell, d) && goal_within(
                w,
                side,
                cell + delta(d),
                (n - 1) as nat,
            );
        lemma_goal_within_grows(w, side, cell + delta(d), (n - 1) as nat, (k - 1) as nat);
    }
}

/// A goal distance is unique.
pub proof fn lemma_dist_value_unique(w: Topo, side: int, cell: int, a: int, b: int)
    requires
        dist_value(w, side, cell, a),
        dist_value(w, side, cell, b),
    ensures
        a == b,
{
    if a != 255 && b != 255 {
        if a < b {
            lemma_goal_within_grows(w, side, cell, a as nat, (b - 1) as nat);
        } else if b < a {
            lemma_goal_within_grows(w, side, cell, b as nat, (a - 1) as nat);
        }
    }
}

/// Player 0 needs at least as many steps as its row is away.
pub proof fn lemma_row_is_a_bound(w: Topo, cell: int, n: nat)
    requires
        0 <= cell < 81,
    ensures
        goal_within(w, 0, cell, n) ==> cell / 9 <= n,
    decreases n,
{
    if goal_within(w, 0, cell, n) && n > 0 && !is_goal(0, cell) {
        let d = choose|d: int|
            0 <= d < 4 && #[trigger] step_open(w, cell, d) && goal_within(
                w,
                0,
                cell + delta(d),
                (n - 1) as nat,
            );
        lemma_step_on_board(w, cell, d);
        lemma_row_is_a_bound(w, cell + delta(d), (n - 1) as nat);
    }
}

/// One topology has one distance field per player.
pub proof fn law_dist_field_unique(w: Topo, side: int, f: Seq<u8>, g: Seq<u8>)
    requires
        dist_field(w, side, f),
        dist_field(w, side, g),
    ensures
        f == g,
{
    assert forall|cell: int| 0 <= cell < 81 implies f[cell] == g[cell] by {
        lemma_dist_value_unique(w, side, cell, f[cell] as int, g[cell] as int);
    }
    assert(f =~= g);
}

/// When no cell gains a goal at step `k + 1`, none gains one later.
proof fn lemma_goal_within_stable(w: Topo, side: int, k: nat, cell: int, n: nat)
    requires
        forall|c: int|
            0 <= c < 81 && #[trigger] goal_within(w, side, c, (k + 1) as nat) ==> goal_within(
                w,
                side,
                c,
                k,
            ),
        0 <= cell < 81,
        goal_within(w, side, cell, n),
    ensures
        goal_within(w, side, cell, k),
    decreases n,
{
    if !is_goal(side, cell) {
        let d = choose|d: int|
            0 <= d < 4 && #[trigger] step_open(w, cell, d) && goal_within(
                w,
                side,
                cell + delta(d),
                (n - 1) as nat,
            );
        lemma_step_on_board(w, cell, d);
        lemma_goal_within_stable(w, side, k, cell + delta(d), (n - 1) as nat);
        assert(goal_within(w, side, cell, (k + 1) as nat));
    } else {
        assert(goal_within(w, side, cell, k));
    }
}

fn slot_free(slots: &[u8; 64], r: usize, c: usize) -> (free: bool)
    requires
        r < 9,
        c < 9,
    ensures
        free == !wall_at(slots@, r as int, c as int),
{
    r >= 8 || c >= 8 || slots[r * 8 + c] == 0
}

/// May a pawn on `cell` step in direction `d`?
pub fn can_step(hw: &[u8; 64], vw: &[u8; 64], cell: usize, d: usize) -> (open: bool)
    requires
        cell < 81,
        d < 4,
    ensures
        open == step_open((Topo { hw: hw@, vw: vw@ }), cell as int, d as int),
{
    let r: usize = cell / 9;
    let c: usize = cell % 9;
    if d == 0 {
        r > 0 && slot_free(hw, r - 1, c) && (c == 0 || slot_free(hw, r - 1, c - 1))
    } else if d == 1 {
        r < 8 && slot_free(hw, r, c) && (c == 0 || slot_free(hw, r, c - 1))
    } else if d == 2 {
        c > 0 && slot_free(vw, r, c - 1) && (r == 0 || slot_free(vw, r - 1, c - 1))
    } else {
        c < 8 && slot_free(vw, r, c) && (r == 0 || slot_free(vw, r - 1, c))
    }
}

/// The cell one step from `cell` in direction `d`.
pub fn step_to(cell: usize, d: usize) -> (to: usize)
    requires
        cell < 81,
        d < 4,
        0 <= cell + delta(d as int) < 81,
    ensures
        to == cell + delta(d as int),
{
    if d == 0 {
        cell - 9
    } else if d == 1 {
        cell + 9
    } else if d == 2 {
        cell - 1
    } else {
        cell + 1
    }
}

/// Is `cell` a goal of `side`?
pub fn is_goal_cell(side: usize, cell: usize) -> (goal: bool)
    ensures
        goal == is_goal(side as int, cell as int),
{
    (side == 0 && cell < 9) || (side == 1 && cell >= 72)
}

spec fn unset_count(f: Seq<u8>, n: int) -> int
    decreases n,
{
    if n <= 0 {
        0
    } else {
        unset_count(f, n - 1) + if f[n - 1] == 255 {
            1int
        } else {
            0int
        }
    }
}

proof fn lemma_unset_bounds(f: Seq<u8>, n: int)
    requires
        0 <= n,
    ensures
        0 <= unset_count(f, n) <= n,
    decreases n,
{
    if n > 0 {
        lemma_unset_bounds(f, n - 1);
    }
}

proof fn lemma_unset_update(f: Seq<u8>, i: int, v: u8, n: int)
    requires
        0 <= i < f.len(),
        0 <= n <= f.len(),
        f[i] == 255,
        v != 255,
    ensures
        unset_count(f.update(i, v), n) == unset_count(f, n) - if i < n {
            1int
        } else {
            0int
        },
    decreases n,
{
    if n > 0 {
        lemma_unset_update(f, i, v, n - 1);
    }
}

/// What the field holds after the cells within `k` steps of a goal are settled.
spec fn settled(w: Topo, side: int, k: int, f: Seq<u8>) -> bool {
    f.len() == 81 && forall|c: int|
        0 <= c < 81 ==> {
            &&& (#[trigger] f[c] == 255) == !goal_within(w, side, c, k as nat)
            &&& f[c] != 255 ==> f[c] <= k && dist_value(w, side, c, f[c] as int)
        }
}

/// Does some open step lead from `cell` to a cell at distance `k`?
fn steps_onto(hw: &[u8; 64], vw: &[u8; 64], f: &[u8; 81], cell: usize, k: u8) -> (hit: bool)
    requires
        cell < 81,
    ensures
        hit == exists|d: int|
            0 <= d < 4 && #[trigger] step_open((Topo { hw: hw@, vw: vw@ }), cell as int, d)
                && f@[cell + delta(d)] == k,
{
    let mut d: usize = 0;
    while d < 4
        invariant
            cell < 81,
            d <= 4,
            forall|e: int|
                0 <= e < d ==> !(#[trigger] step_open((Topo { hw: hw@, vw: vw@ }), cell as int, e)
                    && f@[cell + delta(e)] == k),
        decreases 4 - d,
    {
        if can_step(hw, vw, cell, d) {
            proof {
                lemma_step_on_board(Topo { hw: hw@, vw: vw@ }, cell as int, d as int);
            }
            if f[step_to(cell, d)] == k {
                return true;
            }
        }
        d += 1;
    }
    false
}

/// Goal distance of every cell for one player.
pub fn compute_dist(hw: &[u8; 64], vw: &[u8; 64], side: usize) -> (field: [u8; 81])
    ensures
        dist_field((Topo { hw: hw@, vw: vw@ }), side as int, field@),
{
    let ghost w = Topo { hw: hw@, vw: vw@ };
    let ghost s = side as int;
    let mut f: [u8; 81] = [UNREACHABLE; 81];
    let mut i: usize = 0;
    while i < 81
        invariant
            i <= 81,
            s == side,
            forall|c: int| 0 <= c < i ==> f@[c] == if is_goal(s, c) { 0u8 } else { 255u8 },
            forall|c: int| i <= c < 81 ==> f@[c] == 255,
        decreases 81 - i,
    {
        if is_goal_cell(side, i) {
            f[i] = 0;
        }
        i += 1;
    }
    assert(settled(w, s, 0, f@));
    let mut k: u8 = 0;
    proof {
        lemma_unset_bounds(f@, 81);
    }
    loop
        invariant
            s == side,
            w == (Topo { hw: hw@, vw: vw@ }),
            settled(w, s, k as int, f@),
            0 <= unset_count(f@, 81),
            k + unset_count(f@, 81) <= 81,
        decreases unset_count(f@, 81),
    {
        let ghost f0 = f@;
        let mut changed: bool = false;
        let mut cell: usize = 0;
        while cell < 81
            invariant
                s == side,
                w == (Topo { hw: hw@, vw: vw@ }),
                cell <= 81,
                k <= 81,
                settled(w, s, k as int, f0),
                f@.len() == 81,
                0 <= unset_count(f@, 81),
                unset_count(f@, 81) <= unset_count(f0, 81),
                changed ==> unset_count(f@, 81) < unset_count(f0, 81),
                !changed ==> f@ == f0,
                forall|c: int| cell <= c < 81 ==> f@[c] == f0[c],
                forall|c: int|
                    0 <= c < cell ==> #[trigger] f@[c] == if f0[c] != 255 {
                        f0[c]
                    } else if goal_within(w, s, c, (k + 1) as nat) {
                        (k + 1) as u8
                    } else {
                        255u8
                    },
            decreases 81 - cell,
        {
            if f[cell] == UNREACHABLE {
                let hit: bool = steps_onto(hw, vw, &f, cell, k);
                proof {
                    assert(f0[cell as int] == 255);
                    assert(!is_goal(s, cell as int));
                    // A neighbour now at distance `k` was settled before this sweep.
                    if hit {
                        let d = choose|d: int|
                            0 <= d < 4 && #[trigger] step_open(w, cell as int, d) && f@[cell
                                + delta(d)] == k;
                        lemma_step_on_board(w, cell as int, d);
                        assert(f0[cell + delta(d)] == k);
                        assert(dist_value(w, s, cell + delta(d), k as int));
                        assert(goal_within(w, s, cell as int, (k + 1) as nat));
                    } else if goal_within(w, s, cell as int, (k + 1) as nat) {
                        let d = choose|d: int|
                            0 <= d < 4 && #[trigger] step_open(w, cell as int, d) && goal_within(
                                w,
                                s,
                                cell + delta(d),
                                k as nat,
                            );
                        lemma_step_on_board(w, cell as int, d);
                        let to = cell + delta(d);
                        assert(f0[to] != 255);
                        if f0[to] < k {
                            // Then `cell` itself would have been settled earlier.
                            lemma_goal_within_grows(w, s, to, f0[to] as nat, (k - 1) as nat);
                            assert(goal_within(w, s, cell as int, k as nat));
                        }
                        assert(f@[to] == k);
                    }
                }
                if hit {
                    proof {
                        lemma_unset_update(f@, cell as int, (k + 1) as u8, 81);
                        lemma_unset_bounds(f@.update(cell as int, (k + 1) as u8), 81);
                    }
                    f[cell] = k + 1;
                    changed = true;
                }
            }
            cell += 1;
        }
        if !changed {
            proof {
                assert forall|c: int|
                    0 <= c < 81 && #[trigger] goal_within(w, s, c, (k + 1) as nat) implies goal_within(
                    w,
                    s,
                    c,
                    k as nat,
                ) by {
                    assert(f@[c] == f0[c]);
                }
                assert forall|c: int| 0 <= c < 81 implies dist_value(
                    w,
                    s,
                    c,
                    #[trigger] f@[c] as int,
                ) by {
                    if f@[c] == 255 {
                        if reaches_goal(w, s, c) {
                            let n = choose|n: nat| goal_within(w, s, c, n);
                            lemma_goal_within_stable(w, s, k as nat, c, n);
                        }
                    }
                }
            }
            return f;
        }
        proof {
            assert forall|c: int| 0 <= c < 81 implies {
                &&& (#[trigger] f@[c] == 255) == !goal_within(w, s, c, (k + 1) as nat)
                &&& f@[c] != 255 ==> f@[c] <= k + 1 && dist_value(w, s, c, f@[c] as int)
            } by {
                assert(f0[c] == 255 || f0[c] <= k);
                if f0[c] != 255 {
                    lemma_goal_within_grows(w, s, c, k as nat, (k + 1) as nat);
                }
            }
        }
        k = k + 1;
    }
}

/// `n` is the least number of steps in which `cell` reaches a goal of `side`.
pub open spec fn least_steps(w: Topo, side: int, cell: int, n: int) -> bool {
    n >= 0 && goal_within(w, side, cell, n as nat) && (n > 0 ==> !goal_within(
        w,
        side,
        cell,
        (n - 1) as nat,
    ))
}

/// Goal distance of a cell: the least number of steps to a goal of `side`, or 255.
pub open spec fn goal_distance(w: Topo, side: int, cell: int) -> int {
    if reaches_goal(w, side, cell) {
        choose|n: int| least_steps(w, side, cell, n)
    } else {
        255
    }
}

/// A cell that reaches a goal has a least number of steps.
pub proof fn lemma_least_steps_exist(w: Topo, side: int, cell: int, n: nat)
    requires
        goal_within(w, side, cell, n),
    ensures
        exists|k: int| least_steps(w, side, cell, k),
        reaches_goal(w, side, cell),
        least_steps(w, side, cell, goal_distance(w, side, cell)),
    decreases n,
{
    if n > 0 && goal_within(w, side, cell, (n - 1) as nat) {
        lemma_least_steps_exist(w, side, cell, (n - 1) as nat);
    } else {
        assert(least_steps(w, side, cell, n as int));
    }
}

/// A distance field holds the goal distances.
pub proof fn lemma_field_is_goal_distance(w: Topo, side: int, f: Seq<u8>, cell: int)
    requires
        dist_field(w, side, f),
        0 <= cell < 81,
    ensures
        f[cell] == goal_distance(w, side, cell),
        dist_value(w, side, cell, f[cell] as int),
{
    let v = f[cell] as int;
    assert(dist_value(w, side, cell, v));
    if v != 255 {
        lemma_least_steps_exist(w, side, cell, v as nat);
        let k = goal_distance(w, side, cell);
        if k < v {
            lemma_goal_within_grows(w, side, cell, k as nat, (v - 1) as nat);
        } else if v < k {
            lemma_goal_within_grows(w, side, cell, v as nat, (k - 1) as nat);
        }
    }
}

/// `c` lies on a shortest goal route from `from`: it is `from`, or one step further
/// along than a cell of a route. `f` is the distance field.
pub open spec fn on_route(w: Topo, f: Seq<u8>, from: int, c: int) -> bool
    decreases 255 - f[c],
{
    c == from || (f[c] < 254 && exists|d: int|
        0 <= d < 4 && #[trigger] step_open(w, c, d) && f[c + delta(d)] == f[c] + 1 && on_route(
            w,
            f,
            from,
            c + delta(d),
        ))
}

/// Route cells are no further from the goal than the start.
proof fn lemma_route_descends(w: Topo, f: Seq<u8>, from: int, c: int)
    requires
        on_route(w, f, from, c),
    ensures
        f[c] <= f[from],
        c != from ==> f[c] < f[from],
    decreases 255 - f[c],
{
    if c != from {
        let d = choose|d: int|
            0 <= d < 4 && #[trigger] step_open(w, c, d) && f[c + delta(d)] == f[c] + 1 && on_route(
                w,
                f,
                from,
                c + delta(d),
            );
        lemma_route_descends(w, f, from, c + delta(d));
    }
}

/// Does an open step lead from `cell` back to a marked cell at distance `v`?
fn joins_route(
    hw: &[u8; 64],
    vw: &[u8; 64],
    f: &[u8; 81],
    mask: &[u8; 81],
    cell: usize,
    v: u8,
) -> (hit: bool)
    requires
        cell < 81,
    ensures
        hit == exists|d: int|
            0 <= d < 4 && #[trigger] step_open((Topo { hw: hw@, vw: vw@ }), cell as int, d)
                && f@[cell + delta(d)] == v && mask@[cell + delta(d)] != 0,
{
    let mut d: usize = 0;
    while d < 4
        invariant
            cell < 81,
            d <= 4,
            forall|e: int|
                0 <= e < d ==> !(#[trigger] step_open((Topo { hw: hw@, vw: vw@ }), cell as int, e)
                    && f@[cell + delta(e)] == v && mask@[cell + delta(e)] != 0),
        decreases 4 - d,
    {
        if can_step(hw, vw, cell, d) {
            proof {
                lemma_step_on_board(Topo { hw: hw@, vw: vw@ }, cell as int, d as int);
            }
            let to: usize = step_to(cell, d);
            if f[to] == v && mask[to] != 0 {
                return true;
            }
        }
        d += 1;
    }
    false
}

/// Marks every cell on a shortest goal route from `from`.
pub fn route_mask(hw: &[u8; 64], vw: &[u8; 64], f: &[u8; 81], from: usize) -> (mask: [u8; 81])
    requires
        from < 81,
        f[from as int] < 255,
    ensures
        forall|c: int|
            0 <= c < 81 ==> (#[trigger] mask[c] != 0) == on_route(
                (Topo { hw: hw@, vw: vw@ }),
                f@,
                from as int,
                c,
            ),
{
    let ghost w = Topo { hw: hw@, vw: vw@ };
    let mut mask: [u8; 81] = [0u8; 81];
    mask[from] = 1;
    let mut v: u8 = f[from];
    assert forall|c: int| 0 <= c < 81 && f@[c] >= v implies (#[trigger] mask[c] != 0) == on_route(
        w,
        f@,
        from as int,
        c,
    ) by {
        if on_route(w, f@, from as int, c) {
            lemma_route_descends(w, f@, from as int, c);
        }
    }
    while v > 0
        invariant
            from < 81,
            f[from as int] < 255,
            v <= f[from as int],
            w == (Topo { hw: hw@, vw: vw@ }),
            forall|c: int|
                0 <= c < 81 && f@[c] >= v ==> (#[trigger] mask[c] != 0) == on_route(
                    w,
                    f@,
                    from as int,
                    c,
                ),
            forall|c: int| 0 <= c < 81 && f@[c] < v ==> #[trigger] mask[c] == 0,
        decreases v,
    {
        let ghost mask0 = mask@;
        let mut cell: usize = 0;
        while cell < 81
            invariant
                cell <= 81,
                from < 81,
                0 < v <= f[from as int] < 255,
                w == (Topo { hw: hw@, vw: vw@ }),
                forall|c: int|
                    0 <= c < 81 && f@[c] >= v ==> (#[trigger] mask[c] != 0) == on_route(
                        w,
                        f@,
                        from as int,
                        c,
                    ),
                forall|c: int| 0 <= c < 81 && f@[c] < v - 1 ==> #[trigger] mask[c] == 0,
                forall|c: int| cell <= c < 81 && f@[c] < v ==> #[trigger] mask[c] == 0,
                forall|c: int|
                    0 <= c < cell && f@[c] == v - 1 ==> (#[trigger] mask[c] != 0) == on_route(
                        w,
                        f@,
                        from as int,
                        c,
                    ),
            decreases 81 - cell,
        {
            if f[cell] == v - 1 {
                let hit: bool = joins_route(hw, vw, f, &mask, cell, v);
                proof {
                    if hit {
                        let d = choose|d: int|
                            0 <= d < 4 && #[trigger] step_open(w, cell as int, d) && f@[cell
                                + delta(d)] == v && mask@[cell + delta(d)] != 0;
                        lemma_step_on_board(w, cell as int, d);
                        assert(on_route(w, f@, from as int, cell + delta(d)));
                        assert(on_route(w, f@, from as int, cell as int));
                    } else if on_route(w, f@, from as int, cell as int) {
                        let d = choose|d: int|
                            0 <= d < 4 && #[trigger] step_open(w, cell as int, d) && f@[cell
                                + delta(d)] == f@[cell as int] + 1 && on_route(
                                w,
                                f@,
                                from as int,
                                cell + delta(d),
                            );
                        lemma_step_on_board(w, cell as int, d);
                        assert(mask@[cell + delta(d)] != 0);
                    }
                }
                if hit {
                    mask[cell] = 1;
                }
            }
            cell += 1;
        }
        v = v - 1;
    }
    mask
}

} // verus!

//! Zero-delay corridors: a shortest goal path none of whose edges can be walled off
//! without sealing the runner in.

use crate::board;
use crate::game;
use crate::moves;
use crate::game::GameState;
use std::collections::VecDeque;
use vstd::prelude::*;

verus! {

/// Undirected board edge between two cells, lower cell first.
#[derive(Clone, Copy, Debug, PartialEq, Eq, Hash, Structural)]
pub struct BoardEdge {
    pub a: usize,
    pub b: usize,
}

/// The edge between two cells.
pub open spec fn edge_between(x: int, y: int) -> BoardEdge {
    if x <= y {
        BoardEdge { a: x as usize, b: y as usize }
    } else {
        BoardEdge { a: y as usize, b: x as usize }
    }
}

impl BoardEdge {
    pub fn new(a: usize, b: usize) -> (e: BoardEdge)
        ensures
            e == edge_between(a as int, b as int),
    {
        if a <= b {
            BoardEdge { a, b }
        } else {
            BoardEdge { a: b, b: a }
        }
    }
}

#[derive(Clone, Copy, Debug, PartialEq, Eq, Structural)]
pub enum RunnerGuaranteeKind {
    ZeroDelayCorridor,
}

/// A proven run to the goal.
#[derive(Clone, Debug, PartialEq, Eq)]
pub struct RunnerGuarantee {
    pub side: usize,
    /// Most own pawn moves the run takes.
    pub max_own_moves_to_goal: u8,
    pub path: Vec<usize>,
    pub protected_edges: Vec<BoardEdge>,
    pub kind: RunnerGuaranteeKind,
}

/// Buffers reused between searches.
pub struct CorridorScratch {
    queue: VecDeque<usize>,
    visited: [bool; 81],
}

impl Default for CorridorScratch {
    fn default() -> (s: Self)
        ensures
            s.is_clear(),
    {
        Self::new()
    }
}

impl CorridorScratch {
    /// Nothing is queued and nothing marked.
    pub closed spec fn is_clear(&self) -> bool {
        self.queue@.len() == 0 && forall|i: int| 0 <= i < 81 ==> !self.visited[i]
    }

    pub fn new() -> (s: Self)
        ensures
            s.is_clear(),
    {
        CorridorScratch { queue: VecDeque::with_capacity(81), visited: [false; 81] }
    }

    /// Empties both buffers.
    pub fn reset_reachability(&mut self)
        ensures
            final(self).is_clear(),
    {
        self.queue.clear();
        self.visited = [false; 81];
    }
}

/// Fewest own moves the pawn of `side` needs, or 255 when it is sealed off.
pub fn shortest_distance(g: &GameState, side: usize) -> (d: u8)
    requires
        g.wf(),
        side < 2,
    ensures
        d == board::goal_distance(g.topo(), side as int, game::pawn_of(g@, side as int)),
        board::dist_value(g.topo(), side as int, game::pawn_of(g@, side as int), d as int),
{
    let field = g.compute_dist(side);
    proof {
        board::lemma_field_is_goal_distance(
            g.topo(),
            side as int,
            field@,
            game::pawn_of(g@, side as int),
        );
    }
    field[g.pawn[side]]
}

/// The step in direction `d` gets within `n` steps of a goal.
pub open spec fn closes_in(w: board::Topo, side: int, cell: int, d: int, n: nat) -> bool {
    board::step_open(w, cell, d) && board::goal_within(w, side, cell + board::delta(d), n)
}

/// First direction, in the order north, south, west, east, that gets within `n` steps.
pub open spec fn first_closing(w: board::Topo, side: int, cell: int, n: nat) -> int {
    if closes_in(w, side, cell, 0, n) {
        0
    } else if closes_in(w, side, cell, 1, n) {
        1
    } else if closes_in(w, side, cell, 2, n) {
        2
    } else {
        3
    }
}

/// The goal path of `n` steps that takes the first closing direction at every cell.
pub open spec fn goal_path(w: board::Topo, side: int, cell: int, n: nat) -> Seq<usize>
    decreases n,
{
    if n == 0 {
        seq![cell as usize]
    } else {
        seq![cell as usize] + goal_path(
            w,
            side,
            cell + board::delta(first_closing(w, side, cell, (n - 1) as nat)),
            (n - 1) as nat,
        )
    }
}

/// Consecutive cells of a path are joined by an open step.
pub open spec fn joined(w: board::Topo, x: int, y: int) -> bool {
    exists|d: int| 0 <= d < 4 && #[trigger] board::step_open(w, x, d) && y == x + board::delta(d)
}

/// The closing direction exists on a cell whose distance is `n`.
proof fn lemma_first_closing(w: board::Topo, side: int, cell: int, n: nat)
    requires
        0 <= cell < 81,
        n > 0,
        board::goal_within(w, side, cell, n),
        !board::goal_within(w, side, cell, (n - 1) as nat),
    ensures
        ({
            let d = first_closing(w, side, cell, (n - 1) as nat);
            let to = cell + board::delta(d);
            &&& 0 <= d < 4
            &&& closes_in(w, side, cell, d, (n - 1) as nat)
            &&& 0 <= to < 81
            &&& n > 1 ==> !board::goal_within(w, side, to, (n - 2) as nat)
        }),
{
    let d0 = choose|d: int|
        0 <= d < 4 && #[trigger] board::step_open(w, cell, d) && board::goal_within(
            w,
            side,
            cell + board::delta(d),
            (n - 1) as nat,
        );
    assert(closes_in(w, side, cell, d0, (n - 1) as nat));
    let d = first_closing(w, side, cell, (n - 1) as nat);
    board::lemma_step_on_board(w, cell, d);
    let to = cell + board::delta(d);
    if n > 1 && board::goal_within(w, side, to, (n - 2) as nat) {
        assert(board::goal_within(w, side, cell, (n - 1) as nat));
    }
}

/// The goal path starts where it should, walks open steps and ends on a goal; with `n`
/// the goal distance, no path is shorter.
pub proof fn law_goal_path_runs_home(w: board::Topo, side: int, cell: int, n: nat)
    requires
        0 <= cell < 81,
        board::goal_within(w, side, cell, n),
        n > 0 ==> !board::goal_within(w, side, cell, (n - 1) as nat),
    ensures
        ({
            let p = goal_path(w, side, cell, n);
            &&& p.len() == n + 1
            &&& p[0] == cell
            &&& board::is_goal(side, p[n as int] as int)
            &&& forall|i: int| 0 <= i <= n ==> 0 <= #[trigger] p[i] < 81
            &&& forall|i: int|
                0 <= i < n ==> joined(w, #[trigger] p[i] as int, p[i + 1] as int)
        }),
    decreases n,
{
    if n > 0 {
        lemma_first_closing(w, side, cell, n);
        let d = first_closing(w, side, cell, (n - 1) as nat);
        let to = cell + board::delta(d);
        law_goal_path_runs_home(w, side, to, (n - 1) as nat);
        let p = goal_path(w, side, cell, n);
        let q = goal_path(w, side, to, (n - 1) as nat);
        assert forall|i: int| 0 <= i < n implies joined(
            w,
            #[trigger] p[i] as int,
            p[i + 1] as int,
        ) by {
            if i == 0 {
                assert(p[1] == q[0]);
            } else {
                assert(p[i] == q[i - 1] && p[i + 1] == q[i]);
                assert(joined(w, q[i - 1] as int, q[i - 1 + 1] as int));
            }
        }
        assert forall|i: int| 0 <= i <= n implies 0 <= #[trigger] p[i] < 81 by {
            if i > 0 {
                assert(p[i] == q[i - 1]);
            }
        }
        assert(p[n as int] == q[n - 1]);
    } else {
        assert(board::is_goal(side, cell));
    }
}

/// First direction from `cell` onto a cell at distance `target`.
fn closing_direction(g: &GameState, f: &[u8; 81], side: usize, cell: usize, target: u8) -> (d:
    usize)
    requires
        cell < 81,
        target < 254,
        board::dist_field(g.topo(), side as int, f@),
        board::goal_within(g.topo(), side as int, cell as int, (target + 1) as nat),
        !board::goal_within(g.topo(), side as int, cell as int, target as nat),
    ensures
        d < 4,
        d == first_closing(g.topo(), side as int, cell as int, target as nat),
        closes_in(g.topo(), side as int, cell as int, d as int, target as nat),
{
    proof {
        lemma_first_closing(g.topo(), side as int, cell as int, (target + 1) as nat);
    }
    let ghost w = g.topo();
    let mut d: usize = 0;
    while d < 3
        invariant
            d <= 3,
            cell < 81,
            target < 254,
            w == g.topo(),
            board::dist_field(w, side as int, f@),
            closes_in(
                w,
                side as int,
                cell as int,
                first_closing(w, side as int, cell as int, target as nat),
                target as nat,
            ),
            !board::goal_within(w, side as int, cell as int, target as nat),
            forall|e: int|
                0 <= e < d ==> !#[trigger] closes_in(w, side as int, cell as int, e, target as nat),
        decreases 3 - d,
    {
        if board::can_step(&g.hw, &g.vw, cell, d) {
            proof {
                board::lemma_step_on_board(w, cell as int, d as int);
                let to = cell + board::delta(d as int);
                assert(board::dist_value(w, side as int, to, f@[to] as int));
                if f@[to] <= target {
                    board::lemma_goal_within_grows(
                        w,
                        side as int,
                        to,
                        f@[to] as nat,
                        target as nat,
                    );
                } else if board::goal_within(w, side as int, to, target as nat) {
                    if f@[to] != 255 {
                        board::lemma_goal_within_grows(
                            w,
                            side as int,
                            to,
                            target as nat,
                            (f@[to] - 1) as nat,
                        );
                    }
                }
            }
            if f[board::step_to(cell, d)] <= target {
                return d;
            }
        }
        d += 1;
    }
    d
}

/// The path from the pawn of `side` to its nearest goal, or nothing when it is sealed
/// off.
pub fn reconstruct_shortest_goal_path(
    g: &GameState,
    side: usize,
    scratch: &mut CorridorScratch,
) -> (path: Option<Vec<usize>>)
    requires
        g.wf(),
        side < 2,
    ensures
        final(scratch).is_clear(),
        ({
            let start = game::pawn_of(g@, side as int);
            match path {
                None => !board::reaches_goal(g.topo(), side as int, start),
                Some(p) => {
                    &&& board::reaches_goal(g.topo(), side as int, start)
                    &&& 0 <= board::goal_distance(g.topo(), side as int, start) < 255
                    &&& board::dist_value(
                        g.topo(),
                        side as int,
                        start,
                        board::goal_distance(g.topo(), side as int, start),
                    )
                    &&& p@ == goal_path(
                        g.topo(),
                        side as int,
                        start,
                        board::goal_distance(g.topo(), side as int, start) as nat,
                    )
                },
            }
        }),
{
    scratch.reset_reachability();
    let start: usize = g.pawn[side];
    let field = g.compute_dist(side);
    let ghost w = g.topo();
    let ghost s = side as int;
    proof {
        board::lemma_field_is_goal_distance(w, s, field@, start as int);
    }
    if field[start] == board::UNREACHABLE {
        return None;
    }
    let ghost k = field@[start as int] as nat;
    let mut path: Vec<usize> = Vec::new();
    let mut cursor: usize = start;
    let mut left: u8 = field[start];
    assert(path@ + goal_path(w, s, cursor as int, left as nat) =~= goal_path(
        w,
        s,
        start as int,
        k,
    ));
    while left > 0
        invariant
            w == g.topo(),
            s == side,
            cursor < 81,
            left < 255,
            board::dist_field(w, s, field@),
            board::goal_within(w, s, cursor as int, left as nat),
            left > 0 ==> !board::goal_within(w, s, cursor as int, (left - 1) as nat),
            path@ + goal_path(w, s, cursor as int, left as nat) == goal_path(
                w,
                s,
                start as int,
                k,
            ),
        decreases left,
    {
        proof {
            lemma_first_closing(w, s, cursor as int, left as nat);
        }
        let d: usize = closing_direction(g, &field, side, cursor, left - 1);
        let ghost rest = goal_path(w, s, cursor as int, left as nat);
        let ghost before = path@;
        path.push(cursor);
        let ghost was = cursor as int;
        cursor = board::step_to(cursor, d);
        left = left - 1;
        assert(rest == seq![was as usize] + goal_path(w, s, cursor as int, left as nat));
        assert(path@ + goal_path(w, s, cursor as int, left as nat) =~= before + rest);
    }
    path.push(cursor);
    assert(path@ =~= goal_path(w, s, start as int, k));
    Some(path)
}

/// `cell` reaches a goal in at most `n` steps without crossing the edge `e`.
pub open spec fn goal_within_avoiding(
    w: board::Topo,
    side: int,
    cell: int,
    e: BoardEdge,
    n: nat,
) -> bool
    decreases n,
{
    board::is_goal(side, cell) || (n > 0 && exists|d: int|
        0 <= d < 4 && #[trigger] board::step_open(w, cell, d) && edge_between(
            cell,
            cell + board::delta(d),
        ) != e && goal_within_avoiding(w, side, cell + board::delta(d), e, (n - 1) as nat))
}

/// `cell` reaches a goal without crossing the edge `e`.
pub open spec fn reaches_avoiding(w: board::Topo, side: int, cell: int, e: BoardEdge) -> bool {
    exists|n: nat| goal_within_avoiding(w, side, cell, e, n)
}

/// Number of unmarked cells among the first `n`.
spec fn unmarked(v: Seq<bool>, n: int) -> int
    decreases n,
{
    if n <= 0 {
        0
    } else {
        unmarked(v, n - 1) + if v[n - 1] {
            0int
        } else {
            1int
        }
    }
}

proof fn lemma_unmarked_bounds(v: Seq<bool>, n: int)
    requires
        0 <= n,
    ensures
        0 <= unmarked(v, n),
    decreases n,
{
    if n > 0 {
        lemma_unmarked_bounds(v, n - 1);
    }
}

proof fn lemma_unmarked_mark(v: Seq<bool>, i: int, n: int)
    requires
        0 <= i < v.len(),
        0 <= n <= v.len(),
        !v[i],
    ensures
        unmarked(v.update(i, true), n) == unmarked(v, n) - if i < n {
            1int
        } else {
            0int
        },
    decreases n,
{
    if n > 0 {
        lemma_unmarked_mark(v, i, n - 1);
    }
}

/// A set of cells without goals that no allowed step leaves reaches no goal.
proof fn lemma_closed_set_reaches_nothing(
    w: board::Topo,
    side: int,
    v: Seq<bool>,
    e: BoardEdge,
    cell: int,
    n: nat,
)
    requires
        v.len() == 81,
        0 <= cell < 81,
        v[cell],
        forall|c: int| 0 <= c < 81 && #[trigger] v[c] ==> !board::is_goal(side, c),
        forall|c: int, d: int|
            0 <= c < 81 && 0 <= d < 4 && v[c] && #[trigger] board::step_open(w, c, d)
                && edge_between(c, c + board::delta(d)) != e ==> v[c + board::delta(d)],
    ensures
        !goal_within_avoiding(w, side, cell, e, n),
    decreases n,
{
    if n > 0 && goal_within_avoiding(w, side, cell, e, n) {
        let d = choose|d: int|
            0 <= d < 4 && #[trigger] board::step_open(w, cell, d) && edge_between(
                cell,
                cell + board::delta(d),
            ) != e && goal_within_avoiding(w, side, cell + board::delta(d), e, (n - 1) as nat);
        board::lemma_step_on_board(w, cell, d);
        lemma_closed_set_reaches_nothing(w, side, v, e, cell + board::delta(d), (n - 1) as nat);
    }
}

/// Cells already expanded: no goals among them, and every allowed step from them
/// leads to a marked cell.
spec fn expanded(
    w: board::Topo,
    side: int,
    v: Seq<bool>,
    e: BoardEdge,
    done: Set<int>,
) -> bool {
    &&& forall|c: int| #[trigger] done.contains(c) ==> 0 <= c < 81 && v[c] && !board::is_goal(side, c)
    &&& forall|c: int, d: int|
        0 <= d < 4 && done.contains(c) && #[trigger] board::step_open(w, c, d) && edge_between(
            c,
            c + board::delta(d),
        ) != e ==> v[c + board::delta(d)]
}

/// Can `start` reach a goal of `side` when the edge `removed` is closed?
pub fn any_goal_reachable_without_edge(
    g: &GameState,
    side: usize,
    start: usize,
    removed: BoardEdge,
    scratch: &mut CorridorScratch,
) -> (reachable: bool)
    requires
        start < 81,
    ensures
        reachable == reaches_avoiding(g.topo(), side as int, start as int, removed),
{
    scratch.reset_reachability();
    scratch.visited[start] = true;
    scratch.queue.push_back(start);
    let ghost w = g.topo();
    let ghost s = side as int;
    let ghost mut done: Set<int> = Set::empty();
    proof {
        lemma_unmarked_bounds(scratch.visited@, 81);
        assert(scratch.queue@[0] == start);
    }
    loop
        invariant
            w == g.topo(),
            s == side,
            start < 81,
            scratch.visited@[start as int],
            forall|i: int|
                0 <= i < scratch.queue@.len() ==> #[trigger] scratch.queue@[i] < 81
                    && scratch.visited@[scratch.queue@[i] as int],
            forall|c: int|
                0 <= c < 81 && #[trigger] scratch.visited@[c] ==> done.contains(c)
                    || scratch.queue@.contains(c as usize),
            expanded(w, s, scratch.visited@, removed, done),
            forall|c: int|
                0 <= c < 81 && #[trigger] scratch.visited@[c] && reaches_avoiding(w, s, c, removed)
                    ==> reaches_avoiding(w, s, start as int, removed),
            0 <= unmarked(scratch.visited@, 81),
        decreases unmarked(scratch.visited@, 81), scratch.queue@.len(),
    {
        let ghost queued = scratch.queue@;
        match scratch.queue.pop_front() {
            None => {
                proof {
                    assert(queued.len() == 0);
                    assert forall|n: nat| !goal_within_avoiding(w, s, start as int, removed, n) by {
                        lemma_closed_set_reaches_nothing(
                            w,
                            s,
                            scratch.visited@,
                            removed,
                            start as int,
                            n,
                        );
                    }
                }
                return false;
            },
            Some(current) => {
                assert(current == queued[0]);
                if board::is_goal_cell(side, current) {
                    assert(goal_within_avoiding(w, s, current as int, removed, 0));
                    return true;
                }
                let ghost marks0 = scratch.visited@;
                proof {
                    assert forall|c: int|
                        0 <= c < 81 && #[trigger] scratch.visited@[c] implies done.insert(
                        current as int,
                    ).contains(c) || scratch.queue@.contains(c as usize) by {
                        if !done.contains(c) && c != current {
                            let i = choose|i: int| 0 <= i < queued.len() && queued[i] == c as usize;
                            assert(scratch.queue@[i - 1] == c as usize);
                        }
                    }
                }
                let mut d: usize = 0;
                while d < 4
                    invariant
                        w == g.topo(),
                        s == side,
                        start < 81,
                        d <= 4,
                        current < 81,
                        marks0.len() == 81,
                        scratch.visited@[current as int],
                        scratch.visited@[start as int],
                        forall|i: int|
                            0 <= i < scratch.queue@.len() ==> #[trigger] scratch.queue@[i] < 81
                                && scratch.visited@[scratch.queue@[i] as int],
                        forall|c: int|
                            0 <= c < 81 && #[trigger] scratch.visited@[c] ==> done.insert(
                                current as int,
                            ).contains(c) || scratch.queue@.contains(c as usize),
                        expanded(w, s, scratch.visited@, removed, done),
                        forall|c: int|
                            0 <= c < 81 && #[trigger] scratch.visited@[c] && reaches_avoiding(
                                w,
                                s,
                                c,
                                removed,
                            ) ==> reaches_avoiding(w, s, start as int, removed),
                        forall|e: int|
                            0 <= e < d && #[trigger] board::step_open(w, current as int, e)
                                && edge_between(current as int, current + board::delta(e))
                                != removed ==> scratch.visited@[current + board::delta(e)],
                        0 <= unmarked(scratch.visited@, 81) <= unmarked(marks0, 81),
                        unmarked(scratch.visited@, 81) < unmarked(marks0, 81)
                            || scratch.queue@.len() < queued.len(),
                    decreases 4 - d,
                {
                    if board::can_step(&g.hw, &g.vw, current, d) {
                        proof {
                            board::lemma_step_on_board(w, current as int, d as int);
                        }
                        let next: usize = board::step_to(current, d);
                        if BoardEdge::new(current, next) != removed && !scratch.visited[next] {
                            let ghost marks = scratch.visited@;
                            let ghost waiting = scratch.queue@;
                            proof {
                                lemma_unmarked_mark(marks, next as int, 81);
                                lemma_unmarked_bounds(marks.update(next as int, true), 81);
                                if reaches_avoiding(w, s, next as int, removed) {
                                    let n = choose|n: nat|
                                        goal_within_avoiding(w, s, next as int, removed, n);
                                    assert(goal_within_avoiding(
                                        w,
                                        s,
                                        current as int,
                                        removed,
                                        (n + 1) as nat,
                                    ));
                                }
                            }
                            scratch.visited[next] = true;
                            scratch.queue.push_back(next);
                            proof {
                                assert(scratch.queue@ == waiting.push(next));
                                assert forall|c: int|
                                    0 <= c < 81 && #[trigger] scratch.visited@[c] implies done.insert(
                                    current as int,
                                ).contains(c) || scratch.queue@.contains(c as usize) by {
                                    if c == next {
                                        assert(scratch.queue@[waiting.len() as int] == c as usize);
                                    } else {
                                        assert(marks[c]);
                                        if !done.insert(current as int).contains(c) {
                                            let i = choose|i: int|
                                                0 <= i < waiting.len() && waiting[i] == c as usize;
                                            assert(scratch.queue@[i] == c as usize);
                                        }
                                    }
                                }
                                assert forall|c: int, e: int|
                                    0 <= e < 4 && done.contains(c) && #[trigger] board::step_open(
                                        w,
                                        c,
                                        e,
                                    ) && edge_between(c, c + board::delta(e))
                                        != removed implies scratch.visited@[c + board::delta(e)] by {
                                    board::lemma_step_on_board(w, c, e);
                                    assert(marks[c + board::delta(e)]);
                                }
                                assert(expanded(w, s, scratch.visited@, removed, done));
                            }
                        }
                    }
                    d += 1;
                }
                proof {
                    done = done.insert(current as int);
                }
            },
        }
    }
}

/// The `i`-th edge of a path.
pub open spec fn path_edge(p: Seq<usize>, i: int) -> BoardEdge {
    edge_between(p[i] as int, p[i + 1] as int)
}

/// The goal path of the pawn of `side`.
pub open spec fn runner_path(g: GameState, side: int) -> Seq<usize> {
    let start = game::pawn_of(g@, side);
    goal_path(g.topo(), side, start, board::goal_distance(g.topo(), side, start) as nat)
}

/// Every edge of the runner's path is one it cannot do without.
pub open spec fn zero_delay(g: GameState, side: int) -> bool {
    let start = game::pawn_of(g@, side);
    let p = runner_path(g, side);
    board::reaches_goal(g.topo(), side, start) && forall|i: int|
        0 <= i < p.len() - 1 ==> !reaches_avoiding(
            g.topo(),
            side,
            start,
            #[trigger] path_edge(p, i),
        )
}

/// Looks for a corridor that no wall can lengthen: every edge of the shortest path is
/// indispensable, so any wall on it would seal the runner in and is illegal.
pub fn detect_zero_delay_corridor(
    g: &GameState,
    side: usize,
    scratch: &mut CorridorScratch,
) -> (found: Option<RunnerGuarantee>)
    requires
        g.wf(),
        side < 2,
    ensures
        found is Some <==> zero_delay(*g, side as int),
        found matches Some(r) ==> {
            &&& r.side == side
            &&& r.path@ == runner_path(*g, side as int)
            &&& r.max_own_moves_to_goal == r.path@.len() - 1
            &&& r.max_own_moves_to_goal == board::goal_distance(
                g.topo(),
                side as int,
                game::pawn_of(g@, side as int),
            )
            &&& r.protected_edges@.len() == r.path@.len() - 1
            &&& forall|i: int|
                0 <= i < r.protected_edges@.len() ==> #[trigger] r.protected_edges@[i] == path_edge(
                    r.path@,
                    i,
                )
            &&& r.kind == RunnerGuaranteeKind::ZeroDelayCorridor
        },
{
    let ghost w = g.topo();
    let ghost s = side as int;
    let ghost from = game::pawn_of(g@, s);
    let path = match reconstruct_shortest_goal_path(g, side, scratch) {
        Some(p) => p,
        None => {
            return None;
        },
    };
    proof {
        let k = board::goal_distance(w, s, from);
        law_goal_path_runs_home(w, s, from, k as nat);
    }
    let steps: usize = path.len() - 1;
    let start: usize = path[0];
    let mut protected_edges: Vec<BoardEdge> = Vec::with_capacity(steps);
    let mut i: usize = 0;
    while i < steps
        invariant
            i <= steps,
            w == g.topo(),
            s == side,
            start < 81,
            start == from,
            from == game::pawn_of(g@, s),
            steps == path@.len() - 1,
            path@ == runner_path(*g, s),
            protected_edges@.len() == i,
            forall|k: int|
                0 <= k < i ==> #[trigger] protected_edges@[k] == path_edge(path@, k)
                    && !reaches_avoiding(w, s, from, path_edge(path@, k)),
        decreases steps - i,
    {
        let edge = BoardEdge::new(path[i], path[i + 1]);
        assert(edge == path_edge(path@, i as int));
        if any_goal_reachable_without_edge(g, side, start, edge, scratch) {
            return None;
        }
        protected_edges.push(edge);
        i += 1;
    }
    assert forall|k: int| 0 <= k < path@.len() - 1 implies !reaches_avoiding(
        w,
        s,
        from,
        #[trigger] path_edge(path@, k),
    ) by {
        assert(protected_edges@[k] == path_edge(path@, k));
    }
    Some(
        RunnerGuarantee {
            side,
            max_own_moves_to_goal: steps as u8,
            path,
            protected_edges,
            kind: RunnerGuaranteeKind::ZeroDelayCorridor,
        },
    )
}

/// Walls, as `100 + slot` (horizontal) and `200 + slot` (vertical), that can stand on
/// the edge between two cells.
pub open spec fn blocking_walls(a: int, b: int) -> Seq<i16> {
    let low = if a <= b {
        a
    } else {
        b
    };
    let row = low / 9;
    let col = low % 9;
    if a % 9 == b % 9 {
        (if row < 8 && col < 8 {
            seq![(100 + row * 8 + col) as i16]
        } else {
            Seq::empty()
        }) + (if row < 8 && col > 0 {
            seq![(100 + row * 8 + col - 1) as i16]
        } else {
            Seq::empty()
        })
    } else if a / 9 == b / 9 {
        (if row < 8 && col < 8 {
            seq![(200 + row * 8 + col) as i16]
        } else {
            Seq::empty()
        }) + (if row > 0 && col < 8 {
            seq![(200 + (row - 1) * 8 + col) as i16]
        } else {
            Seq::empty()
        })
    } else {
        Seq::empty()
    }
}

/// Walls geometrically capable of blocking `edge`.
pub fn walls_that_block_edge(edge: BoardEdge) -> (out: Vec<i16>)
    requires
        edge.a < 81,
        edge.b < 81,
    ensures
        out@ == blocking_walls(edge.a as int, edge.b as int),
{
    let mut out: Vec<i16> = Vec::with_capacity(2);
    let low: usize = if edge.a <= edge.b {
        edge.a
    } else {
        edge.b
    };
    let row: usize = low / 9;
    let col: usize = low % 9;
    if edge.a % 9 == edge.b % 9 {
        if row < 8 && col < 8 {
            out.push(100 + (row * 8 + col) as i16);
        }
        if row < 8 && col > 0 {
            out.push(100 + (row * 8 + (col - 1)) as i16);
        }
    } else if edge.a / 9 == edge.b / 9 {
        if row < 8 && col < 8 {
            out.push(200 + (row * 8 + col) as i16);
        }
        if row > 0 && col < 8 {
            out.push(200 + ((row - 1) * 8 + col) as i16);
        }
    }
    assert(out@ =~= blocking_walls(edge.a as int, edge.b as int));
    out
}

/// Code of a wall in `blocking_walls`.
pub open spec fn wall_code(wall_type: int, slot: int) -> int {
    if wall_type == 0 {
        100 + slot
    } else {
        200 + slot
    }
}

/// A blocking wall closes its edge from both sides.
proof fn lemma_wall_closes_edge(
    w: board::Topo,
    x: int,
    d0: int,
    wall_type: int,
    slot: int,
    c: int,
    d: int,
)
    requires
        board::topo_ok(w),
        0 <= x < 81,
        0 <= d0 < 4,
        board::step_open(w, x, d0),
        0 <= c < 81,
        0 <= d < 4,
        0 <= slot < 64,
        wall_type == 0 || wall_type == 1,
        blocking_walls(x, x + board::delta(d0)).contains(wall_code(wall_type, slot) as i16),
        0 <= c + board::delta(d) < 81,
        edge_between(c, c + board::delta(d)) == edge_between(x, x + board::delta(d0)),
    ensures
        !board::step_open(game::with_wall(w, moves::wall_move_id(wall_type, slot)), c, d),
{
    let y = x + board::delta(d0);
    board::lemma_step_on_board(w, x, d0);
    let low = if x <= y {
        x
    } else {
        y
    };
    let row = low / 9;
    let col = low % 9;
    let walls = blocking_walls(x, y);
    let k = choose|k: int| 0 <= k < walls.len() && walls[k] == wall_code(wall_type, slot) as i16;
    let after = game::with_wall(w, moves::wall_move_id(wall_type, slot));
    if d0 < 2 {
        // The two cells are stacked: only horizontal walls stand between them.
        assert(x % 9 == y % 9 && x / 9 != y / 9);
        assert(wall_type == 0);
        assert(slot == row * 8 + col && col < 8 || slot == row * 8 + col - 1 && col > 0);
        if slot == row * 8 + col && col < 8 {
            assert(board::wall_at(after.hw, row, col));
        } else {
            assert(board::wall_at(after.hw, row, col - 1));
        }
        assert((c == low && d == 1) || (c == low + 9 && d == 0));
    } else {
        assert(x / 9 == y / 9 && x % 9 != y % 9);
        assert(wall_type == 1);
        assert(slot == row * 8 + col && row < 8 || slot == (row - 1) * 8 + col && row > 0);
        if slot == row * 8 + col && row < 8 {
            assert(board::wall_at(after.vw, row, col));
        } else {
            assert(board::wall_at(after.vw, row - 1, col));
        }
        assert((c == low && d == 3) || (c == low + 1 && d == 2));
    }
}

/// A wall on a free slot opens no step.
proof fn lemma_wall_opens_nothing(w: board::Topo, wall_type: int, slot: int, c: int, d: int)
    requires
        board::topo_ok(w),
        0 <= c < 81,
        0 <= d < 4,
        0 <= slot < 64,
        game::fits(w, wall_type, slot),
        board::step_open(game::with_wall(w, moves::wall_move_id(wall_type, slot)), c, d),
    ensures
        board::step_open(w, c, d),
{
    let after = game::with_wall(w, moves::wall_move_id(wall_type, slot));
    let r = c / 9;
    let k = c % 9;
    assert forall|i: int| 0 <= i < 64 && w.hw[i] != 0 implies after.hw[i] != 0 by {}
    assert forall|i: int| 0 <= i < 64 && w.vw[i] != 0 implies after.vw[i] != 0 by {}
    assert forall|a: int, b: int| board::wall_at(w.hw, a, b) implies board::wall_at(
        after.hw,
        a,
        b,
    ) by {}
    assert forall|a: int, b: int| board::wall_at(w.vw, a, b) implies board::wall_at(
        after.vw,
        a,
        b,
    ) by {}
}

/// Goals reached behind a blocking wall are reached without its edge.
proof fn lemma_behind_wall_avoids_edge(
    w: board::Topo,
    side: int,
    x: int,
    d0: int,
    wall_type: int,
    slot: int,
    c: int,
    n: nat,
)
    requires
        board::topo_ok(w),
        0 <= x < 81,
        0 <= d0 < 4,
        board::step_open(w, x, d0),
        0 <= slot < 64,
        wall_type == 0 || wall_type == 1,
        game::fits(w, wall_type, slot),
        blocking_walls(x, x + board::delta(d0)).contains(wall_code(wall_type, slot) as i16),
        0 <= c < 81,
        board::goal_within(
            game::with_wall(w, moves::wall_move_id(wall_type, slot)),
            side,
            c,
            n,
        ),
    ensures
        goal_within_avoiding(w, side, c, edge_between(x, x + board::delta(d0)), n),
    decreases n,
{
    let after = game::with_wall(w, moves::wall_move_id(wall_type, slot));
    if !board::is_goal(side, c) {
        let d = choose|d: int|
            0 <= d < 4 && #[trigger] board::step_open(after, c, d) && board::goal_within(
                after,
                side,
                c + board::delta(d),
                (n - 1) as nat,
            );
        board::lemma_step_on_board(after, c, d);
        lemma_wall_opens_nothing(w, wall_type, slot, c, d);
        if edge_between(c, c + board::delta(d)) == edge_between(x, x + board::delta(d0)) {
            lemma_wall_closes_edge(w, x, d0, wall_type, slot, c, d);
        }
        lemma_behind_wall_avoids_edge(
            w,
            side,
            x,
            d0,
            wall_type,
            slot,
            c + board::delta(d),
            (n - 1) as nat,
        );
    }
}

/// In a zero-delay corridor every wall that would block an edge of the path is
/// illegal: the opponent cannot make the run any longer.
pub proof fn law_corridor_cannot_be_walled(
    g: GameState,
    side: int,
    i: int,
    wall_type: int,
    slot: int,
)
    requires
        g.wf(),
        side == 0 || side == 1,
        zero_delay(g, side),
        0 <= i < runner_path(g, side).len() - 1,
        wall_type == 0 || wall_type == 1,
        0 <= slot < 64,
        blocking_walls(
            path_edge(runner_path(g, side), i).a as int,
            path_edge(runner_path(g, side), i).b as int,
        ).contains(wall_code(wall_type, slot) as i16),
    ensures
        !game::wall_is_legal(g@, wall_type, slot),
{
    let w = g.topo();
    let start = game::pawn_of(g@, side);
    let p = runner_path(g, side);
    let k = board::goal_distance(w, side, start);
    let m = choose|n: nat| board::goal_within(w, side, start, n);
    board::lemma_least_steps_exist(w, side, start, m);
    law_goal_path_runs_home(w, side, start, k as nat);
    let x = p[i] as int;
    let y = p[i + 1] as int;
    assert(joined(w, x, y));
    let d0 = choose|d: int| 0 <= d < 4 && #[trigger] board::step_open(w, x, d) && y == x
        + board::delta(d);
    assert(blocking_walls(x, y) =~= blocking_walls(y, x));
    if game::wall_is_legal(g@, wall_type, slot) {
        let after = game::with_wall(w, moves::wall_move_id(wall_type, slot));
        assert(board::reaches_goal(after, side, start));
        let n = choose|n: nat| board::goal_within(after, side, start, n);
        lemma_behind_wall_avoids_edge(w, side, x, d0, wall_type, slot, start, n);
        assert(reaches_avoiding(w, side, start, path_edge(p, i)));
    }
}

/// First ply at which a player `dist` own moves from goal can arrive.
pub open spec fn terminal_ply(player: int, stm: int, dist: int) -> int {
    if dist == 0 {
        0
    } else if player == stm {
        2 * dist - 1
    } else {
        2 * dist
    }
}

/// Earliest ply at which `player` arrives when `stm` moves first.
pub fn earliest_terminal_ply(player: usize, stm: usize, dist: u8) -> (ply: u32)
    ensures
        ply == terminal_ply(player as int, stm as int, dist as int),
{
    if dist == 0 {
        0
    } else if player == stm {
        2 * dist as u32 - 1
    } else {
        2 * dist as u32
    }
}

/// Some cell lies on a shortest route of both players.
pub open spec fn routes_overlap(g: GameState, f0: Seq<u8>, f1: Seq<u8>) -> bool {
    exists|c: int|
        0 <= c < 81 && #[trigger] board::on_route(g.topo(), f0, g@.p0, c) && board::on_route(
            g.topo(),
            f1,
            g@.p1,
            c,
        )
}

/// Do the players' shortest routes share a cell?
pub fn paths_overlap(g: &GameState, d0: &[u8; 81], d1: &[u8; 81]) -> (overlap: bool)
    requires
        g.wf(),
        d0[g@.p0] < 255,
        d1[g@.p1] < 255,
    ensures
        overlap == routes_overlap(*g, d0@, d1@),
{
    let m0 = board::route_mask(&g.hw, &g.vw, d0, g.pawn[0]);
    let m1 = board::route_mask(&g.hw, &g.vw, d1, g.pawn[1]);
    let mut c: usize = 0;
    while c < 81
        invariant
            c <= 81,
            forall|k: int|
                0 <= k < 81 ==> (#[trigger] m0[k] != 0) == board::on_route(
                    g.topo(),
                    d0@,
                    g@.p0,
                    k,
                ),
            forall|k: int|
                0 <= k < 81 ==> (#[trigger] m1[k] != 0) == board::on_route(
                    g.topo(),
                    d1@,
                    g@.p1,
                    k,
                ),
            forall|k: int| 0 <= k < c ==> m0[k] == 0 || m1[k] == 0,
        decreases 81 - c,
    {
        if m0[c] != 0 && m1[c] != 0 {
            assert(board::on_route(g.topo(), d0@, g@.p0, c as int));
            return true;
        }
        c += 1;
    }
    assert forall|k: int| 0 <= k < 81 && #[trigger] board::on_route(
        g.topo(),
        d0@,
        g@.p0,
        k,
    ) implies !board::on_route(g.topo(), d1@, g@.p1, k) by {
        assert(m0[k] == 0 || m1[k] == 0);
    }
    false
}

/// Player 0 runs a zero-delay corridor away from player 1 and arrives first.
pub open spec fn certified_margin(g: GameState) -> bool {
    let w = g.topo();
    &&& zero_delay(g, 0)
    &&& board::reaches_goal(w, 1, g@.p1)
    &&& terminal_ply(0, 0, board::goal_distance(w, 0, g@.p0)) < terminal_ply(
        1,
        0,
        board::goal_distance(w, 1, g@.p1),
    )
    &&& forall|f0: Seq<u8>, f1: Seq<u8>|
        board::dist_field(w, 0, f0) && board::dist_field(w, 1, f1) ==> !#[trigger] routes_overlap(
            g,
            f0,
            f1,
        )
}

/// Does player 0 have a certified corridor with time to spare?
pub fn fixture_has_cert_margin(g: &GameState, scratch: &mut CorridorScratch) -> (ok: bool)
    requires
        g.wf(),
    ensures
        ok == certified_margin(*g),
{
    let ghost w = g.topo();
    let guarantee = match detect_zero_delay_corridor(g, 0, scratch) {
        Some(r) => r,
        None => {
            return false;
        },
    };
    let d0 = g.compute_dist(0);
    let d1 = g.compute_dist(1);
    let a: usize = g.pawn[0];
    let b: usize = g.pawn[1];
    proof {
        board::lemma_field_is_goal_distance(w, 0, d0@, a as int);
        board::lemma_field_is_goal_distance(w, 1, d1@, b as int);
    }
    if d1[b] == board::UNREACHABLE {
        return false;
    }
    let overlap: bool = paths_overlap(g, &d0, &d1);
    proof {
        assert forall|f0: Seq<u8>, f1: Seq<u8>|
            board::dist_field(w, 0, f0) && board::dist_field(
                w,
                1,
                f1,
            ) implies #[trigger] routes_overlap(*g, f0, f1) == overlap by {
            board::law_dist_field_unique(w, 0, f0, d0@);
            board::law_dist_field_unique(w, 1, f1, d1@);
        }
        assert(routes_overlap(*g, d0@, d1@) == overlap);
    }
    if overlap {
        return false;
    }
    earliest_terminal_ply(0, 0, guarantee.max_own_moves_to_goal) < earliest_terminal_ply(
        1,
        0,
        d1[b],
    )
}

/// What the fixture keeps while it is being built: player 0 on the central cell at its
/// open-board distance `d`, full hands, player 0 to move.
spec fn fixture_frame(g: GameState, d: int) -> bool {
    &&& g.wf()
    &&& g@.p0 == 40
    &&& g@.wl0 == 10
    &&& g@.wl1 == 10
    &&& g@.turn == 0
    &&& g@.hist.len() == 0
    &&& board::goal_distance(g.topo(), 0, 40) == d
}

/// One sweep over all walls: each is kept when it fits, seals nobody in and leaves
/// player 0 as near to goal as before. Stops early once the margin is certified.
fn fixture_sweep(g: GameState, d: u8, scratch: &mut CorridorScratch) -> (r: (
    GameState,
    bool,
    bool,
))
    requires
        fixture_frame(g, d as int),
    ensures
        fixture_frame(r.0, d as int),
        r.0@.p1 == g@.p1,
        r.2 ==> certified_margin(r.0),
{
    let mut cur: GameState = g;
    let mut improved: bool = false;
    let mut wall_type: usize = 0;
    while wall_type < 2
        invariant
            wall_type <= 2,
            fixture_frame(cur, d as int),
            cur@.p1 == g@.p1,
        decreases 2 - wall_type,
    {
        let mut slot: usize = 0;
        while slot < 64
            invariant
                wall_type < 2,
                slot <= 64,
                fixture_frame(cur, d as int),
                cur@.p1 == g@.p1,
            decreases 64 - slot,
        {
            if cur.wall_fits(wall_type, slot) {
                let mut next: GameState = cur.clone();
                next.put_wall(wall_type, slot);
                if next.has_path(0) && next.has_path(1) && shortest_distance(&next, 0) == d {
                    cur = next;
                    if fixture_has_cert_margin(&cur, scratch) {
                        return (cur, improved, true);
                    }
                    improved = true;
                }
            }
            slot += 1;
        }
        wall_type += 1;
    }
    (cur, improved, false)
}

/// The middle column is open between the first five rows.
spec fn column_open(w: board::Topo) -> bool {
    board::step_open(w, 40, 0) && board::step_open(w, 31, 0) && board::step_open(w, 22, 0)
        && board::step_open(w, 13, 0)
}

/// On an open middle column player 0 is four steps from goal, and goes straight.
proof fn lemma_column_is_four(w: board::Topo)
    requires
        column_open(w),
    ensures
        board::goal_within(w, 0, 4, 0),
        board::goal_within(w, 0, 13, 1),
        board::goal_within(w, 0, 22, 2),
        board::goal_within(w, 0, 31, 3),
        board::goal_within(w, 0, 40, 4),
        board::reaches_goal(w, 0, 40),
        board::goal_distance(w, 0, 40) == 4,
        goal_path(w, 0, 40, 4) == seq![40usize, 31usize, 22usize, 13usize, 4usize],
{
    assert(board::goal_within(w, 0, 4, 0));
    assert(board::goal_within(w, 0, 13, 1)) by {
        assert(board::step_open(w, 13, 0) && 13 + board::delta(0) == 4);
    }
    assert(board::goal_within(w, 0, 22, 2)) by {
        assert(board::step_open(w, 22, 0) && 22 + board::delta(0) == 13);
    }
    assert(board::goal_within(w, 0, 31, 3)) by {
        assert(board::step_open(w, 31, 0) && 31 + board::delta(0) == 22);
    }
    assert(board::goal_within(w, 0, 40, 4)) by {
        assert(board::step_open(w, 40, 0) && 40 + board::delta(0) == 31);
    }
    board::lemma_row_is_a_bound(w, 40, 3);
    board::lemma_least_steps_exist(w, 0, 40, 4);
    let k = board::goal_distance(w, 0, 40);
    if k < 4 {
        board::lemma_goal_within_grows(w, 0, 40, k as nat, 3);
    } else if k > 4 {
        board::lemma_goal_within_grows(w, 0, 40, 4, (k - 1) as nat);
    }
    assert(goal_path(w, 0, 4, 0) =~= seq![4usize]);
    assert(goal_path(w, 0, 13, 1) =~= seq![13usize, 4usize]);
    assert(goal_path(w, 0, 22, 2) =~= seq![22usize, 13usize, 4usize]);
    assert(goal_path(w, 0, 31, 3) =~= seq![31usize, 22usize, 13usize, 4usize]);
    assert(goal_path(w, 0, 40, 4) =~= seq![40usize, 31usize, 22usize, 13usize, 4usize]);
}

/// The first `rows` rows are fenced off from the next but for the middle column.
spec fn fenced(w: board::Topo, rows: int) -> bool {
    &&& w.hw.len() == 64
    &&& w.vw.len() == 64
    &&& forall|r: int| #![trigger w.hw[r * 8]]
        0 <= r < rows ==> w.hw[r * 8] != 0 && w.hw[r * 8 + 2] != 0 && w.hw[r * 8 + 5] != 0
            && w.hw[r * 8 + 7] != 0
    &&& forall|r: int| #![trigger w.hw[r * 8 + 3]]
        0 <= r < 8 ==> w.hw[r * 8 + 3] == 0 && w.hw[r * 8 + 4] == 0
    &&& forall|i: int| rows * 8 <= i < 64 ==> #[trigger] w.hw[i] == 0
}

/// Behind four fences nobody gets to the row above without the middle step.
proof fn lemma_no_way_round(w: board::Topo, r: int, cell: int, n: nat)
    requires
        fenced(w, 4),
        0 <= r < 4,
        r + 1 <= cell / 9,
        0 <= cell < 81,
    ensures
        !goal_within_avoiding(w, 0, cell, edge_between((r + 1) * 9 + 4, r * 9 + 4), n),
    decreases n,
{
    let e = edge_between((r + 1) * 9 + 4, r * 9 + 4);
    if goal_within_avoiding(w, 0, cell, e, n) {
        let d = choose|d: int|
            0 <= d < 4 && #[trigger] board::step_open(w, cell, d) && edge_between(
                cell,
                cell + board::delta(d),
            ) != e && goal_within_avoiding(w, 0, cell + board::delta(d), e, (n - 1) as nat);
        let to = cell + board::delta(d);
        board::lemma_step_on_board(w, cell, d);
        if to / 9 >= r + 1 {
            lemma_no_way_round(w, r, to, (n - 1) as nat);
        } else {
            let c = cell % 9;
            assert(d == 0 && cell / 9 == r + 1);
            assert(w.hw[r * 8] != 0);
            assert(!board::wall_at(w.hw, r, c) && !board::wall_at(w.hw, r, c - 1));
            assert(c == 4) by {
                if c == 0 {
                    assert(board::wall_at(w.hw, r, 0));
                } else if c == 1 {
                    assert(board::wall_at(w.hw, r, 0));
                } else if c == 2 || c == 3 {
                    assert(board::wall_at(w.hw, r, 2));
                } else if c == 5 || c == 6 {
                    assert(board::wall_at(w.hw, r, 5));
                } else if c == 7 || c == 8 {
                    assert(board::wall_at(w.hw, r, 7));
                }
            }
            assert(cell == (r + 1) * 9 + 4);
        }
    }
}

/// Behind four fences the runner's straight way cannot be lengthened.
proof fn lemma_fences_leave_no_delay(g: GameState)
    requires
        fenced(g.topo(), 4),
        g@.p0 == 40,
    ensures
        zero_delay(g, 0),
        board::goal_distance(g.topo(), 0, 40) == 4,
{
    let w = g.topo();
    assert(column_open(w)) by {
        assert forall|r: int| 0 <= r < 4 implies !board::wall_at(w.hw, r, 3) && !(
        #[trigger] board::wall_at(w.hw, r, 4)) by {
            assert(w.hw[r * 8 + 3] == 0);
        }
    }
    lemma_column_is_four(w);
    let p = runner_path(g, 0);
    assert forall|i: int| 0 <= i < p.len() - 1 implies !reaches_avoiding(
        w,
        0,
        40,
        #[trigger] path_edge(p, i),
    ) by {
        let e = path_edge(p, i);
        let r = 3 - i;
        assert(e == edge_between((r + 1) * 9 + 4, r * 9 + 4));
        if reaches_avoiding(w, 0, 40, e) {
            let n = choose|n: nat| goal_within_avoiding(w, 0, 40, e, n);
            lemma_no_way_round(w, r, 40, n);
        }
    }
}

/// Four fences across the board with the middle column open, player 0 behind them.
fn fenced_corridor() -> (g: GameState)
    ensures
        fixture_frame(g, 4),
        zero_delay(g, 0),
{
    let mut g = GameState::from_parts([40, 36], [10, 10], 0);
    let mut r: usize = 0;
    while r < 4
        invariant
            r <= 4,
            g.wf(),
            g@.p0 == 40,
            g@.wl0 == 10,
            g@.wl1 == 10,
            g@.turn == 0,
            g@.hist.len() == 0,
            fenced(g.topo(), r as int),
        decreases 4 - r,
    {
        let ghost before = g.topo();
        assert(before.hw[r * 8] == 0 && before.hw[r * 8 + 2] == 0 && before.hw[r * 8 + 5] == 0
            && before.hw[r * 8 + 7] == 0);
        g.put_wall(0, r * 8);
        g.put_wall(0, r * 8 + 2);
        g.put_wall(0, r * 8 + 5);
        g.put_wall(0, r * 8 + 7);
        proof {
            let w = g.topo();
            let s = r as int * 8;
            assert(w.hw =~= before.hw.update(s, 1u8).update(s + 2, 1u8).update(s + 5, 1u8).update(
                s + 7,
                1u8,
            ));
            assert forall|k: int| #![trigger w.hw[k * 8]] 0 <= k < r + 1 implies w.hw[k * 8] != 0
                && w.hw[k * 8 + 2] != 0 && w.hw[k * 8 + 5] != 0 && w.hw[k * 8 + 7] != 0 by {
                if k < r {
                    assert(before.hw[k * 8] != 0);
                    assert(w.hw[k * 8] == before.hw[k * 8]);
                    assert(w.hw[k * 8 + 2] == before.hw[k * 8 + 2]);
                    assert(w.hw[k * 8 + 5] == before.hw[k * 8 + 5]);
                    assert(w.hw[k * 8 + 7] == before.hw[k * 8 + 7]);
                }
            }
            assert forall|k: int| #![trigger w.hw[k * 8 + 3]] 0 <= k < 8 implies w.hw[k * 8 + 3] == 0
                && w.hw[k * 8 + 4] == 0 by {
                assert(before.hw[k * 8 + 3] == 0);
                assert(w.hw[k * 8 + 3] == before.hw[k * 8 + 3]);
                assert(w.hw[k * 8 + 4] == before.hw[k * 8 + 4]);
            }
            assert forall|i: int| (r + 1) * 8 <= i < 64 implies #[trigger] w.hw[i] == 0 by {
                assert(before.hw[i] == 0);
            }
            assert(fenced(w, r + 1));
        }
        r += 1;
    }
    proof {
        lemma_fences_leave_no_delay(g);
    }
    g
}

/// A hand-built position: player 0 in a corridor on the middle column that no wall can
/// lengthen, four steps from goal, and player 1 kept away from it. Where the sweeps leave no
/// certified margin, fences across the board make the corridor.
pub fn build_column_four_corridor_fixture() -> (g: GameState)
    ensures
        g.wf(),
        g@.p0 == 40,
        g@.wl0 == 10,
        g@.wl1 == 10,
        g@.turn == 0,
        g@.hist.len() == 0,
        board::reaches_goal(g.topo(), 0, g@.p0),
        board::goal_distance(g.topo(), 0, g@.p0) == 4,
        zero_delay(g, 0),
{
    let start = GameState::from_parts([40, 70], [10, 10], 0);
    let d: u8 = shortest_distance(&start, 0);
    let mut scratch = CorridorScratch::new();
    proof {
        assert(column_open(start.topo()));
        lemma_column_is_four(start.topo());
    }
    let mut g: GameState = start;
    if fixture_has_cert_margin(&g, &mut scratch) {
        return g;
    }
    let mut pass: usize = 0;
    let mut improved: bool = true;
    while pass < 32 && improved
        invariant
            fixture_frame(g, d as int),
            g@.p1 == 70,
            d == 4,
        decreases 32 - pass,
    {
        let (next, better, done) = fixture_sweep(g, d, &mut scratch);
        g = next;
        improved = better;
        if done {
            proof {
                lemma_near_is_reached(g, d as int);
            }
            return g;
        }
        pass += 1;
    }
    let mut p1: usize = 72;
    while p1 > 9
        invariant
            fixture_frame(g, d as int),
            9 <= p1 <= 72,
            d == 4,
        decreases p1,
    {
        p1 -= 1;
        if p1 != 40 {
            g.put_pawn(1, p1);
            if fixture_has_cert_margin(&g, &mut scratch) {
                proof {
                    lemma_near_is_reached(g, d as int);
                }
                return g;
            }
        }
    }
    let g: GameState = fenced_corridor();
    proof {
        lemma_near_is_reached(g, 4);
    }
    g
}

/// A finite goal distance means that a goal is reached.
proof fn lemma_near_is_reached(g: GameState, d: int)
    requires
        fixture_frame(g, d),
        d < 255,
    ensures
        board::reaches_goal(g.topo(), 0, g@.p0),
{
}

} // verus!

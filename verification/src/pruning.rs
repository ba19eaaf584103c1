//! Decisions of a search node: what may be cut before searching, how deep each child is
//! searched, what a child's score does to the node, and what the node may claim in the
//! table.

use crate::moves;
use crate::num;
use crate::score::{INF, MATE, MAX_PLY};
use crate::tt::SharedTtEntry;
use crate::tt;
use vstd::prelude::*;

verus! {

/// Static margin before a probe search may be spent.
pub const PROBCUT_STATIC_MARGIN: i32 = 200;

/// The probe search is this much shallower.
pub const PROBCUT_REDUCTION: i32 = 4;

pub const PROBCUT_MIN_DEPTH: i32 = 6;

/// Ordinary windows only: no mates, races or certificates.
pub const PROBCUT_MAX_ABS_BETA: i32 = 2_000;

/// Walls after the first move that are searched deeper.
pub const ACE_EME_TOP_MOVES: usize = 2;

/// Flat ordering bonus of a wall next to a shortest route.
pub const ROUTE_TOUCH_ORDER_BONUS: i32 = 20;

/// Extensions at leaves, at most.
pub const Q_SEARCH_MAX_DEFAULT: i32 = 4;

/// Evaluation swing that makes a wall worth extending.
pub const Q_SWING_CP_DEFAULT: i32 = 60;

/// Margin of reverse futility, where it applies.
pub open spec fn futility_margin(depth: int, improving: bool, ace_rfp: bool, max_depth: int) -> Option<
    int,
> {
    if ace_rfp {
        if depth <= max_depth {
            Some(100 * depth)
        } else {
            None
        }
    } else if depth <= 4 {
        Some(
            (if improving {
                70int
            } else {
                90int
            }) * depth,
        )
    } else {
        None
    }
}

/// Margin of reverse futility, where it applies.
pub fn reverse_futility_margin(depth: i32, improving: bool, ace_rfp: bool, ace_rfp_max_depth: i32) -> (margin:
    Option<i32>)
    requires
        -21_474_836 <= depth <= 21_474_836,
    ensures
        match margin {
            Some(v) => futility_margin(depth as int, improving, ace_rfp, ace_rfp_max_depth as int)
                == Some(v as int),
            None => futility_margin(depth as int, improving, ace_rfp, ace_rfp_max_depth as int)
                is None,
        },
{
    if ace_rfp {
        if depth <= ace_rfp_max_depth {
            Some(100 * depth)
        } else {
            None
        }
    } else if depth <= 4 {
        if improving {
            Some(70 * depth)
        } else {
            Some(90 * depth)
        }
    } else {
        None
    }
}

/// Depth up to which reverse futility reaches under a time budget.
pub fn rfp_depth_for_budget(tc_adaptive: bool, allotted_ms: u64) -> (d: i32)
    ensures
        d == if tc_adaptive && allotted_ms <= 200 {
            4int
        } else {
            3int
        },
{
    if tc_adaptive && allotted_ms <= 200 {
        4
    } else {
        3
    }
}

/// The node is so far above beta that it returns its static evaluation.
pub open spec fn futile(
    depth: int,
    alpha: int,
    beta: int,
    static_ev: int,
    improving: bool,
    ace_rfp: bool,
    max_depth: int,
) -> bool {
    match futility_margin(depth, improving, ace_rfp, max_depth) {
        Some(margin) => {
            &&& depth == 4 && max_depth == 4 ==> beta == alpha + 1
            &&& -2000 < beta < 2000
            &&& static_ev - margin >= beta
        },
        None => false,
    }
}

pub fn reverse_futility_cuts(
    depth: i32,
    alpha: i32,
    beta: i32,
    static_ev: i32,
    improving: bool,
    ace_rfp: bool,
    ace_rfp_max_depth: i32,
) -> (cut: bool)
    requires
        -10_000 <= depth <= 10_000,
        -INF <= static_ev <= INF,
    ensures
        cut == futile(
            depth as int,
            alpha as int,
            beta as int,
            static_ev as int,
            improving,
            ace_rfp,
            ace_rfp_max_depth as int,
        ),
{
    match reverse_futility_margin(depth, improving, ace_rfp, ace_rfp_max_depth) {
        Some(margin) => {
            let adaptive_depth_four: bool = depth == 4 && ace_rfp_max_depth == 4;
            let admissible: bool = !adaptive_depth_four || beta as i64 == alpha as i64 + 1;
            admissible && beta > -2000 && beta < 2000 && static_ev - margin >= beta
        },
        None => false,
    }
}

/// A probe search may verify the fail-high: away from the root, in a null window of
/// ordinary scores, well above beta, and not inside another speculative search.
pub open spec fn probcut_open(
    depth: int,
    alpha: int,
    beta: int,
    ply: int,
    allow_null: bool,
    static_ev: int,
) -> bool {
    &&& depth >= 6
    &&& ply > 0
    &&& allow_null
    &&& beta - alpha == 1
    &&& -2000 < beta < 2000
    &&& static_ev >= beta + 200
}

/// May a probe search verify the fail-high?
pub fn probcut_is_eligible(
    depth: i32,
    alpha: i32,
    beta: i32,
    ply: usize,
    allow_null: bool,
    static_ev: i32,
) -> (yes: bool)
    ensures
        yes == probcut_open(
            depth as int,
            alpha as int,
            beta as int,
            ply as int,
            allow_null,
            static_ev as int,
        ),
{
    depth >= PROBCUT_MIN_DEPTH && ply > 0 && allow_null && beta > -PROBCUT_MAX_ABS_BETA && beta
        < PROBCUT_MAX_ABS_BETA && beta as i64 - alpha as i64 == 1 && static_ev
        >= beta + PROBCUT_STATIC_MARGIN
}

/// Passing the turn may show that the node is above beta.
pub open spec fn null_open(depth: int, ply: int, allow_null: bool, static_ev: int, beta: int) -> bool {
    allow_null && depth >= 3 && ply > 0 && static_ev >= beta
}

pub fn null_move_applies(depth: i32, ply: usize, allow_null: bool, static_ev: i32, beta: i32) -> (yes:
    bool)
    ensures
        yes == null_open(depth as int, ply as int, allow_null, static_ev as int, beta as int),
{
    allow_null && depth >= 3 && ply > 0 && static_ev >= beta
}

/// The score after the pass cuts: above beta, and no mate found by passing.
pub open spec fn null_cut(ns: int, beta: int) -> bool {
    ns >= beta && ns < MATE - 200
}

pub fn null_move_cuts(ns: i32, beta: i32) -> (yes: bool)
    ensures
        yes == null_cut(ns as int, beta as int),
{
    ns >= beta && ns < MATE - 200
}

/// A late wall that is not searched at all.
pub open spec fn late_wall(
    i: int,
    depth: int,
    ply: int,
    improving: bool,
    ace_lmp: bool,
    m: int,
    tt_move: int,
    hist: int,
    best: int,
) -> bool {
    &&& if ace_lmp {
        depth <= 3 && i >= 24
    } else {
        depth <= 2 && i >= if improving {
            14int
        } else {
            8int
        }
    }
    &&& ply > 0
    &&& moves::wall_id(m)
    &&& m != tt_move
    &&& hist <= 0
    &&& best > -MATE + 200
}

pub fn late_wall_is_skipped(
    i: usize,
    depth: i32,
    ply: usize,
    improving: bool,
    ace_lmp: bool,
    m: i16,
    tt_move: i16,
    hist: i32,
    best: i32,
) -> (skip: bool)
    ensures
        skip == late_wall(
            i as int,
            depth as int,
            ply as int,
            improving,
            ace_lmp,
            m as int,
            tt_move as int,
            hist as int,
            best as int,
        ),
{
    let late: bool = if ace_lmp {
        depth <= 3 && i >= 24
    } else if improving {
        depth <= 2 && i >= 14
    } else {
        depth <= 2 && i >= 8
    };
    late && ply > 0 && moves::is_wall_move(m) && m != tt_move && hist <= 0 && best > -MATE + 200
}

/// Extra plies of an early wall.
pub fn ace_graduated_eme_extension(move_index: usize, depth: i32) -> (ext: i32)
    ensures
        ext == if move_index == 1 && depth >= 8 {
            2int
        } else {
            1int
        },
{
    if move_index == 1 && depth >= 8 {
        2
    } else {
        1
    }
}

/// How a child is searched.
#[derive(Clone, Copy, Debug, PartialEq, Eq, Structural)]
pub enum ChildPlan {
    /// Full window whatever the bounds: every root move gets its own score.
    Open,
    /// The node's window, deeper by this much.
    Extended(i32),
    /// A reduced null window first, the full window when it fails high.
    ReducedWall,
    /// The same for a pawn move.
    ReducedPawn,
    /// A null window at full depth, the full window when it lands inside.
    Scout,
    /// The node's window.
    Window,
}

/// Where reductions begin.
#[derive(Clone, Copy, Debug, PartialEq, Eq, Structural)]
pub struct LmrGate {
    /// First move place that may be reduced.
    pub after_move: usize,
    /// Least depth with reductions.
    pub min_depth: i32,
}

/// Switches of the search that shape the plan of a child.
#[derive(Clone, Copy, Debug, PartialEq, Eq, Structural)]
pub struct PlanSwitches {
    pub multipv: usize,
    pub eme: bool,
    pub cat_lmr_v16: bool,
    pub gate: LmrGate,
}

/// Plan of the child at place `i`.
pub open spec fn child_plan(
    s: PlanSwitches,
    i: int,
    depth: int,
    ply: int,
    m: int,
    tt_move: int,
) -> ChildPlan {
    if ply == 0 && s.multipv > 1 {
        ChildPlan::Open
    } else if s.eme && 0 < i <= 2 && depth >= s.gate.min_depth && moves::wall_id(m) && m != tt_move {
        ChildPlan::Extended(
            if i == 1 && depth >= 8 {
                2
            } else {
                1
            },
        )
    } else if i >= s.gate.after_move && depth >= s.gate.min_depth && moves::wall_id(m) && m
        != tt_move {
        ChildPlan::ReducedWall
    } else if s.cat_lmr_v16 && moves::pawn_id(m) && i > 0 && depth >= s.gate.min_depth && m
        != tt_move {
        ChildPlan::ReducedPawn
    } else if i > 0 {
        ChildPlan::Scout
    } else {
        ChildPlan::Window
    }
}

pub fn plan_child(s: PlanSwitches, i: usize, depth: i32, ply: usize, m: i16, tt_move: i16) -> (plan:
    ChildPlan)
    ensures
        plan == child_plan(s, i as int, depth as int, ply as int, m as int, tt_move as int),
{
    if ply == 0 && s.multipv > 1 {
        ChildPlan::Open
    } else if s.eme && i > 0 && i <= ACE_EME_TOP_MOVES && depth >= s.gate.min_depth
        && moves::is_wall_move(m) && m != tt_move {
        ChildPlan::Extended(ace_graduated_eme_extension(i, depth))
    } else if i >= s.gate.after_move && depth >= s.gate.min_depth && moves::is_wall_move(m) && m
        != tt_move {
        ChildPlan::ReducedWall
    } else if s.cat_lmr_v16 && moves::is_pawn_move(m) && i > 0 && depth >= s.gate.min_depth && m
        != tt_move {
        ChildPlan::ReducedPawn
    } else if i > 0 {
        ChildPlan::Scout
    } else {
        ChildPlan::Window
    }
}

/// Depth of a reduced child: never below zero.
pub open spec fn reduced_depth(new_depth: int, reduction: int, extra: bool) -> int {
    let used = num::larger(new_depth - num::larger(reduction, 0), 0);
    num::larger(
        used - if extra {
            1int
        } else {
            0int
        },
        0,
    )
}

pub fn reduce_depth(new_depth: i32, reduction: i32, extra: bool) -> (rd: i32)
    requires
        0 <= new_depth,
    ensures
        rd == reduced_depth(new_depth as int, reduction as int, extra),
        0 <= rd <= new_depth,
{
    let cut: i32 = reduction.max(0);
    let used: i32 = (new_depth - cut).max(0);
    if extra {
        (used - 1).max(0)
    } else {
        used
    }
}

/// Plies taken off a late wall: without heat at least one ply of the child stays.
pub open spec fn wall_cut(reduction: int, new_depth: int, heat_shaped: bool) -> int {
    if heat_shaped {
        reduction
    } else {
        num::smaller(reduction, num::larger(new_depth - 1, 0))
    }
}

pub fn cap_wall_reduction(reduction: i32, new_depth: i32, heat_shaped: bool) -> (red: i32)
    requires
        0 <= new_depth,
    ensures
        red == wall_cut(reduction as int, new_depth as int, heat_shaped),
{
    if heat_shaped {
        reduction
    } else {
        reduction.min((new_depth - 1).max(0))
    }
}

/// A second search is due after the first score: a reduced one that failed high, or a
/// null window that landed inside.
pub open spec fn wants_research(plan: ChildPlan, score: int, alpha: int, beta: int) -> bool {
    match plan {
        ChildPlan::ReducedWall | ChildPlan::ReducedPawn => score > alpha,
        ChildPlan::Scout => score > alpha && score < beta,
        _ => false,
    }
}

pub fn research_due(plan: ChildPlan, score: i32, alpha: i32, beta: i32) -> (yes: bool)
    ensures
        yes == wants_research(plan, score as int, alpha as int, beta as int),
{
    match plan {
        ChildPlan::ReducedWall | ChildPlan::ReducedPawn => score > alpha,
        ChildPlan::Scout => score > alpha && score < beta,
        _ => false,
    }
}

/// Running result of a node. `best` is `None` until a child has been searched.
#[derive(Clone, Copy, Debug, PartialEq, Eq, Structural)]
pub struct NodeState {
    pub alpha: i32,
    pub best: Option<i32>,
    pub best_move: i16,
    /// 0 exact, 1 lower bound, 2 upper bound.
    pub flag: i32,
}

/// A node before its first child.
pub open spec fn node_start(alpha: i32) -> NodeState {
    NodeState { alpha, best: None, best_move: 0, flag: 2 }
}

/// The child is better than what the node has.
pub open spec fn improves(s: NodeState, score: int, prefer: bool) -> bool {
    (match s.best {
        Some(b) => score > b,
        None => true,
    }) || prefer
}

/// The child raises alpha.
pub open spec fn raises(s: NodeState, score: int, prefer: bool) -> bool {
    improves(s, score, prefer) && (score > s.alpha || prefer)
}

/// The node after a child: `prefer` lets an equal score replace a repeating move.
pub open spec fn absorbed(s: NodeState, score: i32, m: i16, prefer: bool, beta: int) -> NodeState {
    if raises(s, score as int, prefer) {
        NodeState {
            alpha: score,
            best: Some(score),
            best_move: m,
            flag: if score >= beta {
                1
            } else {
                0
            },
        }
    } else if improves(s, score as int, prefer) {
        NodeState { best: Some(score), best_move: m, ..s }
    } else {
        s
    }
}

/// What a child did to its node.
#[derive(Clone, Copy, Debug, PartialEq, Eq, Structural)]
pub struct Absorbed {
    pub state: NodeState,
    /// Alpha rose.
    pub raised: bool,
    /// Beta is reached: no more children.
    pub cutoff: bool,
}

/// Takes a child's score into the node.
pub fn absorb_child(s: NodeState, score: i32, m: i16, prefer: bool, beta: i32) -> (a: Absorbed)
    ensures
        a.state == absorbed(s, score, m, prefer, beta as int),
        a.raised == raises(s, score as int, prefer),
        a.cutoff == (raises(s, score as int, prefer) && score >= beta),
{
    let better: bool = prefer || match s.best {
        Some(b) => score > b,
        None => true,
    };
    if !better {
        return Absorbed { state: s, raised: false, cutoff: false };
    }
    if score > s.alpha || prefer {
        let cutoff: bool = score >= beta;
        let flag: i32 = if cutoff {
            1
        } else {
            0
        };
        Absorbed {
            state: NodeState { alpha: score, best: Some(score), best_move: m, flag },
            raised: true,
            cutoff,
        }
    } else {
        Absorbed {
            state: NodeState { alpha: s.alpha, best: Some(score), best_move: m, flag: s.flag },
            raised: false,
            cutoff: false,
        }
    }
}

/// One searched child of a node: its place in the move order, its score, and whether an
/// equal score was preferred.
pub struct Visit {
    pub place: int,
    pub m: i16,
    pub score: i32,
    pub prefer: bool,
    /// Lower end of the window it was searched with.
    pub alpha: i32,
}

/// A run of children taken into a node.
pub open spec fn absorbed_all(s: NodeState, visits: Seq<Visit>, beta: int) -> NodeState
    decreases visits.len(),
{
    if visits.len() == 0 {
        s
    } else {
        let v = visits.last();
        absorbed(absorbed_all(s, visits.drop_last(), beta), v.score, v.m, v.prefer, beta)
    }
}

/// Each child was searched with the lower end that the ones before it left.
pub open spec fn windows_follow(s: NodeState, visits: Seq<Visit>, beta: int) -> bool {
    forall|k: int|
        0 <= k < visits.len() ==> (#[trigger] visits[k]).alpha == absorbed_all(
            s,
            visits.take(k),
            beta,
        ).alpha
}

/// Only equal scores were preferred.
pub open spec fn prefers_equals(s: NodeState, visits: Seq<Visit>, beta: int) -> bool {
    forall|k: int|
        0 <= k < visits.len() && (#[trigger] visits[k]).prefer ==> absorbed_all(
            s,
            visits.take(k),
            beta,
        ).best == Some(visits[k].score)
}

/// A node's best is the maximum of its children's scores, reached by its best move. Where
/// no equal score was preferred, its flag says on which side of the window it fell.
pub proof fn law_node_takes_the_maximum(alpha: i32, beta: int, visits: Seq<Visit>)
    requires
        visits.len() > 0,
        alpha < beta,
        prefers_equals(node_start(alpha), visits, beta),
    ensures
        ({
            let s = absorbed_all(node_start(alpha), visits, beta);
            &&& s.best is Some
            &&& forall|i: int| 0 <= i < visits.len() ==> (#[trigger] visits[i]).score <= s.best->0
            &&& exists|i: int|
                0 <= i < visits.len() && (#[trigger] visits[i]).score == s.best->0 && visits[i].m
                    == s.best_move
            &&& (forall|i: int| 0 <= i < visits.len() ==> !(#[trigger] visits[i]).prefer) ==> s.flag
                == (if s.best->0 <= alpha {
                2int
            } else if s.best->0 >= beta {
                1int
            } else {
                0int
            }) && s.alpha == num::larger(alpha as int, s.best->0 as int)
        }),
    decreases visits.len(),
{
    let n = visits.len() as int;
    let rest = visits.drop_last();
    let before = absorbed_all(node_start(alpha), rest, beta);
    let after = absorbed_all(node_start(alpha), visits, beta);
    let last = visits.last();
    assert(visits[n - 1] == last);
    assert(visits.take(n - 1) =~= rest);
    if n > 1 {
        assert forall|k: int| 0 <= k < rest.len() && (#[trigger] rest[k]).prefer implies absorbed_all(
            node_start(alpha),
            rest.take(k),
            beta,
        ).best == Some(rest[k].score) by {
            assert(rest[k] == visits[k]);
            assert(rest.take(k) =~= visits.take(k));
        }
        law_node_takes_the_maximum(alpha, beta, rest);
        assert forall|i: int| 0 <= i < n implies (#[trigger] visits[i]).score <= after.best->0 by {
            if i < n - 1 {
                assert(rest[i] == visits[i]);
            }
        }
        if improves(before, last.score as int, last.prefer) {
            assert(visits[n - 1].score == after.best->0);
        } else {
            let i = choose|i: int|
                0 <= i < n - 1 && (#[trigger] rest[i]).score == before.best->0 && rest[i].m
                    == before.best_move;
            assert(visits[i] == rest[i]);
        }
        if forall|i: int| 0 <= i < n ==> !(#[trigger] visits[i]).prefer {
            assert forall|i: int| 0 <= i < n - 1 implies !(#[trigger] rest[i]).prefer by {
                assert(rest[i] == visits[i]);
            }
        }
    } else {
        assert(before == node_start(alpha));
        assert(visits[0].score == after.best->0);
    }
}

/// Score of a table entry that ends the node: deep enough, not at the root, a bound that
/// the window confirms, and no claim that leans on a repetition outside the node.
pub open spec fn table_cut(e: SharedTtEntry, depth: int, ply: int, alpha: int, beta: int) -> Option<int> {
    let es = tt::node_score(e.score as int, ply);
    let flag = tt::word_flag(e.meta as int);
    if ply > 0 && tt::word_depth(e.meta as int) >= depth && e.rep == 0 && (flag == 0 || (flag == 1
        && es >= beta) || (flag == 2 && es <= alpha)) {
        Some(es)
    } else {
        None
    }
}

/// Does the table entry end the node?
pub fn table_cutoff(e: &SharedTtEntry, depth: i32, ply: usize, alpha: i32, beta: i32) -> (cut: Option<
    i32,
>)
    requires
        -1_000_000 <= e.score <= 1_000_000,
        e.meta >= 0,
        ply < MAX_PLY,
    ensures
        match cut {
            Some(v) => table_cut(*e, depth as int, ply as int, alpha as int, beta as int) == Some(
                v as int,
            ),
            None => table_cut(*e, depth as int, ply as int, alpha as int, beta as int) is None,
        },
{
    if ply == 0 || tt::tt_unpack_depth(e.meta) < depth || e.rep != 0 {
        return None;
    }
    let flag: i32 = tt::tt_word_flag(e.meta);
    let es: i32 = tt::score_from_table(e.score, ply);
    if flag == 0 || (flag == 1 && es >= beta) || (flag == 2 && es <= alpha) {
        Some(es)
    } else {
        None
    }
}

/// A claim that leans on a repetition outside the node never cuts, whatever it says.
pub proof fn law_tainted_entry_never_cuts(
    e: SharedTtEntry,
    depth: int,
    ply: int,
    alpha: int,
    beta: int,
)
    requires
        e.rep != 0,
    ensures
        table_cut(e, depth, ply, alpha, beta) is None,
{
}

/// What a node may claim in the table when its score leans on a repetition outside it:
/// flag and taint.
pub open spec fn fenced(flag: int, best: int, tainted: bool) -> (int, bool) {
    if !tainted {
        (flag, false)
    } else if best > 0 {
        if flag == 0 {
            (1, false)
        } else {
            (flag, flag == 2)
        }
    } else if best < 0 {
        if flag == 0 {
            (2, false)
        } else {
            (flag, flag == 1)
        }
    } else {
        (flag, true)
    }
}

/// What a node may claim in the table.
pub fn fence_claim(flag: i32, best: i32, tainted: bool) -> (claim: (i32, bool))
    ensures
        (claim.0 as int, claim.1) == fenced(flag as int, best as int, tainted),
{
    if !tainted {
        (flag, false)
    } else if best > 0 {
        if flag == 0 {
            (1, false)
        } else {
            (flag, flag == 2)
        }
    } else if best < 0 {
        if flag == 0 {
            (2, false)
        } else {
            (flag, flag == 1)
        }
    } else {
        (flag, true)
    }
}

/// A tainted score is stored without taint only as a bound away from zero: a win as a
/// lower bound, a loss as an upper bound. A zero taken from a repetition can only have
/// held such a score back.
pub proof fn law_untainted_claims_lean_away_from_zero(flag: int, best: int)
    requires
        0 <= flag <= 2,
    ensures
        !fenced(flag, best, true).1 ==> (best > 0 && fenced(flag, best, true).0 == 1) || (best < 0
            && fenced(flag, best, true).0 == 2),
        fenced(flag, best, false) == (flag, false),
{
}

/// Repetitions a subtree leans on: the least ply it repeats, and the key found there.
#[derive(Clone, Copy, Debug, PartialEq, Eq, Structural)]
pub struct RepWindow {
    /// Least ply repeated; above every ply when there is none, negative when the score is
    /// a truncation.
    pub min_ply: i32,
    pub anc_lo: u32,
    pub anc_hi: u32,
}

/// A subtree that leans on nothing.
pub open spec fn no_repetition() -> RepWindow {
    RepWindow { min_ply: 64, anc_lo: 0, anc_hi: 0 }
}

/// Node and child together.
pub open spec fn merged(node: RepWindow, child: RepWindow) -> RepWindow {
    if child.min_ply < node.min_ply {
        child
    } else {
        node
    }
}

pub fn merge_windows(node: RepWindow, child: RepWindow) -> (w: RepWindow)
    ensures
        w == merged(node, child),
{
    if child.min_ply < node.min_ply {
        child
    } else {
        node
    }
}

/// Does the score of a node at `ply` lean on something outside it?
pub open spec fn leans_outside(w: RepWindow, ply: int) -> bool {
    w.min_ply < ply
}

/// If a child leans on something outside its parent, so does the parent.
pub proof fn law_taint_reaches_the_parent(node: RepWindow, child: RepWindow, ply: int)
    requires
        leans_outside(child, ply),
    ensures
        leans_outside(merged(node, child), ply),
{
}

/// Did a wall stir the evaluation enough to extend? `swing_cp` of zero asks for no swing.
pub open spec fn swing_enough(static_ev: int, parent_static: int, swing_cp: int) -> bool {
    swing_cp <= 0 || num::magnitude(static_ev + parent_static) >= swing_cp
}

pub fn swing_is_enough(static_ev: i32, parent_static: i32, swing_cp: i32) -> (yes: bool)
    ensures
        yes == swing_enough(static_ev as int, parent_static as int, swing_cp as int),
{
    let sum: i64 = static_ev as i64 + parent_static as i64;
    let size: i64 = if sum < 0 {
        -sum
    } else {
        sum
    };
    swing_cp <= 0 || size >= swing_cp as i64
}

} // verus!

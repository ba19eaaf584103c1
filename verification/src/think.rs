//! Iterative deepening and the search's final answer.

use crate::board;
use crate::config::SearchConfig;
use crate::eval;
use crate::game;
use crate::history;
use crate::host::{BookAdvice, SearchHost};
use crate::lazy_smp::WorkerPlan;
use crate::movegen;
use crate::moves;
use crate::num;
use crate::ordering;
use crate::pruning;
use crate::race;
use crate::race::{RaceOutcomeStats, RaceProver};
use crate::race_cache;
use crate::race_cache::RaceCache;
use crate::race_root;
use crate::race_root::RaceRootSolution;
use crate::race_table;
use crate::root_moves;
use crate::root_select::{CleanWinCandidate, RootDefenseDiag};
use crate::root_verify;
use crate::routes;
use crate::score;
use crate::score::{RaceResultInfo, INF, MATE};
use crate::search;
use crate::search::{TimeUp, TitaniumSearch};
use crate::timing;
use crate::timing::{AceDepthLogEntry, TimingDiag};
use crate::trace;
use crate::trace::{Asked, Call};
use crate::tt;
use vstd::prelude::*;

verus! {

/// Half width of the first aspiration window.
pub const ASP_WINDOW: i32 = 75;

/// The search's answer.
#[derive(Clone)]
pub struct ThinkResult {
    pub mv: i16,
    pub score: i32,
    pub root_moves: Vec<(i16, i32)>,
    pub depth: i32,
    pub nodes: u64,
    pub main_thread_nodes: u64,
    pub helper_nodes: Vec<u64>,
    pub total_nodes: u64,
    pub main_completed_depth: i32,
    pub helper_completed_depths: Vec<i32>,
    pub root_widths: Vec<WorkerPlan>,
    pub root_visits: Vec<Vec<usize>>,
    /// Root moves left to each worker.
    pub root_move_ids: Vec<Vec<i16>>,
    pub ms: u64,
    pub white_dist: u8,
    pub black_dist: u8,
    pub depth_log: Vec<AceDepthLogEntry>,
    pub stop_reason: &'static str,
    pub race_outcome_stats: RaceOutcomeStats,
    /// Last lost-position pass, one entry per root move.
    pub root_defense_diag: Vec<RootDefenseDiag>,
    pub race: RaceResultInfo,
    pub timing: TimingDiag,
}

/// Why a search ended.
#[derive(Clone, Copy, Debug, PartialEq, Eq, Structural)]
pub enum StopReason {
    SoftBudgetBefore,
    Predicted,
    DeadlineBefore,
    TimeUp,
    Forced,
    EasyMove,
    SoftBudgetAfter,
    MaxDepth,
}

/// Text of a reason.
pub open spec fn reason_text(r: StopReason) -> Seq<char> {
    match r {
        StopReason::SoftBudgetBefore => "stability_soft_budget_before_depth"@,
        StopReason::Predicted => "predicted_over_time_budget_before_depth"@,
        StopReason::DeadlineBefore => "deadline_before_depth"@,
        StopReason::TimeUp => "time_up"@,
        StopReason::Forced => "forced_mate_or_loss"@,
        StopReason::EasyMove => "easy_move_stable"@,
        StopReason::SoftBudgetAfter => "stability_soft_budget_after_depth"@,
        StopReason::MaxDepth => "max_depth_completed"@,
    }
}

impl StopReason {
    /// Text of the reason.
    pub fn text(self) -> (t: &'static str)
        ensures
            t@ == reason_text(self),
    {
        match self {
            StopReason::SoftBudgetBefore => "stability_soft_budget_before_depth",
            StopReason::Predicted => "predicted_over_time_budget_before_depth",
            StopReason::DeadlineBefore => "deadline_before_depth",
            StopReason::TimeUp => "time_up",
            StopReason::Forced => "forced_mate_or_loss",
            StopReason::EasyMove => "easy_move_stable",
            StopReason::SoftBudgetAfter => "stability_soft_budget_after_depth",
            StopReason::MaxDepth => "max_depth_completed",
        }
    }
}

/// Depth limit of a search: none is 128, and none goes beyond what the table can hold.
pub open spec fn depth_limit_of(max_depth: int) -> int {
    if max_depth > 0 {
        num::smaller(max_depth, 255)
    } else {
        128
    }
}

pub fn depth_limit(max_depth: i32) -> (d: i32)
    ensures
        d == depth_limit_of(max_depth as int),
{
    if max_depth > 0 {
        max_depth.min(tt::TT_DEPTH_MAX)
    } else {
        128
    }
}

/// First iteration and its expected score: a deep exact table entry of the root lets the
/// search resume two plies before it.
pub open spec fn resume_point(pure_mode: bool, e: Option<tt::SharedTtEntry>) -> (int, int) {
    match e {
        Some(x) => if !pure_mode && tt::word_depth(x.meta as int) >= 4 && tt::word_flag(
            x.meta as int,
        ) == 0 {
            (num::larger(tt::word_depth(x.meta as int) - 2, 1), x.score as int)
        } else {
            (1, 0)
        },
        None => (1, 0),
    }
}

pub fn resume_from(pure_mode: bool, e: Option<tt::SharedTtEntry>) -> (r: (i32, i32))
    requires
        e matches Some(x) ==> search::entry_usable(x),
    ensures
        (r.0 as int, r.1 as int) == resume_point(pure_mode, e),
        1 <= r.0 <= 255,
{
    match e {
        Some(x) => {
            let d: i32 = tt::tt_unpack_depth(x.meta);
            if !pure_mode && d >= 4 && tt::tt_word_flag(x.meta) == 0 {
                ((d - 2).max(1), x.score)
            } else {
                (1, 0)
            }
        },
        None => (1, 0),
    }
}

/// What iterative deepening carries from one depth to the next.
#[derive(Clone, Copy, Debug, PartialEq, Eq, Structural)]
pub struct IdState {
    pub last_best: i16,
    pub last_score: i32,
    pub last_depth: i32,
    /// Iterations in a row with the same best move.
    pub stable: u32,
    pub best_move_changes: u32,
    /// Score change against the last finished iteration.
    pub score_delta: i32,
    /// Best root move that is no wall, and its score.
    pub last_pawn_best: i16,
    pub last_pawn_score: Option<i32>,
    pub partial_iter_used: bool,
}

/// What a finished or aborted iteration left at the root.
#[derive(Clone, Copy, Debug, PartialEq, Eq, Structural)]
pub struct RootReport {
    pub best: i16,
    pub score: i32,
    pub pawn_best: i16,
    pub pawn_score: Option<i32>,
}

/// `x + 1`, at most the largest value.
pub open spec fn one_more(x: u32) -> u32 {
    if x == u32::MAX {
        x
    } else {
        (x + 1) as u32
    }
}

/// Best pawn move so far with the new report, if it names one.
pub open spec fn pawn_after(s: IdState, root: RootReport) -> (i16, Option<i32>) {
    if root.pawn_best >= 0 {
        (root.pawn_best, root.pawn_score)
    } else {
        (s.last_pawn_best, s.last_pawn_score)
    }
}

/// State after an iteration finished with score `sc`.
pub open spec fn completed(s: IdState, sc: i32, d: i32, root: RootReport) -> IdState {
    IdState {
        last_best: root.best,
        last_score: sc,
        last_depth: d,
        stable: if root.best == s.last_best {
            one_more(s.stable)
        } else {
            0
        },
        best_move_changes: if root.best != s.last_best && s.last_best != -1 && root.best >= 0 {
            one_more(s.best_move_changes)
        } else {
            s.best_move_changes
        },
        score_delta: if s.last_depth > 0 {
            (sc - s.last_score) as i32
        } else {
            0
        },
        last_pawn_best: pawn_after(s, root).0,
        last_pawn_score: pawn_after(s, root).1,
        partial_iter_used: s.partial_iter_used,
    }
}

/// Takes a finished iteration into the state.
pub fn complete_iteration(s: IdState, sc: i32, d: i32, root: RootReport) -> (t: IdState)
    requires
        search::score_ok(sc as int),
        -INF - 64 <= s.last_score <= INF + 64,
    ensures
        t == completed(s, sc, d, root),
{
    let changed: bool = root.best != s.last_best && s.last_best != moves::TITANIUM_NO_MOVE
        && root.best >= 0;
    let (pb, ps): (i16, Option<i32>) = if root.pawn_best >= 0 {
        (root.pawn_best, root.pawn_score)
    } else {
        (s.last_pawn_best, s.last_pawn_score)
    };
    IdState {
        last_best: root.best,
        last_score: sc,
        last_depth: d,
        stable: if root.best == s.last_best {
            s.stable.saturating_add(1)
        } else {
            0
        },
        best_move_changes: if changed {
            s.best_move_changes.saturating_add(1)
        } else {
            s.best_move_changes
        },
        score_delta: if s.last_depth > 0 {
            sc - s.last_score
        } else {
            0
        },
        last_pawn_best: pb,
        last_pawn_score: ps,
        partial_iter_used: s.partial_iter_used,
    }
}

/// State after an iteration ran out of time: with partial iterations on, the best root
/// move it had finished counts.
pub open spec fn aborted(s: IdState, use_partial: bool, d: i32, root: RootReport) -> IdState {
    if use_partial && root.best >= 0 {
        IdState {
            last_best: root.best,
            last_score: root.score,
            last_depth: d,
            last_pawn_best: pawn_after(s, root).0,
            last_pawn_score: pawn_after(s, root).1,
            partial_iter_used: true,
            ..s
        }
    } else {
        s
    }
}

/// Takes an aborted iteration into the state.
pub fn abort_iteration(s: IdState, use_partial: bool, d: i32, root: RootReport) -> (t: IdState)
    ensures
        t == aborted(s, use_partial, d, root),
{
    if !(use_partial && root.best >= 0) {
        return s;
    }
    let (pb, ps): (i16, Option<i32>) = if root.pawn_best >= 0 {
        (root.pawn_best, root.pawn_score)
    } else {
        (s.last_pawn_best, s.last_pawn_score)
    };
    IdState {
        last_best: root.best,
        last_score: root.score,
        last_depth: d,
        stable: s.stable,
        best_move_changes: s.best_move_changes,
        score_delta: s.score_delta,
        last_pawn_best: pb,
        last_pawn_score: ps,
        partial_iter_used: true,
    }
}

/// State after a full-width pass over the root replaced best move and score.
pub open spec fn verified(s: IdState, sc: i32, root: RootReport) -> IdState {
    IdState {
        last_best: root.best,
        last_score: sc,
        last_pawn_best: pawn_after(s, root).0,
        last_pawn_score: pawn_after(s, root).1,
        ..s
    }
}

pub fn take_verified(s: IdState, sc: i32, root: RootReport) -> (t: IdState)
    ensures
        t == verified(s, sc, root),
{
    let (pb, ps): (i16, Option<i32>) = if root.pawn_best >= 0 {
        (root.pawn_best, root.pawn_score)
    } else {
        (s.last_pawn_best, s.last_pawn_score)
    };
    IdState {
        last_best: root.best,
        last_score: sc,
        last_depth: s.last_depth,
        stable: s.stable,
        best_move_changes: s.best_move_changes,
        score_delta: s.score_delta,
        last_pawn_best: pb,
        last_pawn_score: ps,
        partial_iter_used: s.partial_iter_used,
    }
}

/// Reason not to start iteration `d`.
pub open spec fn stop_before(
    d: int,
    full: bool,
    elapsed: int,
    soft_ms: int,
    predict: bool,
    log: Seq<AceDepthLogEntry>,
    deadline_passed: bool,
) -> Option<StopReason> {
    if !full && d > 1 && elapsed > soft_ms {
        Some(StopReason::SoftBudgetBefore)
    } else if predict && !full && timing::predicted_over(elapsed, soft_ms, log) {
        Some(StopReason::Predicted)
    } else if deadline_passed {
        Some(StopReason::DeadlineBefore)
    } else {
        None
    }
}

pub fn stop_before_depth(
    d: i32,
    full: bool,
    elapsed_ms: u64,
    soft_ms: u64,
    predict: bool,
    log: &Vec<AceDepthLogEntry>,
    deadline_passed: bool,
) -> (r: Option<StopReason>)
    ensures
        r == stop_before(
            d as int,
            full,
            elapsed_ms as int,
            soft_ms as int,
            predict,
            log@,
            deadline_passed,
        ),
{
    if !full && d > 1 && elapsed_ms > soft_ms {
        Some(StopReason::SoftBudgetBefore)
    } else if predict && !full && timing::predicted_over_time_budget(elapsed_ms, soft_ms, log) {
        Some(StopReason::Predicted)
    } else if deadline_passed {
        Some(StopReason::DeadlineBefore)
    } else {
        None
    }
}

/// Reason to stop after a finished iteration: the result is forced, the best move is easy,
/// or the soft budget is spent.
pub open spec fn stop_after(
    s: IdState,
    d: int,
    full: bool,
    elapsed: int,
    time_ms: int,
    soft_ms: int,
) -> Option<StopReason> {
    if s.last_score > MATE - 200 || s.last_score < -(MATE - 200) {
        Some(StopReason::Forced)
    } else if !full && d >= 9 && s.stable >= 3 && s.last_score > -120 && elapsed > time_ms * 3 / 10 {
        Some(StopReason::EasyMove)
    } else if !full && elapsed > soft_ms {
        Some(StopReason::SoftBudgetAfter)
    } else {
        None
    }
}

pub fn stop_after_depth(s: &IdState, d: i32, full: bool, elapsed_ms: u64, time_ms: u64, soft_ms: u64) -> (r:
    Option<StopReason>)
    ensures
        r == stop_after(
            *s,
            d as int,
            full,
            elapsed_ms as int,
            time_ms as int,
            soft_ms as int,
        ),
{
    if s.last_score > MATE - 200 || s.last_score < -(MATE - 200) {
        Some(StopReason::Forced)
    } else if !full && d >= 9 && s.stable >= 3 && s.last_score > -120 && elapsed_ms as u128
        > time_ms as u128 * 3 / 10 {
        Some(StopReason::EasyMove)
    } else if !full && elapsed_ms > soft_ms {
        Some(StopReason::SoftBudgetAfter)
    } else {
        None
    }
}

/// Bounds of an aspiration search and how often each failed.
#[derive(Clone, Copy, Debug, PartialEq, Eq, Structural)]
pub struct Aspiration {
    pub lo: i32,
    pub hi: i32,
    pub low_fails: u32,
    pub high_fails: u32,
}

impl Aspiration {
    /// A window the search takes, opened after a second failure.
    pub open spec fn wf(&self) -> bool {
        &&& -INF <= self.lo < self.hi <= INF
        &&& self.low_fails <= 2
        &&& self.high_fails <= 2
        &&& self.low_fails == 2 ==> self.lo == -INF
        &&& self.high_fails == 2 ==> self.hi == INF
    }
}

/// The score lies inside the window, or on an open side.
pub open spec fn inside(a: Aspiration, sc: int) -> bool {
    (sc > a.lo || a.lo == -INF) && (sc < a.hi || a.hi == INF)
}

/// The window after a failure: four times as wide round the score, open the second time.
pub open spec fn widened(a: Aspiration, sc: int) -> Aspiration {
    if sc <= a.lo && a.lo > -INF {
        Aspiration {
            lo: if a.low_fails >= 1 {
                (-INF) as i32
            } else {
                num::larger(sc - 300, -INF as int) as i32
            },
            low_fails: (a.low_fails + 1) as u32,
            ..a
        }
    } else if sc >= a.hi && a.hi < INF {
        Aspiration {
            hi: if a.high_fails >= 1 {
                INF
            } else {
                num::smaller(sc + 300, INF as int) as i32
            },
            high_fails: (a.high_fails + 1) as u32,
            ..a
        }
    } else {
        a
    }
}

/// First window of an iteration: narrow round an ordinary score from depth four on.
pub open spec fn first_window(d: int, last_score: int) -> Aspiration {
    if d >= 4 && -2000 < last_score < 2000 {
        Aspiration {
            lo: (last_score - 75) as i32,
            hi: (last_score + 75) as i32,
            low_fails: 0,
            high_fails: 0,
        }
    } else {
        Aspiration { lo: (-INF) as i32, hi: INF, low_fails: 0, high_fails: 0 }
    }
}

pub fn open_window(d: i32, last_score: i32) -> (a: Aspiration)
    ensures
        a == first_window(d as int, last_score as int),
        a.wf(),
{
    if d >= 4 && last_score > -2000 && last_score < 2000 {
        Aspiration {
            lo: last_score - ASP_WINDOW,
            hi: last_score + ASP_WINDOW,
            low_fails: 0,
            high_fails: 0,
        }
    } else {
        Aspiration { lo: -INF, hi: INF, low_fails: 0, high_fails: 0 }
    }
}

/// The next window, or `None` when the score stands.
pub fn widen(a: Aspiration, sc: i32) -> (r: Option<Aspiration>)
    requires
        a.wf(),
        search::score_ok(sc as int),
    ensures
        r is None <==> inside(a, sc as int),
        // A score on or outside a closed end moves that end outwards.
        r is None <==> (sc > a.lo || a.lo == -200_000) && (sc < a.hi || a.hi == 200_000),
        r matches Some(b) ==> (b.lo < a.lo && sc <= a.lo && b.hi == a.hi) || (b.hi > a.hi && sc >= a.hi
            && b.lo == a.lo),
        r matches Some(b) ==> b == widened(a, sc as int) && b.wf() && b.low_fails + b.high_fails
            == a.low_fails + a.high_fails + 1,
{
    if sc <= a.lo && a.lo > -INF {
        let lo: i32 = if a.low_fails >= 1 {
            -INF
        } else {
            (sc - 4 * ASP_WINDOW).max(-INF)
        };
        Some(Aspiration { lo, hi: a.hi, low_fails: a.low_fails + 1, high_fails: a.high_fails })
    } else if sc >= a.hi && a.hi < INF {
        let hi: i32 = if a.high_fails >= 1 {
            INF
        } else {
            (sc + 4 * ASP_WINDOW).min(INF)
        };
        Some(Aspiration { lo: a.lo, hi, low_fails: a.low_fails, high_fails: a.high_fails + 1 })
    } else {
        None
    }
}

/// A window is widened at most four times: the fifth search stands whatever it returns.
pub proof fn law_aspiration_ends(a: Aspiration, sc: int)
    requires
        a.wf(),
        search::score_ok(sc),
        a.low_fails + a.high_fails == 4,
    ensures
        inside(a, sc),
{
}

/// One search of an iteration, with its window.
pub struct AspirationStep {
    pub window: Aspiration,
    pub call: Call,
}

/// The searches of an iteration of depth `d`, one after another: the first window lies round
/// the last score, each failure widens it, and the last score stands in its window.
#[verifier::opaque]
pub open spec fn iterated_by<H: SearchHost>(
    b: TitaniumSearch,
    a: TitaniumSearch,
    d: int,
    last_score: int,
    q_left: int,
    v: int,
    steps: Seq<AspirationStep>,
) -> bool {
    &&& steps.len() > 0
    &&& tried_so_far::<H>(b, a, d, last_score, q_left, steps)
    &&& inside(steps.last().window, v)
    &&& v == steps.last().call.value
}

/// Request of an iteration's search.
pub open spec fn root_asked(d: int, w: Aspiration, q_left: int) -> Asked {
    Asked {
        depth: d,
        alpha: w.lo,
        beta: w.hi,
        ply: 0,
        allow_null: true,
        prev_move: 0,
        q_left,
    }
}

/// Window of search `k`.
pub open spec fn window_at(steps: Seq<AspirationStep>, d: int, last_score: int, k: int) -> Aspiration {
    if k <= 0 {
        first_window(d, last_score)
    } else {
        widened(steps[k - 1].window, steps[k - 1].call.value)
    }
}

/// Best move, score and moves at the root are those of the search, or stand where no move of
/// the root was searched.
pub open spec fn root_told(k: Call) -> bool {
    search::same_root(k.after, k.before) || search::root_searched(
        k.before,
        k.after,
        k.asked.alpha,
        k.asked.beta,
        k.value as i32,
    )
}

/// Search `k` of an iteration.
#[verifier::opaque]
pub open spec fn tried_at<H: SearchHost>(
    b: TitaniumSearch,
    d: int,
    last_score: int,
    q_left: int,
    steps: Seq<AspirationStep>,
    k: int,
) -> bool {
    let s = steps[k];
    &&& s.window == window_at(steps, d, last_score, k)
    &&& s.call.before == if k == 0 {
        b
    } else {
        steps[k - 1].call.after
    }
    &&& s.call.asked == root_asked(d, s.window, q_left)
    &&& trace::is_result::<H>(s.call.before, s.call.after, s.call.asked, s.call.value)
    &&& root_told(s.call)
    &&& k + 1 < steps.len() ==> !inside(s.window, s.call.value)
}

/// The searches so far.
pub open spec fn tried_so_far<H: SearchHost>(
    b: TitaniumSearch,
    a: TitaniumSearch,
    d: int,
    last_score: int,
    q_left: int,
    steps: Seq<AspirationStep>,
) -> bool {
    &&& a == if steps.len() == 0 {
        b
    } else {
        steps.last().call.after
    }
    &&& forall|k: int|
        0 <= k < steps.len() ==> #[trigger] tried_at::<H>(b, d, last_score, q_left, steps, k)
}

/// One search more.
proof fn lemma_tried_once_more<H: SearchHost>(
    b: TitaniumSearch,
    a: TitaniumSearch,
    d: int,
    last_score: int,
    q_left: int,
    steps: Seq<AspirationStep>,
    s: AspirationStep,
)
    requires
        tried_so_far::<H>(b, a, d, last_score, q_left, steps),
        steps.len() > 0 ==> !inside(steps.last().window, steps.last().call.value),
        s.window == window_at(steps, d, last_score, steps.len() as int),
        s.call.before == a,
        s.call.asked == root_asked(d, s.window, q_left),
        trace::is_result::<H>(s.call.before, s.call.after, s.call.asked, s.call.value),
        root_told(s.call),
    ensures
        tried_so_far::<H>(b, s.call.after, d, last_score, q_left, steps.push(s)),
{
    let all = steps.push(s);
    assert forall|k: int| 0 <= k < all.len() implies #[trigger] tried_at::<H>(
        b,
        d,
        last_score,
        q_left,
        all,
        k,
    ) by {
        reveal(tried_at);
        if k < steps.len() {
            assert(tried_at::<H>(b, d, last_score, q_left, steps, k));
            assert(all[k] == steps[k]);
        }
        if k > 0 {
            assert(all[k - 1] == steps[k - 1]);
        }
    }
}

/// The searches of an iteration that time cut short: those before `x` failed their windows, and
/// the one from `x` on was broken off.
#[verifier::opaque]
pub open spec fn broken_by<H: SearchHost>(
    b: TitaniumSearch,
    x: TitaniumSearch,
    a: TitaniumSearch,
    d: int,
    last_score: int,
    q_left: int,
    steps: Seq<AspirationStep>,
) -> bool {
    &&& tried_so_far::<H>(b, x, d, last_score, q_left, steps)
    &&& steps.len() > 0 ==> !inside(steps.last().window, steps.last().call.value)
    &&& trace::broken_off::<H>(
        x,
        a,
        root_asked(d, window_at(steps, d, last_score, steps.len() as int), q_left),
    )
}

/// Time cut an iteration of depth `d` short, on the way from `b` to `a`.
pub open spec fn iteration_broken<H: SearchHost>(
    b: TitaniumSearch,
    a: TitaniumSearch,
    d: int,
    last_score: int,
    q_left: int,
) -> bool {
    exists|x: TitaniumSearch, steps: Seq<AspirationStep>| #[trigger]
        broken_by::<H>(b, x, a, d, last_score, q_left, steps)
}

/// The iteration from a cleared root was broken off.
pub open spec fn depth_broken<H: SearchHost>(
    before: TitaniumSearch,
    after: TitaniumSearch,
    st: IdState,
    d: i32,
    q_left: int,
) -> bool {
    exists|b: TitaniumSearch| #[trigger]
        root_cleared(before, b) && iteration_broken::<H>(
            b,
            after,
            d as int,
            st.last_score as int,
            q_left,
        )
}

/// `v` is the score of an iteration of depth `d` that took the searcher from `b` to `a`.
pub open spec fn iteration_result<H: SearchHost>(
    b: TitaniumSearch,
    a: TitaniumSearch,
    d: int,
    last_score: int,
    q_left: int,
    v: int,
) -> bool {
    exists|steps: Seq<AspirationStep>| #[trigger] iterated_by::<H>(b, a, d, last_score, q_left, v, steps)
}

/// The last-wall check applies: the side to move would spend its last wall, another move
/// is at hand, and neither is a mate.
pub open spec fn last_wall_gate(race_proof: bool, hand: int, s: IdState) -> bool {
    &&& race_proof
    &&& moves::wall_id(s.last_best as int)
    &&& hand == 1
    &&& s.last_pawn_best >= 0
    &&& s.last_score < MATE - 200
    &&& s.last_pawn_score matches Some(v) && v > -(MATE - 200)
}

pub fn last_wall_gate_applies(race_proof: bool, hand: i32, s: &IdState) -> (yes: bool)
    ensures
        yes == last_wall_gate(race_proof, hand as int, *s),
{
    race_proof && moves::is_wall_move(s.last_best) && hand == 1 && s.last_pawn_best >= 0
        && s.last_score < MATE - 200 && match s.last_pawn_score {
        Some(v) => v > -(MATE - 200),
        None => false,
    }
}

/// What an answer about the position after the wall makes of it: the wall gives way where
/// the opponent is shown to win, and stands otherwise.
pub open spec fn wall_settled(s: IdState, opponent_wins: Option<bool>) -> IdState {
    if opponent_wins == Some(true) {
        demoted(s)
    } else {
        s
    }
}

/// Takes the answer about the position after the wall.
pub fn settle_wall(s: IdState, opponent_wins: Option<bool>) -> (t: IdState)
    ensures
        t == wall_settled(s, opponent_wins),
{
    match opponent_wins {
        Some(true) => demote_wall(s),
        _ => s,
    }
}

/// The wall gives way to the best other move.
pub open spec fn demoted(s: IdState) -> IdState {
    IdState {
        last_best: s.last_pawn_best,
        last_score: match s.last_pawn_score {
            Some(v) => v,
            None => s.last_score,
        },
        ..s
    }
}

pub fn demote_wall(s: IdState) -> (t: IdState)
    ensures
        t == demoted(s),
{
    let mut t = s;
    t.last_best = s.last_pawn_best;
    if let Some(v) = s.last_pawn_score {
        t.last_score = v;
    }
    t
}

/// Legal root moves of a position.
pub open spec fn legal_moves(p: game::Position) -> Seq<i16> {
    root_moves::legal_moves(p)
}

/// The move is the first of the legal ones in the root's order.
pub open spec fn leads_root<H: SearchHost>(s: TitaniumSearch, mv: i16) -> bool {
    exists|book: ordering::BookHints, list: Seq<i16>| #[trigger]
        root_moves::in_order(s.g@, s.hist, 0, book, list) && book.order@ == s.book_order@
            && book.attention@ == s.book_attention@ && root_moves::denials_told::<H>(s.g@, book)
            && list.len() > 0 && mv == list[0]
}

/// The final move: the searched one if it is legal, the first legal one in order otherwise,
/// none only where there is none.
pub open spec fn guarded<H: SearchHost>(s: TitaniumSearch, searched: i16, mv: i16) -> bool {
    let legal = legal_moves(s.g@);
    if searched >= 0 && legal.contains(searched) {
        mv == searched
    } else if legal.len() > 0 {
        legal.contains(mv) && leads_root::<H>(s, mv)
    } else {
        mv == -1
    }
}

pub(crate) fn contains_move(ms: &Vec<i16>, m: i16) -> (yes: bool)
    ensures
        yes == ms@.contains(m),
{
    let mut i: usize = 0;
    while i < ms.len()
        invariant
            i <= ms@.len(),
            forall|k: int| 0 <= k < i ==> ms@[k] != m,
        decreases ms@.len() - i,
    {
        if ms[i] == m {
            assert(ms@[i as int] == m);
            return true;
        }
        i += 1;
    }
    false
}

fn move_text(m: i16) -> (t: String)
    ensures
        t@ == move_words(m),
{
    if moves::is_pawn_move(m) || moves::is_wall_move(m) {
        moves::move_id_to_algebraic(m)
    } else {
        let t = String::new();
        assert(t@ =~= Seq::empty());
        t
    }
}

/// What iterative deepening came to.
pub struct Deepened {
    pub state: IdState,
    pub log: Vec<AceDepthLogEntry>,
    pub stop: StopReason,
    pub soft_ms: u64,
}

/// Everything a state holds can be compared and added.
pub open spec fn state_ok(s: IdState) -> bool {
    &&& -INF - 64 <= s.last_score <= INF + 64
    &&& s.last_pawn_score matches Some(v) ==> search::score_ok(v as int)
    &&& 0 <= s.last_depth <= 255
}

/// Log entries are of increasing depth.
pub open spec fn log_ok(log: Seq<AceDepthLogEntry>, d: int) -> bool {
    &&& forall|i: int| 0 <= i < log.len() ==> 1 <= (#[trigger] log[i]).depth < d
    &&& forall|i: int, j: int|
        0 <= i < j < log.len() ==> (#[trigger] log[i]).depth < (#[trigger] log[j]).depth
}

/// Root as a searcher has it.
pub open spec fn report_of(s: TitaniumSearch) -> RootReport {
    RootReport {
        best: s.root_best,
        score: s.root_score,
        pawn_best: s.root_pawn_best,
        pawn_score: s.root_pawn_score,
    }
}

/// Text of a move; none for no move.
pub open spec fn move_words(m: i16) -> Seq<char> {
    if moves::move_id(m as int) {
        moves::algebraic(m as int)
    } else {
        Seq::empty()
    }
}

/// What came of one depth.
pub struct DepthDone {
    pub state: IdState,
    /// Log entry of a completed depth.
    pub entry: Option<AceDepthLogEntry>,
    /// Time ran out, in the search or in the pass after it.
    pub timed_out: bool,
    pub soft_ms: u64,
}

/// State after time ran out in the pass over the root.
pub open spec fn cut_short(s: IdState, use_partial: bool, root: RootReport) -> IdState {
    if use_partial && root.best >= 0 {
        IdState {
            last_best: root.best,
            last_score: root.score,
            partial_iter_used: true,
            ..s
        }
    } else {
        s
    }
}

/// The root is cleared before an iteration.
pub open spec fn root_cleared(before: TitaniumSearch, begun: TitaniumSearch) -> bool {
    &&& begun.root_moves@.len() == 0
    &&& begun == (TitaniumSearch {
        root_pawn_best: -1i16,
        root_pawn_score: None,
        root_moves: begun.root_moves,
        ..before
    })
}

/// An iteration from state `st` left the searcher as `mid`, with score `sc`.
pub open spec fn iteration_left<H: SearchHost>(
    before: TitaniumSearch,
    mid: TitaniumSearch,
    st: IdState,
    d: i32,
    q_left: int,
    sc: i32,
) -> bool {
    &&& mid.g@ == before.g@
    &&& mid.cfg == before.cfg
    &&& search::score_ok(sc as int)
    &&& exists|b: TitaniumSearch| #[trigger]
        root_cleared(before, b) && iteration_result::<H>(
            b,
            mid,
            d as int,
            st.last_score as int,
            q_left,
            sc as int,
        )
}

/// The entry says what the state holds.
pub open spec fn carries(e: AceDepthLogEntry, s: IdState) -> bool {
    e.depth == s.last_depth && e.score == s.last_score && e.pv@ == move_words(s.last_best)
}

/// The pass that a proven score calls for was made, and came to `v`: over a lost root the
/// most stubborn defence, over a won one the cleanest win.
pub open spec fn pass_made<H: SearchHost>(mid: TitaniumSearch, after: TitaniumSearch, sc: i32, d: i32, v: i32) -> bool {
    if score::proven_loss(sc as int) {
        root_verify::defence_pass::<H>(mid, after, d - 1, v)
    } else {
        score::proven_win(sc as int) && exists|cs: Seq<CleanWinCandidate>| #[trigger]
            root_verify::win_pass::<H>(mid, after, d - 1, v, cs)
    }
}

/// Soft budget after what the state holds.
pub open spec fn soft_budget_of(time_ms: int, s: IdState) -> int {
    timing::soft_budget(
        time_ms,
        timing::soft_share(
            s.last_score as int,
            s.best_move_changes as int,
            s.score_delta as int,
            s.stable as int,
        ),
    )
}

/// What the pass over the root makes of a finished iteration: nothing without a proven
/// result, otherwise its own result, unless time ran out.
pub open spec fn passed_over<H: SearchHost>(
    mid: TitaniumSearch,
    after: TitaniumSearch,
    st: IdState,
    sc: i32,
    d: i32,
    time_ms: int,
    out: DepthDone,
) -> bool {
    let done = completed(st, sc, d, report_of(mid));
    let e = out.entry->0;
    &&& out.soft_ms == soft_budget_of(time_ms, done)
    &&& e.nodes == mid.nodes
    &&& if !score::proven_loss(sc as int) && !score::proven_win(sc as int) {
        out.state == done && !out.timed_out && after == mid && carries(e, done)
    } else if out.timed_out {
        &&& out.state == cut_short(done, mid.cfg.use_partial_iter, report_of(after))
        &&& after.root_best == mid.root_best
        &&& after.root_score == mid.root_score
        &&& carries(e, done)
    } else {
        &&& pass_made::<H>(mid, after, sc, d, out.state.last_score)
        &&& out.state == verified(done, after.root_score, report_of(after))
        &&& carries(e, out.state)
    }
}

/// What came of a depth: it ran out of time, or was completed and passed over.
pub open spec fn iterated<H: SearchHost>(
    before: TitaniumSearch,
    after: TitaniumSearch,
    st: IdState,
    d: i32,
    q_left: int,
    time_ms: int,
    out: DepthDone,
) -> bool {
    if out.entry is None {
        &&& out.timed_out
        &&& search::clock_looked(before.nodes, after.nodes)
        &&& search::clock_says::<H>(true)
        &&& depth_broken::<H>(before, after, st, d, q_left)
        &&& out.state == aborted(st, before.cfg.use_partial_iter, d, report_of(after))
    } else {
        finished::<H>(before, after, st, d, q_left, time_ms, out)
    }
}

pub open spec fn finished<H: SearchHost>(
    before: TitaniumSearch,
    after: TitaniumSearch,
    st: IdState,
    d: i32,
    q_left: int,
    time_ms: int,
    out: DepthDone,
) -> bool {
    exists|sc: i32, mid: TitaniumSearch| #[trigger]
        iteration_left::<H>(before, mid, st, d, q_left, sc) && passed_over::<H>(
            mid,
            after,
            st,
            sc,
            d,
            time_ms,
            out,
        ) && out.entry->0.marginal_nodes == mid.nodes - before.nodes
}

/// Extensions of a root search.
pub open spec fn root_extensions(cfg: SearchConfig) -> int {
    if cfg.q_search {
        cfg.q_max as int
    } else {
        0
    }
}

/// First depth of a search: where the searcher's own table lets it resume.
pub open spec fn first_depth_of(s: TitaniumSearch) -> int {
    resume_point(
        s.cfg.pure_mode,
        match s.table.base.lookup(s.g.hash_lo, s.g.hash_hi) {
            Some(x) => if search::entry_usable(x) {
                Some(x)
            } else {
                None
            },
            None => None,
        },
    ).0
}

/// One depth of a deepening: the searcher before and after it, the state it began with, and
/// what came of it.
pub struct DepthStep {
    pub before: TitaniumSearch,
    pub after: TitaniumSearch,
    pub st: IdState,
    pub d: i32,
    pub out: DepthDone,
}

/// State before the first depth: no move, and the score the table expects.
pub open spec fn seeded(seed: i32) -> IdState {
    IdState {
        last_best: -1i16,
        last_score: seed,
        last_depth: 0,
        stable: 0,
        best_move_changes: 0,
        score_delta: 0,
        last_pawn_best: -1i16,
        last_pawn_score: None,
        partial_iter_used: false,
    }
}

/// Before a depth race tables are opened, at once where both hands are empty.
pub open spec fn depth_begun(prev: TitaniumSearch, now: TitaniumSearch, d: int) -> bool {
    now == (TitaniumSearch {
        prover: RaceProver {
            cache: RaceCache {
                build_ok: (prev.prover.race_proof && prev.g@.wl0 == 0 && prev.g@.wl1 == 0) || d >= 6,
                ..prev.prover.cache
            },
            ..prev.prover
        },
        ..prev
    })
}

/// State and searcher before step `k`.
pub open spec fn state_at(seed: i32, steps: Seq<DepthStep>, k: int) -> IdState {
    if k <= 0 {
        seeded(seed)
    } else {
        steps[k - 1].out.state
    }
}

pub open spec fn searcher_at(b: TitaniumSearch, steps: Seq<DepthStep>, k: int) -> TitaniumSearch {
    if k <= 0 {
        b
    } else {
        steps[k - 1].after
    }
}

/// After a finished depth the search may go on, at some moment.
pub open spec fn goes_on<H: SearchHost>(s: DepthStep, full: bool, time_ms: int, t0: u64) -> bool {
    &&& s.out.entry is Some
    &&& !s.out.timed_out
    &&& stops_with::<H>(s.out.state, s.d as int, full, time_ms, t0, s.out.soft_ms as int, None)
}

/// Milliseconds since `t0`.
pub open spec fn elapsed(now: u64, t0: u64) -> int {
    timing::minus(now as int, t0 as int)
}

/// At the time the clock reads, the rule after a depth says this.
pub open spec fn stops_with<H: SearchHost>(
    st: IdState,
    d: int,
    full: bool,
    time_ms: int,
    t0: u64,
    soft_ms: int,
    why: Option<StopReason>,
) -> bool {
    exists|now: u64|
        #![trigger elapsed(now, t0)]
        race_cache::clock_read::<H>(now) && stop_after(
            st,
            d,
            full,
            elapsed(now, t0),
            time_ms,
            soft_ms,
        ) == why
}

/// At the time the clock reads, and with what it says of the deadline, the rule before a
/// depth says this.
pub open spec fn held_back<H: SearchHost>(
    d: int,
    full: bool,
    t0: u64,
    soft_ms: int,
    predict: bool,
    log: Seq<AceDepthLogEntry>,
    why: Option<StopReason>,
) -> bool {
    exists|now: u64, left: bool|
        #![trigger elapsed(now, t0), race_cache::clock_left::<H>(0, left)]
        race_cache::clock_read::<H>(now) && race_cache::clock_left::<H>(0, left) && stop_before(
            d,
            full,
            elapsed(now, t0),
            soft_ms,
            predict,
            log,
            !left,
        ) == why
}

/// Entries of the first `k` depths.
pub open spec fn entries_upto(steps: Seq<DepthStep>, k: int) -> Seq<AceDepthLogEntry> {
    Seq::new(k as nat, |i: int| steps[i].out.entry->0)
}

/// Depth `k` of a deepening from `start` on, from where the one before it ended.
#[verifier::opaque]
pub open spec fn depth_at<H: SearchHost>(
    b: TitaniumSearch,
    start: int,
    seed: i32,
    full: bool,
    time_ms: int,
    t0: u64,
    steps: Seq<DepthStep>,
    k: int,
) -> bool {
    let s = steps[k];
    &&& s.d == start + k
    &&& s.st == state_at(seed, steps, k)
    &&& depth_begun(searcher_at(b, steps, k), s.before, s.d as int)
    &&& iterated::<H>(s.before, s.after, s.st, s.d, root_extensions(b.cfg), time_ms, s.out)
    // No limit held the depth back.
    &&& held_back::<H>(
        s.d as int,
        full,
        t0,
        soft_budget_of(time_ms, s.st),
        b.cfg.use_predict_stop,
        entries_upto(steps, k),
        None,
    )
    &&& k + 1 < steps.len() ==> goes_on::<H>(s, full, time_ms, t0)
}

/// The depths from `start` on, each from where the one before it ended.
#[verifier::opaque]
pub open spec fn depths_follow<H: SearchHost>(
    b: TitaniumSearch,
    start: int,
    seed: i32,
    full: bool,
    time_ms: int,
    t0: u64,
    steps: Seq<DepthStep>,
) -> bool {
    forall|k: int|
        0 <= k < steps.len() ==> #[trigger] depth_at::<H>(b, start, seed, full, time_ms, t0, steps, k)
}

/// The log holds the entries of the completed depths.
pub open spec fn log_of(log: Seq<AceDepthLogEntry>, steps: Seq<DepthStep>) -> bool {
    &&& log.len() == if steps.len() > 0 && steps.last().out.entry is None {
        steps.len() - 1
    } else {
        steps.len() as int
    }
    &&& forall|i: int| 0 <= i < log.len() ==> steps[i].out.entry == Some(#[trigger] log[i])
}

/// What a depth ends with: it goes on, time is up, or the rule after a depth stops it.
pub open spec fn depth_ends<H: SearchHost>(
    s: DepthStep,
    full: bool,
    time_ms: int,
    t0: u64,
    soft_ms: int,
    stop: Option<StopReason>,
) -> bool {
    if s.out.entry is None {
        stop == Some(StopReason::TimeUp) && soft_ms == soft_budget_of(time_ms, s.st)
    } else if s.out.timed_out {
        stop == Some(StopReason::TimeUp) && soft_ms == s.out.soft_ms
    } else {
        soft_ms == s.out.soft_ms && stops_with::<H>(
            s.out.state,
            s.d as int,
            full,
            time_ms,
            t0,
            soft_ms,
            stop,
        )
    }
}

/// Why deepening ended after these depths.
pub open spec fn ends_by<H: SearchHost>(
    b: TitaniumSearch,
    next: int,
    limit: int,
    full: bool,
    time_ms: int,
    t0: u64,
    steps: Seq<DepthStep>,
    r: Deepened,
) -> bool {
    let last = steps.last();
    match r.stop {
        StopReason::MaxDepth => {
            &&& next > limit
            &&& steps.len() > 0 ==> depth_ends::<H>(last, full, time_ms, t0, r.soft_ms as int, None)
        },
        StopReason::TimeUp | StopReason::Forced | StopReason::EasyMove
        | StopReason::SoftBudgetAfter => {
            &&& steps.len() > 0
            &&& depth_ends::<H>(last, full, time_ms, t0, r.soft_ms as int, Some(r.stop))
        },
        _ => {
            &&& next <= limit
            &&& steps.len() > 0 ==> goes_on::<H>(last, full, time_ms, t0)
            &&& r.soft_ms == soft_budget_of(time_ms, r.state)
            &&& held_back::<H>(
                next,
                full,
                t0,
                r.soft_ms as int,
                b.cfg.use_predict_stop,
                r.log@,
                Some(r.stop),
            )
        },
    }
}

/// Deepening from `b` to `a` made these steps, resumed where the root's entry allows.
pub open spec fn deepened_by<H: SearchHost>(
    b: TitaniumSearch,
    a: TitaniumSearch,
    time_ms: int,
    t0: u64,
    max_depth: int,
    full: bool,
    r: Deepened,
    entry: Option<tt::SharedTtEntry>,
    steps: Seq<DepthStep>,
) -> bool {
    let (start, seed) = resume_point(b.cfg.pure_mode, entry);
    let n = steps.len() as int;
    &&& trace::entry_found::<H>(b, entry)
    &&& depths_follow::<H>(b, start, seed as i32, full, time_ms, t0, steps)
    &&& a == searcher_at(b, steps, n)
    &&& r.state == state_at(seed as i32, steps, n)
    &&& log_of(r.log@, steps)
    &&& ends_by::<H>(b, start + n, depth_limit_of(max_depth), full, time_ms, t0, steps, r)
}

/// What deepening from `before` to `after` came to.
pub open spec fn deepened<H: SearchHost>(
    before: TitaniumSearch,
    after: TitaniumSearch,
    time_ms: int,
    t0: u64,
    max_depth: int,
    full: bool,
    r: Deepened,
) -> bool {
    let limit = depth_limit_of(max_depth);
    let log = r.log@;
    &&& exists|entry: Option<tt::SharedTtEntry>, steps: Seq<DepthStep>| #[trigger]
        deepened_by::<H>(before, after, time_ms, t0, max_depth, full, r, entry, steps)
    &&& state_ok(r.state)
    &&& log_ok(log, limit + 1)
    &&& r.state.last_depth <= limit
    &&& r.soft_ms <= time_ms
    // The last entry carries the answer, unless a cut-short iteration gave it.
    &&& log.len() > 0 && !r.state.partial_iter_used ==> carries(log.last(), r.state)
    &&& r.state.partial_iter_used ==> r.stop == StopReason::TimeUp && r.state.last_best
        == after.root_best && r.state.last_score == after.root_score
    &&& log.len() > 0 && r.stop != StopReason::TimeUp ==> r.state.last_best == after.root_best
    // Nothing finished is no answer.
    &&& log.len() == 0 && !r.state.partial_iter_used ==> r.state.last_best == -1
        && r.state.last_depth == 0
    // Only the clock leaves the log empty once a depth has begun.
    &&& r.stop == StopReason::TimeUp && log.len() == 0 ==> search::clock_looked(
        before.nodes,
        after.nodes,
    )
    // A forced result, an easy move and the soft limits, which a full search does not know.
    &&& stop_is_due(Some(r.stop), r.state, full)
    // The depth limit ends it only when it is reached.
    &&& r.stop == StopReason::MaxDepth && log.len() > 0 ==> r.state.last_depth == limit
    &&& r.stop == StopReason::MaxDepth && !before.use_shared && first_depth_of(before) <= limit
        ==> log.len() > 0
}

/// A forced result is forced, an easy move easy, and a full search knows no soft limit.
pub open spec fn stop_is_due(stop: Option<StopReason>, s: IdState, full: bool) -> bool {
    match stop {
        Some(StopReason::Forced) => s.last_score > MATE - 200 || s.last_score < -(MATE - 200),
        Some(StopReason::EasyMove) => !full && s.last_depth >= 9 && s.stable >= 3 && s.last_score
            > -120,
        Some(StopReason::SoftBudgetBefore) | Some(StopReason::Predicted)
        | Some(StopReason::SoftBudgetAfter) => !full,
        _ => true,
    }
}

/// The log grows by the entry of a completed depth.
proof fn lemma_log_grows(
    told: Seq<AceDepthLogEntry>,
    log: Seq<AceDepthLogEntry>,
    steps: Seq<DepthStep>,
    s: DepthStep,
)
    requires
        log_of(told, steps),
        told.len() == steps.len(),
        match s.out.entry {
            None => log == told,
            Some(e) => log == told.push(e),
        },
    ensures
        log_of(log, steps.push(s)),
{
    let all = steps.push(s);
    assert forall|i: int| 0 <= i < log.len() implies all[i].out.entry == Some(#[trigger] log[i]) by {
        if i < told.len() {
            assert(log[i] == told[i]);
            assert(all[i] == steps[i]);
        }
    }
}

/// No depth yet.
proof fn lemma_no_depths<H: SearchHost>(b: TitaniumSearch, start: int, seed: i32, full: bool, time_ms: int, t0: u64)
    ensures
        depths_follow::<H>(b, start, seed, full, time_ms, t0, Seq::empty()),
{
    reveal(depths_follow);
}

/// One depth more.
proof fn lemma_one_more_depth<H: SearchHost>(
    b: TitaniumSearch,
    start: int,
    seed: i32,
    full: bool,
    time_ms: int,
    t0: u64,
    steps: Seq<DepthStep>,
    s: DepthStep,
)
    requires
        depths_follow::<H>(b, start, seed, full, time_ms, t0, steps),
        steps.len() > 0 ==> goes_on::<H>(steps.last(), full, time_ms, t0),
        s.d == start + steps.len(),
        s.st == state_at(seed, steps, steps.len() as int),
        depth_begun(searcher_at(b, steps, steps.len() as int), s.before, s.d as int),
        iterated::<H>(s.before, s.after, s.st, s.d, root_extensions(b.cfg), time_ms, s.out),
        held_back::<H>(
            s.d as int,
            full,
            t0,
            soft_budget_of(time_ms, s.st),
            b.cfg.use_predict_stop,
            entries_upto(steps, steps.len() as int),
            None,
        ),
    ensures
        depths_follow::<H>(b, start, seed, full, time_ms, t0, steps.push(s)),
{
    reveal(depths_follow);
    let all = steps.push(s);
    assert forall|k: int| 0 <= k < all.len() implies #[trigger] depth_at::<H>(
        b,
        start,
        seed,
        full,
        time_ms,
        t0,
        all,
        k,
    ) by {
        reveal(depth_at);
        assert(state_at(seed, all, k) == state_at(seed, steps, k));
        assert(searcher_at(b, all, k) == searcher_at(b, steps, k));
        assert(entries_upto(all, k) =~= entries_upto(steps, k));
        if k < steps.len() {
            assert(depth_at::<H>(b, start, seed, full, time_ms, t0, steps, k));
            assert(all[k] == steps[k]);
        }
    }
}

/// Where the opponent's win is judged: with both hands empty by the race alone, and the memo
/// stays; with certificates for leaves only not at all; otherwise the memo holds the proof.
pub open spec fn opponent_judged<H: SearchHost>(
    time_ms: u64,
    q: game::Position,
    leaves_only: bool,
    before: eval::CertMemo,
    after: eval::CertMemo,
    answer: Option<bool>,
) -> bool {
    if q.wl0 == 0 && q.wl1 == 0 {
        after == before && eval::race_asked::<H>(q, answer)
    } else if leaves_only {
        answer is None && after == before
    } else {
        opponent_certified::<H>(q, before, after, time_ms, answer)
    }
}

/// A win of the side to move was asked for, within its share of the time.
pub open spec fn opponent_certified<H: SearchHost>(
    q: game::Position,
    before: eval::CertMemo,
    after: eval::CertMemo,
    time_ms: u64,
    answer: Option<bool>,
) -> bool {
    exists|o: eval::CertOutcome| #[trigger]
        eval::cert_follows::<H>(
            before,
            after,
            q,
            q.turn,
            60_000,
            num::larger(25, time_ms * 15 / 100) as u64,
            o,
        ) && answer == Some(o.is_proven())
}

/// The answer about the last wall was taken as the rule says, and a demotion counted.
pub open spec fn wall_judged<H: SearchHost>(
    time_ms: u64,
    before: TitaniumSearch,
    after: TitaniumSearch,
    st: IdState,
    t: IdState,
    answer: Option<bool>,
) -> bool {
    &&& opponent_judged::<H>(
        time_ms,
        game::played(before.g@, st.last_best as int),
        before.cfg.cert_eval_leaves_only,
        before.memo,
        after.memo,
        answer,
    )
    &&& t == wall_settled(st, answer)
    &&& after.rp_demotions == if answer == Some(true) {
        search::one_more(before.rp_demotions)
    } else {
        before.rp_demotions
    }
}

/// The last wall was checked: nothing is asked where the check does not apply.
pub open spec fn wall_checked<H: SearchHost>(
    time_ms: u64,
    before: TitaniumSearch,
    after: TitaniumSearch,
    st: IdState,
    t: IdState,
) -> bool {
    let p = before.g@;
    if last_wall_gate(before.prover.race_proof, game::hand_of(p, p.turn), st) && game::accepts(
        p,
        st.last_best as int,
    ) {
        exists|answer: Option<bool>| #[trigger] wall_judged::<H>(time_ms, before, after, st, t, answer)
    } else {
        t == st && after == before
    }
}

impl TitaniumSearch {
    /// Once per search, unless pondering or in pure mode: a new table generation, and old
    /// statistics count half. The evaluation bias is kept.
    pub fn apply_think_start_state(&mut self)
        requires
            old(self).tables_ok(),
        ensures
            final(self).tables_ok(),
            *final(self) == (TitaniumSearch {
                table: final(self).table,
                hist: final(self).hist,
                ..*old(self)
            }),
            old(self).cfg.pure_mode || old(self).cfg.is_pondering ==> *final(self) == *old(self),
            !old(self).cfg.pure_mode && !old(self).cfg.is_pondering ==> final(self).table == (
            tt::TitaniumTt {
                tt_gen: ((old(self).table.tt_gen + 1) % 256) as u8,
                ..old(self).table
            }) && history::aged(old(self).hist, final(self).hist),
    {
        if !self.cfg.pure_mode && !self.cfg.is_pondering {
            self.table.next_generation();
            self.hist.age();
        }
    }

    /// Root as the last search left it.
    fn root_report(&self) -> (r: RootReport)
        ensures
            r == report_of(*self),
    {
        RootReport {
            best: self.root_best,
            score: self.root_score,
            pawn_best: self.root_pawn_best,
            pawn_score: self.root_pawn_score,
        }
    }

    /// One iteration: narrow window first, widened on failure.
    fn aspiration_search<H: SearchHost>(&mut self, d: i32, last_score: i32, q_left: i32, host: &mut H) -> (r:
        Result<i32, TimeUp>)
        requires
            old(self).ready(0),
            old(self).lazy_ok(),
            1 <= d <= 512,
            0 <= q_left,
        ensures
            final(self).ready(0),
            final(self).keeps(old(self), 0),
            r matches Ok(v) ==> search::score_ok(v as int),
            final(self).nodes >= search::one_more(old(self).nodes),
            // Only the clock ends the iteration, on every 64th node alone.
            r is Err ==> search::clock_looked(old(self).nodes, final(self).nodes)
                && search::clock_says::<H>(true),
            // A finished game has its fixed score.
            search::entry_score(old(self).g@, old(self).path@, 0) matches Some(e) ==> (r matches Ok(
                v,
            ) ==> v == e),
            // The score stands in the window of its last search.
            r matches Ok(v) ==> iteration_result::<H>(
                *old(self),
                *final(self),
                d as int,
                last_score as int,
                q_left as int,
                v as int,
            ),
            // Cut short, the root is what the moves searched to the end come to.
            r is Err ==> iteration_broken::<H>(
                *old(self),
                *final(self),
                d as int,
                last_score as int,
                q_left as int,
            ),
            // With an open first window the root is searched once.
            first_window(d as int, last_score as int).lo == -INF && search::node_is_open(
                *old(self),
                d as int,
                -INF as int,
                INF as int,
                0,
            ) ==> (r matches Ok(v) ==> search::root_searched(
                *old(self),
                *final(self),
                (-INF) as i32,
                INF,
                v,
            )),
    {
        let mut a = open_window(d, last_score);
        let ghost mut steps: Seq<AspirationStep> = Seq::empty();
        loop
            invariant
                tried_so_far::<H>(
                    *old(self),
                    *self,
                    d as int,
                    last_score as int,
                    q_left as int,
                    steps,
                ),
                steps.len() > 0 ==> !inside(steps.last().window, steps.last().call.value),
                a == window_at(steps, d as int, last_score as int, steps.len() as int),
                self.ready(0),
                self.keeps(old(self), 0),
                self.nodes >= old(self).nodes,
                a == first_window(d as int, last_score as int) && *self == *old(self) || first_window(
                    d as int,
                    last_score as int,
                ).lo != -INF,
                a == first_window(d as int, last_score as int) && *self == *old(self) || self.nodes
                    >= search::one_more(old(self).nodes),
                old(self).lazy_ok(),
                1 <= d <= 512,
                0 <= q_left,
                a.wf(),
            decreases 4 - a.low_fails - a.high_fails,
        {
            proof {
                search::lemma_entry_by_line(self.g@, self.path@, old(self).path@, 0);
            }
            let ghost tried = *self;
            match self.ab(d, a.lo, a.hi, 0, true, 0, q_left, host) {
                Err(e) => {
                    proof {
                        assert(root_asked(d as int, a, q_left as int) == trace::asked(
                            d,
                            a.lo,
                            a.hi,
                            0,
                            true,
                            0,
                            q_left,
                        ));
                        assert(broken_by::<H>(
                            *old(self),
                            tried,
                            *self,
                            d as int,
                            last_score as int,
                            q_left as int,
                            steps,
                        )) by {
                            reveal(broken_by);
                        }
                    }
                    return Err(e);
                },
                Ok(sc) => {
                    proof {
                        let call = Call {
                            before: tried,
                            after: *self,
                            asked: trace::asked(d, a.lo, a.hi, 0, true, 0, q_left),
                            value: sc as int,
                        };
                        let step = AspirationStep { window: a, call };
                        lemma_tried_once_more::<H>(
                            *old(self),
                            tried,
                            d as int,
                            last_score as int,
                            q_left as int,
                            steps,
                            step,
                        );
                        steps = steps.push(step);
                        if inside(a, sc as int) {
                            assert(iterated_by::<H>(
                                *old(self),
                                *self,
                                d as int,
                                last_score as int,
                                q_left as int,
                                sc as int,
                                steps,
                            )) by {
                                reveal(iterated_by);
                            }
                        }
                        if a.low_fails + a.high_fails == 4 {
                            law_aspiration_ends(a, sc as int);
                        }
                    }
                    match widen(a, sc) {
                        Some(b) => {
                            a = b;
                        },
                        None => {
                            return Ok(sc);
                        },
                    }
                },
            }
        }
    }

    /// After a proven result: a full-width pass over the root. `None` without one.
    fn verify_root<H: SearchHost>(&mut self, d: i32, sc: i32, host: &mut H) -> (r: Result<
        Option<i32>,
        TimeUp,
    >)
        requires
            old(self).ready(0),
            1 <= d <= 512,
            search::score_ok(sc as int),
        ensures
            final(self).ready(0),
            final(self).g@ == old(self).g@,
            final(self).cfg == old(self).cfg,
            final(self).lazy.moves == old(self).lazy.moves,
            final(self).book_order == old(self).book_order,
            final(self).book_attention == old(self).book_attention,
            final(self).use_shared == old(self).use_shared,
            final(self).rp_demotions == old(self).rp_demotions,
            final(self).rp_root_solves == old(self).rp_root_solves,
            final(self).prover.same_config(&old(self).prover),
            // The pass that the score calls for was made, and came to this.
            r matches Ok(Some(v)) ==> search::score_ok(v as int) && v == final(self).root_score
                && pass_made::<H>(*old(self), *final(self), sc, d, v),
            // No pass without a proven result; otherwise one is made, in a generation of its
            // own, and is finished where there is nothing to search.
            !score::proven_loss(sc as int) && !score::proven_win(sc as int) ==> r == Ok::<
                Option<i32>,
                TimeUp,
            >(None) && *final(self) == *old(self),
            score::proven_loss(sc as int) || score::proven_win(sc as int) ==> {
                &&& r is Ok ==> r->Ok_0 is Some
                &&& final(self).table.tt_gen == root_verify::pass_generation(*old(self))
                &&& root_verify::no_root_move(old(self).g@) ==> r is Ok
            },
            r is Err ==> final(self).root_best == old(self).root_best && final(self).root_score
                == old(self).root_score,
            final(self).nodes >= old(self).nodes,
    {
        if score::is_proven_loss_score(sc) {
            match self.root_defense_verify(d, host) {
                Ok(v) => Ok(Some(v)),
                Err(e) => Err(e),
            }
        } else if score::is_proven_win_score(sc) {
            match self.root_clean_win_verify(d, host) {
                Ok((v, cs)) => {
                    assert(root_verify::win_pass::<H>(*old(self), *self, d - 1, v, cs@));
                    Ok(Some(v))
                },
                Err(e) => Err(e),
            }
        } else {
            Ok(None)
        }
    }

    /// Searches one depth. A completed one is reported at once, and again when the pass over
    /// a proven root has corrected it.
    fn run_depth<H: SearchHost>(&mut self, st: IdState, d: i32, q_left: i32, time_ms: u64, t0: u64,
        host: &mut H) -> (out: DepthDone)
        requires
            old(self).ready(0),
            old(self).lazy_ok(),
            1 <= d <= 255,
            0 <= q_left,
            state_ok(st),
            !st.partial_iter_used,
        ensures
            final(self).ready(0),
            final(self).g@ == old(self).g@,
            final(self).cfg == old(self).cfg,
            final(self).lazy.moves == old(self).lazy.moves,
            final(self).book_order == old(self).book_order,
            final(self).book_attention == old(self).book_attention,
            final(self).use_shared == old(self).use_shared,
            final(self).rp_demotions == old(self).rp_demotions,
            final(self).rp_root_solves == old(self).rp_root_solves,
            final(self).prover.same_config(&old(self).prover),
            state_ok(out.state),
            out.state.last_depth <= num::larger(st.last_depth as int, d as int),
            out.soft_ms <= time_ms,
            iterated::<H>(*old(self), *final(self), st, d, q_left as int, time_ms as int, out),
            out.entry matches Some(e) ==> e.depth == d,
            final(self).nodes >= old(self).nodes,
    {
        self.root_pawn_best = -1;
        self.root_pawn_score = None;
        self.root_moves = Vec::new();
        let nodes_before: u64 = self.nodes;
        let ghost begun = *self;
        assert(root_cleared(*old(self), begun));
        let sc: i32 = match self.aspiration_search(d, st.last_score, q_left, host) {
            Err(_) => {
                let state = abort_iteration(st, self.cfg.use_partial_iter, d, self.root_report());
                return DepthDone { state, entry: None, timed_out: true, soft_ms: 0 };
            },
            Ok(v) => v,
        };
        let ghost mid = *self;
        let done = complete_iteration(st, sc, d, self.root_report());
        let soft_ms: u64 = timing::stability_soft_ms(
            time_ms,
            done.last_score,
            done.best_move_changes,
            done.score_delta,
            done.stable,
        );
        let elapsed_ms: u64 = host.now_ms().saturating_sub(t0);
        let mut entry = AceDepthLogEntry {
            depth: d,
            score: done.last_score,
            nodes: self.nodes,
            elapsed_ms,
            marginal_nodes: self.nodes.saturating_sub(nodes_before),
            pv: move_text(done.last_best),
        };
        host.depth_done(&entry, &self.root_moves);
        host.progress(&self.g, self.nodes, done.last_best, done.last_score, true);
        proof {
            assert(iteration_left::<H>(*old(self), mid, st, d, q_left as int, sc));
        }
        match self.verify_root(d, sc, host) {
            Ok(None) => {
                let out = DepthDone { state: done, entry: Some(entry), timed_out: false, soft_ms };
                assert(passed_over::<H>(mid, *self, st, sc, d, time_ms as int, out));
                assert(finished::<H>(*old(self), *self, st, d, q_left as int, time_ms as int, out));
                out
            },
            Ok(Some(v)) => {
                let state = take_verified(done, v, self.root_report());
                entry.score = state.last_score;
                entry.pv = move_text(state.last_best);
                host.depth_done(&entry, &self.root_moves);
                host.progress(&self.g, self.nodes, state.last_best, state.last_score, true);
                let out = DepthDone { state, entry: Some(entry), timed_out: false, soft_ms };
                assert(passed_over::<H>(mid, *self, st, sc, d, time_ms as int, out));
                assert(finished::<H>(*old(self), *self, st, d, q_left as int, time_ms as int, out));
                out
            },
            Err(_) => {
                let mut state = done;
                if self.cfg.use_partial_iter && self.root_best >= 0 {
                    state.last_best = self.root_best;
                    state.last_score = self.root_score;
                    state.partial_iter_used = true;
                }
                let out = DepthDone { state, entry: Some(entry), timed_out: true, soft_ms };
                assert(passed_over::<H>(mid, *self, st, sc, d, time_ms as int, out));
                assert(finished::<H>(*old(self), *self, st, d, q_left as int, time_ms as int, out));
                out
            },
        }
    }

    /// Searches one depth, logs it and asks whether to go on.
    fn deepen_once<H: SearchHost>(
        &mut self,
        st: IdState,
        d: i32,
        full: bool,
        time_ms: u64,
        t0: u64,
        log: &mut Vec<AceDepthLogEntry>,
        host: &mut H,
    ) -> (r: (IdState, Option<StopReason>, u64, Ghost<DepthStep>))
        requires
            old(self).ready(0),
            old(self).lazy_ok(),
            1 <= d <= 255,
            state_ok(st),
            !st.partial_iter_used,
        ensures
            final(self).ready(0),
            final(self).lazy_ok(),
            final(self).g@ == old(self).g@,
            final(self).cfg == old(self).cfg,
            final(self).lazy.moves == old(self).lazy.moves,
            final(self).book_order == old(self).book_order,
            final(self).book_attention == old(self).book_attention,
            final(self).use_shared == old(self).use_shared,
            final(self).rp_demotions == old(self).rp_demotions,
            final(self).rp_root_solves == old(self).rp_root_solves,
            final(self).prover.same_config(&old(self).prover),
            final(self).nodes >= old(self).nodes,
            r.2 <= time_ms,
            state_ok(r.0),
            r.0.last_depth <= num::larger(st.last_depth as int, d as int),
            ({
                let s = r.3@;
                let stop = r.1;
                &&& s.d == d
                &&& s.st == st
                &&& s.after == *final(self)
                &&& depth_begun(*old(self), s.before, d as int)
                &&& iterated::<H>(
                    s.before,
                    s.after,
                    st,
                    d,
                    root_extensions(old(self).cfg),
                    time_ms as int,
                    s.out,
                )
                &&& r.0 == s.out.state
                &&& depth_ends::<H>(s, full, time_ms as int, t0, r.2 as int, stop)
                &&& match s.out.entry {
                    None => {
                        &&& final(log)@ == old(log)@
                        &&& search::clock_looked(old(self).nodes, final(self).nodes)
                        &&& r.0 == st || r.0.partial_iter_used
                    },
                    Some(e) => {
                        &&& final(log)@ == old(log)@.push(e)
                        &&& e.depth == d
                        &&& !r.0.partial_iter_used ==> carries(e, r.0)
                        &&& stop != Some(StopReason::TimeUp) ==> r.0.last_best
                            == final(self).root_best && r.0.last_depth == d
                    },
                }
                &&& r.0.partial_iter_used ==> stop == Some(StopReason::TimeUp) && r.0.last_best
                    == final(self).root_best && r.0.last_score == final(self).root_score
                &&& stop_is_due(stop, r.0, full)
                &&& stop is None ==> goes_on::<H>(s, full, time_ms as int, t0)
            }),
    {
        let q_left: i32 = if self.cfg.q_search {
            self.cfg.q_max
        } else {
            0
        };
        let bare: bool = self.prover.race_proof && self.g.wl[0] == 0 && self.g.wl[1] == 0;
        self.prover.cache.build_ok = bare || d >= 6;
        let ghost begun = *self;
        let out = self.run_depth(st, d, q_left, time_ms, t0, host);
        let ghost step = DepthStep { before: begun, after: *self, st, d, out };
        proof {
            assert(depth_begun(*old(self), begun, d as int));
        }
        let state = out.state;
        match out.entry {
            None => {
                let soft_ms: u64 = timing::stability_soft_ms(
                    time_ms,
                    st.last_score,
                    st.best_move_changes,
                    st.score_delta,
                    st.stable,
                );
                (state, Some(StopReason::TimeUp), soft_ms, Ghost(step))
            },
            Some(entry) => {
                log.push(entry);
                if out.timed_out {
                    return (state, Some(StopReason::TimeUp), out.soft_ms, Ghost(step));
                }
                let ghost h = *host;
                let read: u64 = host.now_ms();
                let now: u64 = read.saturating_sub(t0);
                let stop = stop_after_depth(&state, d, full, now, time_ms, out.soft_ms);
                proof {
                    assert(h.may_read(read));
                    assert(elapsed(read, t0) == now);
                    assert(stops_with::<H>(
                        state,
                        d as int,
                        full,
                        time_ms as int,
                        t0,
                        out.soft_ms as int,
                        stop,
                    ));
                }
                (state, stop, out.soft_ms, Ghost(step))
            },
        }
    }

    /// Deepens until a limit, a forced result or the clock ends it.
    pub fn deepen<H: SearchHost>(&mut self, time_ms: u64, max_depth: i32, full: bool, t0: u64,
        host: &mut H) -> (r: Deepened)
        requires
            old(self).ready(0),
            old(self).lazy_ok(),
        ensures
            final(self).ready(0),
            final(self).g@ == old(self).g@,
            final(self).cfg == old(self).cfg,
            final(self).lazy.moves == old(self).lazy.moves,
            final(self).book_order == old(self).book_order,
            final(self).book_attention == old(self).book_attention,
            final(self).use_shared == old(self).use_shared,
            final(self).rp_demotions == old(self).rp_demotions,
            final(self).rp_root_solves == old(self).rp_root_solves,
            final(self).prover.same_config(&old(self).prover),
            deepened::<H>(*old(self), *final(self), time_ms as int, t0, max_depth as int, full, r),
            final(self).nodes >= old(self).nodes,
    {
        let limit: i32 = depth_limit(max_depth);
        let root_entry = self.probe_table(host);
        let (start, seed) = resume_from(self.cfg.pure_mode, root_entry);
        let mut st = IdState {
            last_best: moves::TITANIUM_NO_MOVE,
            last_score: seed,
            last_depth: 0,
            stable: 0,
            best_move_changes: 0,
            score_delta: 0,
            last_pawn_best: -1,
            last_pawn_score: None,
            partial_iter_used: false,
        };
        let mut log: Vec<AceDepthLogEntry> = Vec::new();
        let mut stop: Option<StopReason> = None;
        let mut soft_ms: u64 = timing::stability_soft_ms(time_ms, 0, 0, 0, 0);
        let mut d: i32 = start;
        let ghost mut steps: Seq<DepthStep> = Seq::empty();
        proof {
            lemma_no_depths::<H>(*self, start as int, seed, full, time_ms as int, t0);
        }
        while d <= limit && stop.is_none()
            invariant
                1 <= d <= 256,
                limit == depth_limit_of(max_depth as int),
                1 <= limit <= 255,
                self.ready(0),
                self.g@ == old(self).g@,
                self.cfg == old(self).cfg,
                self.use_shared == old(self).use_shared,
                self.book_order == old(self).book_order,
                self.book_attention == old(self).book_attention,
                self.rp_demotions == old(self).rp_demotions,
                self.rp_root_solves == old(self).rp_root_solves,
                self.lazy.moves == old(self).lazy.moves,
                self.lazy_ok(),
                self.prover.same_config(&old(self).prover),
                self.nodes >= old(self).nodes,
                state_ok(st),
                st.last_depth <= limit,
                log_ok(log@, d as int),
                log_ok(log@, limit + 1),
                soft_ms <= time_ms,
                log@.len() > 0 && !st.partial_iter_used ==> carries(log@.last(), st),
                st.partial_iter_used ==> stop == Some(StopReason::TimeUp) && st.last_best
                    == self.root_best && st.last_score == self.root_score,
                log@.len() > 0 && stop != Some(StopReason::TimeUp) ==> st.last_best
                    == self.root_best,
                log@.len() == 0 && !st.partial_iter_used ==> st.last_best == -1 && st.last_depth
                    == 0,
                // What the steps so far are.
                depths_follow::<H>(
                    *old(self),
                    start as int,
                    seed,
                    full,
                    time_ms as int,
                    t0,
                    steps,
                ),
                d == start + steps.len(),
                *self == searcher_at(*old(self), steps, steps.len() as int),
                st == state_at(seed, steps, steps.len() as int),
                log_of(log@, steps),
                stop is None && steps.len() > 0 ==> goes_on::<H>(steps.last(), full, time_ms as int, t0)
                    && depth_ends::<H>(steps.last(), full, time_ms as int, t0, soft_ms as int, None),
                stop matches Some(why) ==> ends_by::<H>(
                    *old(self),
                    d as int,
                    limit as int,
                    full,
                    time_ms as int,
                    t0,
                    steps,
                    Deepened { state: st, log, stop: why, soft_ms },
                ),
                stop_is_due(stop, st, full),
                stop == Some(StopReason::TimeUp) && log@.len() == 0 ==> search::clock_looked(
                    old(self).nodes,
                    self.nodes,
                ),
                stop is None && log@.len() > 0 ==> st.last_depth == d - 1,
                stop is None && log@.len() == 0 ==> d == start,
                stop is None ==> log@.len() == steps.len(),
                stop != Some(StopReason::MaxDepth),
            decreases (limit - d + 1) + (if stop is None {
                1int
            } else {
                0int
            }),
        {
            let soft_now: u64 = timing::stability_soft_ms(
                time_ms,
                st.last_score,
                st.best_move_changes,
                st.score_delta,
                st.stable,
            );
            let ghost h = *host;
            let read: u64 = host.now_ms();
            let now: u64 = read.saturating_sub(t0);
            let ghost asked = *host;
            let left: bool = host.time_left(0);
            let early = stop_before_depth(
                d,
                full,
                now,
                soft_now,
                self.cfg.use_predict_stop,
                &log,
                !left,
            );
            proof {
                assert(h.may_read(read));
                assert(asked.may_have_left(0, left));
                assert(elapsed(read, t0) == now);
                assert(race_cache::clock_left::<H>(0, left));
                assert(held_back::<H>(
                    d as int,
                    full,
                    t0,
                    soft_now as int,
                    self.cfg.use_predict_stop,
                    log@,
                    early,
                ));
                assert(entries_upto(steps, steps.len() as int) =~= log@);
            }
            if early.is_some() {
                stop = early;
                soft_ms = soft_now;
            } else {
                let ghost n = steps.len() as int;
                let ghost told = log@;
                let (next, why, soft, step) = self.deepen_once(st, d, full, time_ms, t0, &mut log, host);
                proof {
                    lemma_one_more_depth::<H>(
                        *old(self),
                        start as int,
                        seed,
                        full,
                        time_ms as int,
                        t0,
                        steps,
                        step@,
                    );
                    lemma_log_grows(told, log@, steps, step@);
                    steps = steps.push(step@);
                    assert(steps.last() == step@);
                    assert(searcher_at(*old(self), steps, n + 1) == *self);
                    assert(state_at(seed, steps, n + 1) == next);
                }
                st = next;
                stop = why;
                soft_ms = soft;
                d += 1;
            }
        }
        let reason = match stop {
            Some(r) => r,
            None => StopReason::MaxDepth,
        };
        let r = Deepened { state: st, log, stop: reason, soft_ms };
        proof {
            assert(deepened_by::<H>(
                *old(self),
                *self,
                time_ms as int,
                t0,
                max_depth as int,
                full,
                r,
                root_entry,
                steps,
            ));
        }
        r
    }

    /// Before the last wall is spent: it gives way to the best other move if it is shown to
    /// lose. With both hands then empty the race decides, otherwise a certificate for the
    /// opponent does.
    fn last_wall_check<H: SearchHost>(&mut self, st: IdState, time_ms: u64, host: &mut H) -> (t: IdState)
        requires
            old(self).ready(0),
            state_ok(st),
        ensures
            final(self).ready(0),
            final(self).g@ == old(self).g@,
            *final(self) == (TitaniumSearch {
                g: final(self).g,
                dist: final(self).dist,
                memo: final(self).memo,
                rp_demotions: final(self).rp_demotions,
                ..*old(self)
            }),
            wall_checked::<H>(time_ms, *old(self), *final(self), st, t),
    {
        if !last_wall_gate_applies(self.prover.race_proof, self.g.wl[self.g.turn], &st) {
            return st;
        }
        if !self.g.accepts_move(st.last_best) {
            return st;
        }
        proof {
            game::law_taken_back_undoes_played(self.g@, st.last_best as int);
        }
        self.g.make_move(st.last_best);
        let opponent_wins: Option<bool> = self.opponent_wins(time_ms, host);
        self.g.unmake_move();
        self.dist.invalidate();
        let t = settle_wall(st, opponent_wins);
        if opponent_wins == Some(true) {
            self.rp_demotions = race_cache::bump(self.rp_demotions);
        }
        assert(wall_judged::<H>(time_ms, *old(self), *self, st, t, opponent_wins));
        t
    }

    /// Is the side to move, after the last wall, shown to win? With both hands empty the race
    /// answers; otherwise a certificate does, unless certificates are for leaves only.
    fn opponent_wins<H: SearchHost>(&mut self, time_ms: u64, host: &mut H) -> (answer: Option<bool>)
        requires
            old(self).memo.wf(),
            old(self).g.wf(),
            eval::hands_ok(old(self).g@),
        ensures
            final(self).memo.wf(),
            *final(self) == (TitaniumSearch { memo: final(self).memo, ..*old(self) }),
            opponent_judged::<H>(
                time_ms,
                old(self).g@,
                old(self).cfg.cert_eval_leaves_only,
                old(self).memo,
                final(self).memo,
                answer,
            ),
    {
        if self.g.wl[0] == 0 && self.g.wl[1] == 0 {
            let ghost h = *host;
            let answer = host.hands_empty_race(&self.g);
            assert(h.race_of(old(self).g@) == answer);
            assert(eval::race_asked::<H>(old(self).g@, answer));
            answer
        } else if self.cfg.cert_eval_leaves_only {
            None
        } else {
            let part: u64 = (time_ms as u128 * 15 / 100) as u64;
            let deadline_ms: u64 = part.max(25);
            let side: usize = self.g.turn;
            let o = self.memo.cert_win(&self.g, side, 60_000, deadline_ms, host);
            let answer = Some(o.proven());
            proof {
                assert(deadline_ms == num::larger(25, time_ms * 15 / 100) as u64);
                assert(opponent_certified::<H>(
                    old(self).g@,
                    old(self).memo,
                    self.memo,
                    time_ms,
                    answer,
                ));
            }
            answer
        }
    }

    /// Never answers with a move the position rejects.
    fn root_guard<H: SearchHost>(&mut self, searched: i16, host: &mut H) -> (mv: i16)
        requires
            old(self).ready(0),
        ensures
            final(self).ready(0),
            *final(self) == (TitaniumSearch { dist: final(self).dist, ..*old(self) }),
            final(self).dist.fresh(final(self).g@),
            final(self).dist.fields_are(final(self).g.topo()),
            guarded::<H>(*old(self), searched, mv),
    {
        self.refresh_dist(0);
        let none: Vec<bool> = Vec::new();
        assert(none@ =~= Seq::empty());
        let legal: Vec<i16> = movegen::gen_moves_inner(
            &self.g,
            0,
            movegen::WallPolicy::Lazy,
            &none,
            0,
        );
        if legal.len() == 0 {
            return moves::TITANIUM_NO_MOVE;
        }
        if searched >= 0 && contains_move(&legal, searched) {
            return searched;
        }
        let heat = ordering::prepare_heat(&Vec::new(), &Vec::new(), &legal);
        let book = self.ask_book(&legal, host);
        let ordered = self.order_node(0, &legal, 0, 0, 0, false, &heat, &book);
        proof {
            assert(ordered@.contains(ordered@[0]));
            routes::lemma_field_of(self.g.topo(), self.g@.turn, self.mover_field());
            assert(root_moves::in_order(self.g@, self.hist, 0, book, ordered@));
            assert(leads_root::<H>(*old(self), ordered@[0]));
        }
        ordered[0]
    }
}

/// An answer that needed no search: nothing counted, no depth reached but `depth`.
fn quick_answer(
    mv: i16,
    value: i32,
    depth: i32,
    nodes: u64,
    stop_reason: &'static str,
    race: RaceResultInfo,
) -> (r: ThinkResult)
    ensures
        r.mv == mv,
        r.score == value,
        r.depth == depth,
        r.main_completed_depth == depth,
        r.nodes == nodes,
        r.main_thread_nodes == nodes,
        r.total_nodes == nodes,
        r.stop_reason == stop_reason,
        r.race == race,
        r.root_moves@.len() == 0,
        r.depth_log@.len() == 0,
        r.root_defense_diag@.len() == 0,
        r.helper_nodes@.len() == 0,
        r.root_widths@.len() == 0,
{
    ThinkResult {
        mv,
        score: value,
        root_moves: Vec::new(),
        depth,
        nodes,
        main_thread_nodes: nodes,
        helper_nodes: Vec::new(),
        total_nodes: nodes,
        main_completed_depth: depth,
        helper_completed_depths: Vec::new(),
        root_widths: Vec::new(),
        root_visits: Vec::new(),
        root_move_ids: Vec::new(),
        ms: 0,
        white_dist: 0,
        black_dist: 0,
        depth_log: Vec::new(),
        stop_reason,
        race_outcome_stats: RaceOutcomeStats::new(),
        root_defense_diag: Vec::new(),
        race,
        timing: TimingDiag::new(),
    }
}

/// A pawn move of the side to move ends the game.
pub open spec fn goal_in_reach(p: game::Position) -> bool {
    exists|k: int|
        0 <= k < game::pawn_moves(p).len() && board::is_goal(
            p.turn,
            #[trigger] game::pawn_moves(p)[k] as int,
        )
}

/// With both hands empty and the race decided, the answer is a pawn move and its score is
/// the race's.
pub open spec fn answers_race(p: game::Position, r: ThinkResult) -> bool {
    race_root::race_root_open(p) ==> forall|v: int| #[trigger]
        race_table::race_value_is(p.w, race_cache::state_of(p), v) && v != 0 ==> r.score
            == race_root::exact_solution(r.mv, v, 0).score && r.race == race_root::exact_solution(
            r.mv,
            v,
            0,
        ).info && r.depth == 99 && r.nodes == game::pawn_moves(p).len() && game::pawn_moves(
            p,
        ).contains(r.mv) && race_root::is_best_race_move(p, r.mv)
}

/// The answer is that of a solved race root.
pub open spec fn gives_solution(r: ThinkResult, s: RaceRootSolution, why: Seq<char>) -> bool {
    &&& r.mv == s.mv
    &&& r.score == s.score
    &&& r.race == s.info
    &&& r.depth == 99
    &&& r.nodes == s.legal_moves
    &&& r.main_thread_nodes == r.nodes
    &&& r.total_nodes == r.nodes
    &&& r.depth_log@.len() == 0
    &&& r.root_moves@.len() == 0
    &&& r.stop_reason@ == why
}

/// The root's race by its table: the value and the best move, where it is decided.
pub open spec fn table_solved(p: game::Position, sol: Option<RaceRootSolution>) -> bool {
    exists|v: int| #[trigger]
        race_table::race_value_is(p.w, race_cache::state_of(p), v) && match sol {
            Some(s) => v != 0 && s == race_root::exact_solution(
                s.mv,
                v,
                game::pawn_moves(p).len() as int,
            ) && race_root::is_best_race_move(p, s.mv),
            None => v == 0,
        }
}

/// The race layers were asked in turn: judgements of the moves where deductions are on, then
/// the table where proofs are. The first solution counts; the flag says that it is the table's.
pub open spec fn found_in_turn<H: SearchHost>(
    p: game::Position,
    cheap_cert: bool,
    race_proof: bool,
    judged: Option<RaceRootSolution>,
    solved: Option<RaceRootSolution>,
    sol: Option<(RaceRootSolution, bool)>,
) -> bool {
    let open = race_root::race_root_open(p);
    &&& if cheap_cert && open {
        race_root::root_judged::<H>(p, judged)
    } else {
        judged is None
    }
    &&& if judged is None && race_proof && open {
        table_solved(p, solved)
    } else {
        solved is None
    }
    &&& sol == match (judged, solved) {
        (Some(x), _) => Some((x, false)),
        (None, Some(x)) => Some((x, true)),
        (None, None) => None,
    }
}

/// What the race layers say of the root.
pub open spec fn solution_found<H: SearchHost>(
    p: game::Position,
    cheap_cert: bool,
    race_proof: bool,
    sol: Option<(RaceRootSolution, bool)>,
) -> bool {
    exists|judged: Option<RaceRootSolution>, solved: Option<RaceRootSolution>| #[trigger]
        found_in_turn::<H>(p, cheap_cert, race_proof, judged, solved, sol)
}

/// Reason of an answer by a solution.
pub open spec fn solution_reason(s: RaceRootSolution, by_table: bool) -> Seq<char> {
    if by_table {
        "race_proof_root_table"@
    } else if s.exact {
        "semi_terminal_race_exact"@
    } else {
        "semi_terminal_race_bound"@
    }
}

/// The answer is the solution of the race layers, where there is one.
pub open spec fn answers_races<H: SearchHost>(s: TitaniumSearch, r: ThinkResult) -> bool {
    exists|sol: Option<(RaceRootSolution, bool)>| #[trigger]
        solution_found::<H>(s.g@, s.cfg.cheap_cert, s.prover.race_proof, sol) && match sol {
            Some((x, t)) => gives_solution(r, x, solution_reason(x, t)),
            None => !is_race_reason(r.stop_reason@),
        }
}

/// Switches of a search with this budget: the reach of reverse futility follows it.
pub open spec fn think_config(c: SearchConfig, time_ms: int) -> SearchConfig {
    SearchConfig {
        ace_rfp_max_depth: if c.rfp_tc_adaptive && time_ms <= 200 {
            4
        } else {
            3
        },
        ..c
    }
}

/// What a search of the root went through: the searcher as it began, after deepening and
/// after the last wall was checked, what deepening came to, and the state that answers.
pub struct SearchTrace {
    /// When it began.
    pub t0: u64,
    pub begun: TitaniumSearch,
    pub ended: TitaniumSearch,
    pub done: Deepened,
    pub checked: TitaniumSearch,
    pub state: IdState,
}

/// A search begins: counters and root are cleared, the budget sets the reach of reverse
/// futility, and, unless the setup is skipped, pondering or pure, the table opens a new
/// generation and old statistics count half.
pub open spec fn think_begun(
    before: TitaniumSearch,
    begun: TitaniumSearch,
    time_ms: u64,
    skip_setup: bool,
) -> bool {
    let keeps = skip_setup || before.cfg.pure_mode || before.cfg.is_pondering;
    &&& begun == (TitaniumSearch {
        cfg: think_config(before.cfg, time_ms as int),
        table: begun.table,
        hist: begun.hist,
        prover: begun.prover,
        nodes: 0,
        root_best: -1i16,
        root_score: 0,
        root_moves: begun.root_moves,
        last_reported_best: -1i16,
        ..before
    })
    &&& begun.root_moves@.len() == 0
    &&& begun.prover.same_config(&before.prover)
    &&& begun.prover.stats == race::no_counts()
    &&& begun.prover.cache == (RaceCache {
        think_solve_ms: 0,
        solve_cap: Some(time_ms),
        blocked: false,
        think_solves: 0,
        build_ok: false,
        ..before.prover.cache
    })
    &&& keeps ==> begun.table == before.table && begun.hist == before.hist
    &&& !keeps ==> begun.table == (tt::TitaniumTt {
        tt_gen: ((before.table.tt_gen + 1) % 256) as u8,
        ..before.table
    }) && history::aged(before.hist, begun.hist)
}

/// Time held back for the check of the last wall.
pub open spec fn wall_reserve(s: TitaniumSearch, time_ms: u64) -> int {
    if s.prover.race_proof && !s.cfg.cheap_cert && game::hand_of(s.g@, s.g@.turn) == 1 {
        timing::gate_reserve(time_ms as int, s.prover.cache.build_ms as int)
    } else {
        0
    }
}

/// The clock was started for the budget without what is held back.
pub open spec fn clock_started<H: SearchHost>(s: TitaniumSearch, time_ms: u64) -> bool {
    exists|h: H| #[trigger] h.runs_for((time_ms - wall_reserve(s, time_ms)) as u64)
}

/// The answer follows from a search: it begins, deepens, checks the last wall, and a move
/// the position rejects is replaced.
pub open spec fn answered_by<H: SearchHost>(
    before: TitaniumSearch,
    after: TitaniumSearch,
    time_ms: u64,
    max_depth: int,
    full: bool,
    skip_setup: bool,
    r: ThinkResult,
    t: SearchTrace,
) -> bool {
    &&& think_begun(before, t.begun, time_ms, skip_setup)
    &&& race_cache::clock_read::<H>(t.t0)
    &&& clock_started::<H>(before, time_ms)
    &&& deepened::<H>(t.begun, t.ended, time_ms as int, t.t0, max_depth, full, t.done)
    &&& wall_checked::<H>(time_ms, t.ended, t.checked, t.done.state, t.state)
    &&& t.checked.g@ == before.g@
    &&& guarded::<H>(t.checked, t.state.last_best, r.mv)
    &&& r.score == t.state.last_score
    &&& r.depth == t.state.last_depth
    &&& r.depth_log@ == t.done.log@
    &&& r.stop_reason@ == reason_text(t.done.stop)
    &&& r.nodes == t.ended.nodes
    &&& r.root_moves@ == t.ended.root_moves@
    &&& r.race_outcome_stats == after.prover.stats
    &&& trace::kept_tables(after, t.checked)
    &&& after.nodes == t.ended.nodes
    &&& after.memo == t.checked.memo
    &&& after.evals == t.checked.evals
    &&& after.prover.cache == t.checked.prover.cache
    &&& after.rp_demotions == t.checked.rp_demotions
}

/// An answer of a search from `before` to `after`.
pub open spec fn search_answer<H: SearchHost>(
    before: TitaniumSearch,
    after: TitaniumSearch,
    time_ms: u64,
    max_depth: int,
    full: bool,
    skip_setup: bool,
    r: ThinkResult,
) -> bool {
    exists|t: SearchTrace| #[trigger]
        answered_by::<H>(before, after, time_ms, max_depth, full, skip_setup, r, t)
}

/// Reason of an answer that a race gave without a search.
pub open spec fn is_race_reason(why: Seq<char>) -> bool {
    why == "semi_terminal_race_exact"@ || why == "semi_terminal_race_bound"@ || why
        == "race_proof_root_table"@
}

/// No reason of a search reads like the book's or a race's.
proof fn lemma_reasons_of_a_search(why: StopReason)
    ensures
        reason_text(why) != "opening-book"@,
        !is_race_reason(reason_text(why)),
{
    reveal_strlit("semi_terminal_race_exact");
    reveal_strlit("semi_terminal_race_bound");
    reveal_strlit("race_proof_root_table");
    assert("semi_terminal_race_exact"@.len() == 24);
    assert("semi_terminal_race_bound"@.len() == 24);
    assert("race_proof_root_table"@.len() == 21);
    assert("race_proof_root_table"@[0] == 'r');
    assert("deadline_before_depth"@[0] == 'd') by {
        reveal_strlit("deadline_before_depth");
    }
    reveal_strlit("opening-book");
    reveal_strlit("stability_soft_budget_before_depth");
    reveal_strlit("predicted_over_time_budget_before_depth");
    reveal_strlit("deadline_before_depth");
    reveal_strlit("time_up");
    reveal_strlit("forced_mate_or_loss");
    reveal_strlit("easy_move_stable");
    reveal_strlit("stability_soft_budget_after_depth");
    reveal_strlit("max_depth_completed");
    assert("opening-book"@.len() == 12);
}

/// The race layers were asked before a search, and nothing else changed but the book's order
/// that the searcher keeps.
pub open spec fn races_asked(s: TitaniumSearch, b: TitaniumSearch, after: TitaniumSearch) -> bool {
    &&& b.g@ == s.g@
    &&& b.prover.same_config(&s.prover)
    &&& b == (TitaniumSearch {
        g: b.g,
        prover: b.prover,
        book_order: after.book_order,
        book_attention: after.book_attention,
        ..s
    })
    &&& !race_root::race_root_open(s.g@) ==> b.prover == s.prover
}

/// Once the races are asked, the answer is a search's.
pub open spec fn searched_after_races<H: SearchHost>(
    s: TitaniumSearch,
    after: TitaniumSearch,
    time_ms: u64,
    max_depth: int,
    full: bool,
    r: ThinkResult,
) -> bool {
    exists|b: TitaniumSearch| #[trigger]
        races_asked(s, b, after) && search_answer::<H>(b, after, time_ms, max_depth, full, false, r)
}

/// An answer without the book: legal, and none only where there is none; a race by its
/// exact value; a step onto the goal row taken; and where no race answers what a search came
/// to.
pub open spec fn answers_unadvised<H: SearchHost>(
    s: TitaniumSearch,
    after: TitaniumSearch,
    time_ms: u64,
    max_depth: int,
    full: bool,
    r: ThinkResult,
) -> bool {
    let p = s.g@;
    let by_race = is_race_reason(r.stop_reason@);
    &&& if legal_moves(p).len() > 0 {
        legal_moves(p).contains(r.mv)
    } else {
        r.mv == -1
    }
    &&& s.prover.race_proof && !s.cfg.cheap_cert ==> answers_race(p, r)
    &&& s.cfg.cheap_cert && race_root::race_root_open(p) && goal_in_reach(p) ==> r.score
        == score::RACE_MATE - 1 && board::is_goal(p.turn, r.mv as int)
    &&& by_race ==> race_root::race_root_open(p) && game::pawn_moves(p).contains(r.mv) && r.depth
        == 99
    &&& answers_races::<H>(s, r)
    &&& after.rp_root_solves == if by_race {
        search::one_more(s.rp_root_solves)
    } else {
        s.rp_root_solves
    }
    &&& !by_race ==> searched_after_races::<H>(s, after, time_ms, max_depth, full, r)
}

/// The book was asked about the position, and said so.
pub open spec fn book_says<H: SearchHost>(
    p: game::Position,
    direct: Option<i16>,
    order: Seq<i16>,
    attention: Seq<i32>,
) -> bool {
    exists|h: H| #[trigger] h.may_advise(p, direct, order, attention)
}

/// The book's move is played at once; without one the answer is found, and the book's order
/// and weight are kept.
pub open spec fn advice_taken<H: SearchHost>(
    s: TitaniumSearch,
    after: TitaniumSearch,
    time_ms: u64,
    max_depth: int,
    full: bool,
    r: ThinkResult,
) -> bool {
    exists|direct: Option<i16>, order: Seq<i16>, attention: Seq<i32>| #[trigger]
        book_says::<H>(s.g@, direct, order, attention) && after.book_order@ == order
            && after.book_attention@ == attention && match direct {
            Some(m) => r.mv == m && r.stop_reason@ == "opening-book"@,
            None => r.stop_reason@ != "opening-book"@ && answers_unadvised::<H>(
                s,
                after,
                time_ms,
                max_depth,
                full,
                r,
            ),
        }
}

/// Both pawns' distances as the answer reports them.
pub open spec fn reports_distances(p: game::Position, r: ThinkResult) -> bool {
    &&& board::dist_value(p.w, 0, p.p0, r.white_dist as int)
    &&& board::dist_value(p.w, 1, p.p1, r.black_dist as int)
}

impl TitaniumSearch {
    /// Adds clock, distances and counters to an answer.
    fn finish_answer<H: SearchHost>(&mut self, r: ThinkResult, time_ms: u64, t0: u64, host: &mut H) -> (out:
        ThinkResult)
        requires
            old(self).ready(0),
        ensures
            final(self).ready(0),
            *final(self) == (TitaniumSearch { dist: final(self).dist, ..*old(self) }),
            reports_distances(old(self).g@, out),
            out.mv == r.mv,
            out.score == r.score,
            out.depth == r.depth,
            out.nodes == r.nodes,
            out.stop_reason == r.stop_reason,
            out.race == r.race,
            out.depth_log == r.depth_log,
            out.root_moves == r.root_moves,
            out.main_thread_nodes == r.main_thread_nodes,
            out.total_nodes == r.total_nodes,
            out.timing.allocated_hard_ms == time_ms,
    {
        self.refresh_dist(0);
        let mut out = r;
        out.white_dist = self.pawn_distance(0) as u8;
        out.black_dist = self.pawn_distance(1) as u8;
        out.ms = host.now_ms().saturating_sub(t0);
        out.race_outcome_stats = self.prover.stats;
        let mut timing = TimingDiag::new();
        timing.allocated_hard_ms = time_ms;
        timing.elapsed_ms = out.ms;
        out.timing = timing;
        out
    }

    /// Counters and budgets of a new search.
    fn begin_think<H: SearchHost>(&mut self, time_ms: u64, skip_setup: bool, host: &mut H) -> (reserve:
        u64)
        requires
            old(self).ready(0),
            old(self).lazy_ok(),
        ensures
            final(self).ready(0),
            final(self).lazy_ok(),
            think_begun(*old(self), *final(self), time_ms, skip_setup),
            // Time is held back for the check of the last wall.
            reserve == wall_reserve(*old(self), time_ms),
            reserve <= time_ms,
            // The clock runs for the rest.
            final(host).runs_for((time_ms - reserve) as u64),
    {
        self.set_rfp_reach(time_ms);
        let gated: bool = self.prover.race_proof && !self.cfg.cheap_cert && self.g.wl[self.g.turn]
            == 1;
        let reserve: u64 = timing::gate_reserve_ms(time_ms, self.prover.cache.build_ms, gated);
        host.start_clock(time_ms - reserve);
        if !skip_setup {
            self.apply_think_start_state();
        }
        self.reset_counters(time_ms);
        reserve
    }

    /// Reach of reverse futility under this budget.
    fn set_rfp_reach(&mut self, time_ms: u64)
        requires
            old(self).ready(0),
        ensures
            final(self).ready(0),
            *final(self) == (TitaniumSearch { cfg: final(self).cfg, ..*old(self) }),
            final(self).cfg == think_config(old(self).cfg, time_ms as int),
    {
        let d: i32 = pruning::rfp_depth_for_budget(self.cfg.rfp_tc_adaptive, time_ms);
        self.cfg = SearchConfig { ace_rfp_max_depth: d, ..self.cfg };
    }

    fn reset_counters(&mut self, time_ms: u64)
        requires
            old(self).tables_ok(),
        ensures
            final(self).tables_ok(),
            final(self).prover.same_config(&old(self).prover),
            final(self).prover.cache == (RaceCache {
                think_solve_ms: 0,
                solve_cap: Some(time_ms),
                blocked: false,
                think_solves: 0,
                build_ok: false,
                ..old(self).prover.cache
            }),
            final(self).prover.stats == race::no_counts(),
            final(self).root_moves@.len() == 0,
            *final(self) == (TitaniumSearch {
                nodes: 0,
                prover: final(self).prover,
                root_best: -1i16,
                root_score: 0,
                root_moves: final(self).root_moves,
                last_reported_best: -1i16,
                ..*old(self)
            }),
    {
        self.nodes = 0;
        self.root_best = moves::TITANIUM_NO_MOVE;
        self.root_score = 0;
        self.root_moves = Vec::new();
        self.last_reported_best = moves::TITANIUM_NO_MOVE;
        self.prover.stats = RaceOutcomeStats::new();
        self.prover.cache.begin_think(time_ms);
    }

    /// Iterative deepening within `time_ms`. `full` ignores the soft limits. The answer is a
    /// legal move, and none only where there is none.
    pub fn think_search<H: SearchHost>(
        &mut self,
        time_ms: u64,
        max_depth: i32,
        full: bool,
        skip_setup: bool,
        host: &mut H,
    ) -> (r: ThinkResult)
        requires
            old(self).ready(0),
            old(self).lazy_ok(),
            time_ms <= i64::MAX,
        ensures
            final(self).ready(0),
            final(self).lazy_ok(),
            final(self).g@ == old(self).g@,
            final(self).lazy.moves == old(self).lazy.moves,
            ({
                let legal = legal_moves(old(self).g@);
                if legal.len() > 0 {
                    legal.contains(r.mv)
                } else {
                    r.mv == -1
                }
            }),
            reports_distances(old(self).g@, r),
            0 <= r.depth <= depth_limit_of(max_depth as int),
            -INF - 64 <= r.score <= INF + 64,
            r.main_completed_depth == r.depth,
            r.nodes == final(self).nodes,
            r.main_thread_nodes == r.nodes,
            r.total_nodes == r.nodes,
            r.race == score::info_of_score(r.score as int),
            log_ok(r.depth_log@, depth_limit_of(max_depth as int) + 1),
            exists|why: StopReason| r.stop_reason@ == #[trigger] reason_text(why),
            r.stop_reason@ != "opening-book"@,
            // Move, score, depth and log are those deepening came to; a last wall shown to
            // lose gives way, and a move the position rejects is replaced.
            search_answer::<H>(
                *old(self),
                *final(self),
                time_ms,
                max_depth as int,
                full,
                skip_setup,
                r,
            ),
            final(self).book_order == old(self).book_order,
            final(self).book_attention == old(self).book_attention,
            final(self).rp_root_solves == old(self).rp_root_solves,
            !is_race_reason(r.stop_reason@),
            r.timing.allocated_hard_ms == time_ms,
            r.helper_nodes@.len() == 0,
    {
        let ghost h0 = *host;
        let t0: u64 = host.now_ms();
        assert(h0.may_read(t0));
        let hits0: u64 = self.prover.cache.hits;
        let solves0: u64 = self.prover.cache.solves;
        let reserve: u64 = self.begin_think(time_ms, skip_setup, host);
        let ghost begun = *self;
        let ghost started = *host;
        assert(started.runs_for((time_ms - wall_reserve(*old(self), time_ms)) as u64));
        let done = self.deepen(time_ms, max_depth, full, t0, host);
        let ghost ended = *self;
        let st = self.last_wall_check(done.state, time_ms, host);
        let ghost checked = *self;
        let mv: i16 = self.root_guard(st.last_best, host);
        let ghost t = SearchTrace { t0, begun, ended, done, checked, state: st };
        proof {
            lemma_reasons_of_a_search(done.stop);
        }
        let white_dist: u8 = self.pawn_distance(0) as u8;
        let black_dist: u8 = self.pawn_distance(1) as u8;
        let now: u64 = host.now_ms().saturating_sub(t0);
        let ms: u64 = if now > 0x7FFF_FFFF_FFFF_FFFF {
            0x7FFF_FFFF_FFFF_FFFF
        } else {
            now
        };
        self.prover.stats.race_tbl_lru_hits = self.prover.cache.hits.saturating_sub(hits0);
        self.prover.stats.race_tbl_lru_rebuilds = self.prover.cache.solves.saturating_sub(solves0);
        let timing = TimingDiag::from_think(
            time_ms,
            reserve,
            ms,
            &done.log,
            st.best_move_changes,
            st.partial_iter_used,
            done.soft_ms,
        );
        host.progress(&self.g, self.nodes, mv, st.last_score, true);
        let r = ThinkResult {
            mv,
            score: st.last_score,
            root_moves: search::copy_scores(&self.root_moves),
            depth: st.last_depth,
            nodes: self.nodes,
            main_thread_nodes: self.nodes,
            helper_nodes: Vec::new(),
            total_nodes: self.nodes,
            main_completed_depth: st.last_depth,
            helper_completed_depths: Vec::new(),
            root_widths: Vec::new(),
            root_visits: Vec::new(),
            root_move_ids: Vec::new(),
            ms,
            white_dist,
            black_dist,
            depth_log: done.log,
            stop_reason: done.stop.text(),
            race_outcome_stats: self.prover.stats,
            root_defense_diag: self.root_defense_diag.clone(),
            race: RaceResultInfo::from_score(st.last_score),
            timing,
        };
        assert(answered_by::<H>(
            *old(self),
            *self,
            time_ms,
            max_depth as int,
            full,
            skip_setup,
            r,
            t,
        ));
        r
    }

    /// Asks the book, then the race tables, then searches. What the book says is taken by
    /// `think_advised`.
    pub fn think<H: SearchHost>(&mut self, time_ms: u64, max_depth: i32, full: bool, host: &mut H) -> (r:
        ThinkResult)
        requires
            old(self).ready(0),
            old(self).lazy_ok(),
            time_ms <= i64::MAX,
        ensures
            final(self).ready(0),
            final(self).lazy_ok(),
            final(self).g@ == old(self).g@,
            final(self).lazy.moves == old(self).lazy.moves,
            reports_distances(old(self).g@, r),
            // The book is asked about the position, and its advice taken.
            advice_taken::<H>(
                *old(self),
                *final(self),
                time_ms,
                max_depth as int,
                full,
                r,
            ),
            r.stop_reason@ == "opening-book"@ ==> r.score == 0 && r.depth == 0 && r.nodes == 0
                && final(self).nodes == old(self).nodes,
            r.stop_reason@ != "opening-book"@ ==> answers_unadvised::<H>(
                *old(self),
                *final(self),
                time_ms,
                max_depth as int,
                full,
                r,
            ),
    {
        let ghost h = *host;
        let advice = host.consult_book(&self.g);
        let ghost (direct, order, attention) = (advice.direct, advice.order@, advice.attention@);
        let r = self.think_advised(advice, time_ms, max_depth, full, host);
        proof {
            assert(h.may_advise(old(self).g@, direct, order, attention));
            assert(book_says::<H>(old(self).g@, direct, order, attention));
        }
        r
    }

    /// Plays the book's move at once, or goes on without one: race tables first, then a
    /// search with the book's order.
    pub fn think_advised<H: SearchHost>(
        &mut self,
        advice: BookAdvice,
        time_ms: u64,
        max_depth: i32,
        full: bool,
        host: &mut H,
    ) -> (r: ThinkResult)
        requires
            old(self).ready(0),
            old(self).lazy_ok(),
            time_ms <= i64::MAX,
        ensures
            final(self).ready(0),
            final(self).lazy_ok(),
            final(self).g@ == old(self).g@,
            final(self).lazy.moves == old(self).lazy.moves,
            reports_distances(old(self).g@, r),
            match advice.direct {
                Some(m) => {
                    &&& r.mv == m
                    &&& r.stop_reason@ == "opening-book"@
                    &&& r.score == 0
                    &&& r.depth == 0
                    &&& r.nodes == 0
                    &&& final(self).nodes == old(self).nodes
                },
                None => {
                    &&& r.stop_reason@ != "opening-book"@
                    &&& answers_unadvised::<H>(
                        *old(self),
                        *final(self),
                        time_ms,
                        max_depth as int,
                        full,
                        r,
                    )
                },
            },
            // The book's order and weight are kept.
            final(self).book_order == advice.order,
            final(self).book_attention == advice.attention,
    {
        let t0: u64 = host.now_ms();
        let ghost p = self.g@;
        self.book_order = advice.order;
        self.book_attention = advice.attention;
        if let Some(direct) = advice.direct {
            let quick = quick_answer(
                direct,
                0,
                0,
                0,
                "opening-book",
                RaceResultInfo::from_score(0),
            );
            let mut out = self.finish_answer(quick, time_ms, t0, host);
            out.timing = TimingDiag::new();
            return out;
        }
        proof {
            reveal_strlit("opening-book");
            reveal_strlit("semi_terminal_race_exact");
            reveal_strlit("semi_terminal_race_bound");
            reveal_strlit("race_proof_root_table");
            assert("opening-book"@.len() == 12);
            assert("semi_terminal_race_exact"@.len() == 24);
            assert("semi_terminal_race_bound"@.len() == 24);
            assert("race_proof_root_table"@.len() == 21);
        }
        let sol = self.solved_root(host);
        if let Some((x, by_table)) = sol {
            self.rp_root_solves = race_cache::bump(self.rp_root_solves);
            proof {
                lemma_pawn_moves_are_legal(p, x.mv);
            }
            if !by_table {
                host.race_told(&self.g, x.legal_moves as u64, x.score, x.info);
            }
            let why: &'static str = if by_table {
                "race_proof_root_table"
            } else if x.exact {
                "semi_terminal_race_exact"
            } else {
                "semi_terminal_race_bound"
            };
            let quick = quick_answer(x.mv, x.score, 99, x.legal_moves as u64, why, x.info);
            let out = self.finish_answer(quick, time_ms, t0, host);
            assert(gives_solution(out, x, solution_reason(x, by_table)));
            return out;
        }
        let ghost asked = *self;
        let r = self.think_search(time_ms, max_depth, full, false, host);
        assert(races_asked(*old(self), asked, *self));
        r
    }

    /// The race at the root, where it can be told without a search: by judgements of the moves,
    /// then by its table. The flag says that the table told.
    fn solved_root<H: SearchHost>(&mut self, host: &mut H) -> (sol: Option<
        (RaceRootSolution, bool),
    >)
        requires
            old(self).ready(0),
        ensures
            final(self).ready(0),
            final(self).g@ == old(self).g@,
            *final(self) == (TitaniumSearch {
                g: final(self).g,
                prover: final(self).prover,
                ..*old(self)
            }),
            final(self).prover.same_config(&old(self).prover),
            !race_root::race_root_open(old(self).g@) ==> sol is None && final(self).prover
                == old(self).prover,
            sol matches Some((x, t)) ==> game::pawn_moves(old(self).g@).contains(x.mv)
                && x.legal_moves == game::pawn_moves(old(self).g@).len(),
            solution_found::<H>(
                old(self).g@,
                old(self).cfg.cheap_cert,
                old(self).prover.race_proof,
                sol,
            ),
            old(self).cfg.cheap_cert && race_root::race_root_open(old(self).g@) && goal_in_reach(
                old(self).g@,
            ) ==> (sol matches Some((x, t)) && x.score == score::RACE_MATE - 1 && board::is_goal(
                old(self).g@.turn,
                x.mv as int,
            )),
            old(self).prover.race_proof && !old(self).cfg.cheap_cert && race_root::race_root_open(
                old(self).g@,
            ) ==> forall|v: int| #[trigger]
                race_table::race_value_is(
                    old(self).g@.w,
                    race_cache::state_of(old(self).g@),
                    v,
                ) && v != 0 ==> (sol matches Some((x, t)) && x == race_root::exact_solution(
                    x.mv,
                    v,
                    game::pawn_moves(old(self).g@).len() as int,
                ) && race_root::is_best_race_move(old(self).g@, x.mv)),
    {
        let ghost p = self.g@;
        let ghost cheap = self.cfg.cheap_cert;
        let ghost proven = self.prover.race_proof;
        if self.cfg.cheap_cert {
            if let Some(s) = self.semi_terminal_root(host) {
                assert(found_in_turn::<H>(p, cheap, proven, Some(s), None, Some((s, false))));
                return Some((s, false));
            }
        }
        if !self.prover.race_proof {
            assert(found_in_turn::<H>(p, cheap, proven, None, None, None));
            return None;
        }
        let table_root = self.prover.race_table_root(&self.g, host);
        proof {
            if race_root::race_root_open(p) {
                lemma_race_root(p);
                assert(table_solved(p, table_root));
            }
        }
        match table_root {
            Some(s) => {
                assert(found_in_turn::<H>(p, cheap, proven, None, Some(s), Some((s, true))));
                Some((s, true))
            },
            None => {
                assert(found_in_turn::<H>(p, cheap, proven, None, None, None));
                None
            },
        }
    }

    /// The race at the root without a table, where proofs suffice.
    fn semi_terminal_root<H: SearchHost>(&mut self, host: &mut H) -> (sol: Option<RaceRootSolution>)
        requires
            old(self).ready(0),
        ensures
            final(self).ready(0),
            final(self).g@ == old(self).g@,
            *final(self) == (TitaniumSearch {
                g: final(self).g,
                prover: final(self).prover,
                ..*old(self)
            }),
            !race_root::race_root_open(old(self).g@) ==> final(self).prover == old(self).prover,
            sol matches Some(s) ==> game::pawn_moves(old(self).g@).contains(s.mv) && s.legal_moves
                == game::pawn_moves(old(self).g@).len(),
            !race_root::race_root_open(old(self).g@) ==> sol is None,
            old(self).cfg.cheap_cert && race_root::race_root_open(old(self).g@)
                ==> race_root::root_judged::<H>(old(self).g@, sol),
            final(self).prover.same_config(&old(self).prover),
            old(self).cfg.cheap_cert && race_root::race_root_open(old(self).g@) && goal_in_reach(
                old(self).g@,
            ) ==> (sol matches Some(s) && s.score == score::RACE_MATE - 1 && board::is_goal(
                old(self).g@.turn,
                s.mv as int,
            )),
    {
        let cheap: bool = self.cfg.cheap_cert;
        self.prover.semi_terminal_race_root(cheap, &mut self.g, host)
    }
}

/// A race has one value.
proof fn lemma_race_root(p: game::Position)
    ensures
        forall|v: int, w: int|
            #![trigger race_table::race_value_is(p.w, race_cache::state_of(p), v),
                race_table::race_value_is(p.w, race_cache::state_of(p), w)]
            race_table::race_value_is(p.w, race_cache::state_of(p), v)
                && race_table::race_value_is(p.w, race_cache::state_of(p), w) ==> v == w,
{
    let i = race_cache::state_of(p);
    assert forall|v: int, w: int|
        #![trigger race_table::race_value_is(p.w, i, v), race_table::race_value_is(p.w, i, w)]
        race_table::race_value_is(p.w, i, v) && race_table::race_value_is(p.w, i, w) implies v
        == w by {
        race_table::law_race_value_is_unique(p.w, i, v, w);
    }
}

proof fn lemma_pawn_moves_are_legal(p: game::Position, m: i16)
    requires
        game::pawn_moves(p).contains(m),
    ensures
        legal_moves(p).contains(m),
        legal_moves(p).len() > 0,
{
    let pawns = game::pawn_moves(p);
    let i = choose|i: int| 0 <= i < pawns.len() && pawns[i] == m;
    let all = legal_moves(p);
    assert(all[i] == m);
}

} // verus!

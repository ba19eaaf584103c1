//! The alpha-beta search.

use crate::board;
use crate::config::SearchConfig;
use crate::dist_cache;
use crate::dist_cache::DistCache;
use crate::eval;
use crate::eval::{CertMemo, EvalCache};
use crate::game;
use crate::game::GameState;
use crate::history;
use crate::history::History;
use crate::host::{LmrQuery, SearchHost};
use crate::movegen;
use crate::moves;
use crate::num;
use crate::ordering;
use crate::ordering::BookHints;
use crate::pruning;
use crate::pruning::{ChildPlan, NodeState, PlanSwitches, RepWindow};
use crate::race;
use crate::race::{RaceBound, RaceOutcomeStats, RaceProver};
use crate::race_cache;
use crate::race_root;
use crate::race_table;
use crate::root_select::RootDefenseDiag;
use crate::routes;
use crate::score;
use crate::score::{INF, MATE, MAX_PLY};
use crate::trace;
use crate::trace::{Asked, Call, Judged, Step};
use crate::tt;
use crate::tt::{SharedTtEntry, TitaniumTt};
use vstd::prelude::*;

verus! {

/// The search ran out of time.
#[derive(Clone, Copy, Debug, PartialEq, Eq, Structural)]
pub struct TimeUp;

/// Root moves of a helper thread.
pub struct LazyRoot {
    /// Searched instead of the generated moves, when present.
    pub moves: Option<Vec<i16>>,
    /// How many of them.
    pub allowed: usize,
    /// Places of the moves in the full list.
    pub visit_map: Option<Vec<usize>>,
    /// Places searched so far.
    pub visits: Vec<usize>,
}

/// One reduced move, recorded for offline study.
#[derive(Clone, Copy, Debug, PartialEq, Eq, Structural)]
pub struct ReductionProbeEvent {
    pub ordinal: u64,
    pub parent_hash_lo: u32,
    pub parent_hash_hi: u32,
    pub child_hash_lo: u32,
    pub child_hash_hi: u32,
    pub mv: i16,
    pub depth: i32,
    pub ply: usize,
    pub alpha: i32,
    pub beta: i32,
    pub move_index: usize,
    /// Plies asked for before the cap.
    pub base_reduction: i32,
    pub applied_extra_reduction: bool,
    pub verification_triggered: bool,
    pub self_gain: i32,
    pub opponent_delay: i32,
    pub race_gain: i32,
    /// What the cap changed.
    pub path_adjustment: i32,
    /// Plies taken off, the extra one aside.
    pub final_reduction: i32,
    pub thread_aggression_percent: i32,
    pub score: i32,
    pub nodes: u64,
    pub total_legal_moves: usize,
    pub history_score: i32,
}

/// Offline study of reductions: one chosen move may be reduced once more.
pub struct ReductionProbe {
    pub enabled: bool,
    pub target: Option<u64>,
    pub next: u64,
    pub limit: usize,
    pub min_depth: i32,
    /// Tuning of heat-shaped reductions, as recorded.
    pub tuning_percent: i32,
    pub events: Vec<ReductionProbeEvent>,
}

/// The searcher: position, tables and what it knows of the root.
pub struct TitaniumSearch {
    pub g: GameState,
    pub cfg: SearchConfig,
    pub table: TitaniumTt,
    /// Probe and store in the table shared between threads instead.
    pub use_shared: bool,
    pub hist: History,
    pub dist: DistCache,
    pub prover: RaceProver,
    pub memo: CertMemo,
    pub evals: EvalCache,
    /// Position keys of the line being searched, by ply.
    pub path: Vec<(u32, u32)>,
    /// Repetitions the subtree of each ply leans on.
    pub windows: Vec<RepWindow>,
    /// Static evaluation by ply.
    pub eval_stack: Vec<Option<i32>>,
    pub nodes: u64,
    pub root_best: i16,
    pub root_score: i32,
    pub root_pawn_best: i16,
    pub root_pawn_score: Option<i32>,
    /// Root moves searched so far with their best scores.
    pub root_moves: Vec<(i16, i32)>,
    pub last_reported_best: i16,
    pub book_order: Vec<i16>,
    pub book_attention: Vec<i32>,
    pub root_defense_diag: Vec<RootDefenseDiag>,
    pub lazy: LazyRoot,
    pub probe: ReductionProbe,
    /// The child at this ply has just had its distances brought up to date.
    pub pending_cat_child_ply: Option<usize>,
    pub ab_after_cat_child: bool,
    /// Last walls that gave way to another move.
    pub rp_demotions: u64,
    /// Roots that a race answered without a search.
    pub rp_root_solves: u64,
}

/// The key of a position.
pub open spec fn key_of(p: game::Position) -> (u32, u32) {
    (p.hash_lo, p.hash_hi)
}

/// The key stands at an earlier ply of the line.
pub open spec fn repeats_line(path: Seq<(u32, u32)>, ply: int, key: (u32, u32)) -> bool {
    exists|i: int| 0 <= i < ply && #[trigger] path[i] == key
}

/// The player who just moved is home.
pub open spec fn mover_is_home(p: game::Position) -> bool {
    board::is_goal(1 - p.turn, game::pawn_of(p, 1 - p.turn))
}

/// A score of this search.
pub open spec fn score_ok(s: int) -> bool {
    -INF <= s <= INF
}

/// What is known of a node before anything is searched: the game is over, the line is
/// too long, or the position repeats.
pub open spec fn entry_score(p: game::Position, path: Seq<(u32, u32)>, ply: int) -> Option<int> {
    if mover_is_home(p) {
        Some(-(MATE - ply))
    } else if ply >= MAX_PLY - 1 {
        Some(0)
    } else if ply > 0 && (repeats_line(path, ply, key_of(p)) || game::repeats_history(p)) {
        Some(0)
    } else {
        None
    }
}

/// The repetition a node at its entry leans on: the last ply of the line with its key.
pub open spec fn entry_window(
    p: game::Position,
    path: Seq<(u32, u32)>,
    ply: int,
    w: RepWindow,
) -> bool {
    if mover_is_home(p) {
        w.min_ply == MAX_PLY
    } else if ply >= MAX_PLY - 1 {
        w == (RepWindow { min_ply: -1i32, anc_lo: 0, anc_hi: 0 })
    } else if ply > 0 && repeats_line(path, ply, key_of(p)) {
        &&& 0 <= w.min_ply < ply
        &&& path[w.min_ply as int] == key_of(p)
        &&& forall|i: int| w.min_ply < i < ply ==> #[trigger] path[i] != key_of(p)
        &&& w.anc_lo == p.hash_lo
        &&& w.anc_hi == p.hash_hi
    } else {
        w.min_ply == MAX_PLY
    }
}

/// What is known at the entry depends only on the line before it.
pub proof fn lemma_entry_by_line(
    p: game::Position,
    path: Seq<(u32, u32)>,
    other: Seq<(u32, u32)>,
    ply: int,
)
    requires
        forall|i: int| 0 <= i < ply ==> #[trigger] path[i] == other[i],
    ensures
        entry_score(p, path, ply) == entry_score(p, other, ply),
{
    let key = key_of(p);
    if repeats_line(path, ply, key) {
        let i = choose|i: int| 0 <= i < ply && #[trigger] path[i] == key;
        assert(other[i] == key);
    }
    if repeats_line(other, ply, key) {
        let i = choose|i: int| 0 <= i < ply && #[trigger] other[i] == key;
        assert(path[i] == other[i]);
    }
}

/// A count after one more, stopping at the largest value.
pub open spec fn one_more(n: u64) -> u64 {
    if n == u64::MAX {
        n
    } else {
        (n + 1) as u64
    }
}

/// The clock may have ended a search that began after `before` nodes: nodes were counted,
/// and the last one is a multiple of 64, where the clock is looked at.
pub open spec fn clock_looked(before: u64, after: u64) -> bool {
    before < after && after % 64 == 0
}

/// The clock was asked whether time is up, and said so.
pub open spec fn clock_says<H: SearchHost>(up: bool) -> bool {
    exists|h: H| #[trigger] h.may_be_up(up)
}

/// On every 64th node the clock says whether time is up. On no other is it.
pub open spec fn time_checked<H: SearchHost>(nodes: u64, up: bool) -> bool {
    if nodes % 64 == 0 {
        clock_says::<H>(up)
    } else {
        !up
    }
}

/// What a corridor certificate can say: nothing, or that a side wins.
pub open spec fn corridor_bound(b: RaceBound) -> bool {
    b == RaceBound::Unknown || b == RaceBound::Lower(score::RACE_WIN_FLOOR) || b
        == RaceBound::Upper((-score::RACE_WIN_FLOOR) as i32)
}

/// Bound of a corridor's winner.
pub open spec fn corridor_says(winner: Option<usize>, turn: int) -> RaceBound {
    match winner {
        Some(x) => if x == turn {
            RaceBound::Lower(score::RACE_WIN_FLOOR)
        } else {
            RaceBound::Upper((-score::RACE_WIN_FLOOR) as i32)
        },
        None => RaceBound::Unknown,
    }
}

/// The bound is that of the corridor winner the surroundings tell.
pub open spec fn corridor_told<H: SearchHost>(p: game::Position, b: RaceBound) -> bool {
    exists|h: H| #[trigger] corridor_says(h.corridor_of(p), p.turn) == b
}

/// Counters after a corridor was asked for and the answer came to this bound.
pub open spec fn corridor_asked(s: RaceOutcomeStats, b: RaceBound) -> RaceOutcomeStats {
    let calls = one_more(s.wall_ignore_calls);
    if b == RaceBound::Unknown {
        RaceOutcomeStats {
            wall_ignore_calls: calls,
            wall_ignore_unknown: one_more(s.wall_ignore_unknown),
            ..s
        }
    } else {
        RaceOutcomeStats {
            wall_ignore_calls: calls,
            wall_ignore_decisive: one_more(s.wall_ignore_decisive),
            ..s
        }
    }
}

/// Counters after the bound was held against the window.
pub open spec fn corridor_cut(s: RaceOutcomeStats, b: RaceBound, cut: bool) -> RaceOutcomeStats {
    if !cut {
        s
    } else if b is Lower {
        RaceOutcomeStats { wall_ignore_cut_fail_high: one_more(s.wall_ignore_cut_fail_high), ..s }
    } else {
        RaceOutcomeStats { wall_ignore_cut_fail_low: one_more(s.wall_ignore_cut_fail_low), ..s }
    }
}

/// Move of the searcher's own table for the position; zero without one.
pub open spec fn table_move(s: TitaniumSearch) -> int {
    match s.table.base.lookup(s.g.hash_lo, s.g.hash_hi) {
        Some(e) => if entry_usable(e) {
            tt::word_move(e.meta as int)
        } else {
            0
        },
        None => 0,
    }
}

/// A table entry the search can use.
pub open spec fn entry_usable(e: SharedTtEntry) -> bool {
    e.meta > 0 && -INF - 64 <= e.score <= INF + 64
}

/// Where the bound meets the window, the cut is what it gives.
pub open spec fn cut_owed(b: RaceBound, alpha: i32, beta: i32, cut: Option<i32>) -> bool {
    match race::window_cut(b, alpha as int, beta as int) {
        Some(v) => cut is Some && cut->0 == v,
        None => true,
    }
}

/// Few enough walls are left for a race to be asked about.
pub open spec fn race_is_asked(p: game::Position) -> bool {
    p.wl0 + p.wl1 <= 2 || p.wl0 == 0 || p.wl1 == 0
}

/// With one wall left, the bound names the winner that the layer proves.
pub open spec fn one_wall_ground(p: game::Position, b: RaceBound) -> bool {
    ||| b == RaceBound::Lower(score::RACE_WIN_FLOOR) && (race::holder_verdict(p, p.turn)
        || race::nonholder_verdict(p, p.turn))
    ||| b == RaceBound::Upper((-score::RACE_WIN_FLOOR) as i32) && (race::holder_verdict(
        p,
        1 - p.turn,
    ) || race::nonholder_verdict(p, 1 - p.turn))
}

/// With two walls left in one hand, likewise.
pub open spec fn two_wall_ground(p: game::Position, b: RaceBound) -> bool {
    ||| b == RaceBound::Lower(score::RACE_WIN_FLOOR) && race::monopoly_verdict(p, p.turn)
    ||| b == RaceBound::Upper((-score::RACE_WIN_FLOOR) as i32) && race::monopoly_verdict(
        p,
        1 - p.turn,
    )
}

/// A race layer speaks for the bound: the race of a side that is out of walls, a decided
/// race with one or two walls left, or a deduction where both hands are empty.
pub open spec fn race_ground<H: SearchHost>(s: TitaniumSearch, b: RaceBound) -> bool {
    let p = s.g@;
    ||| (p.wl0 == 0) != (p.wl1 == 0) && exists|x: i32| #[trigger]
        race_cache::race_score_is(p, Some(x)) && b == race::broke_bound(p, Some(x))
    ||| p.wl0 + p.wl1 == 1 && s.prover.one_wall_race_resolved == Some(true) && one_wall_ground(p, b)
    ||| p.wl0 + p.wl1 == 2 && s.prover.two_wall_race_resolved == Some(true) && two_wall_ground(p, b)
    ||| p.wl0 == 0 && p.wl1 == 0 && s.cfg.cheap_cert && exists|h: H| #[trigger] h.deduced(p).0 == b
}

/// The race of a side that is out of walls leaves the window alone.
pub open spec fn broke_is_silent(p: game::Position, alpha: i32, beta: i32) -> bool {
    forall|x: Option<i32>| #[trigger]
        race_cache::race_score_is(p, x) ==> race::window_cut(
            race::broke_bound(p, x),
            alpha as int,
            beta as int,
        ) is None
}

/// The layer is asked in this window: always, or where it is wider than one point.
pub open spec fn layer_asked(pv_only: bool, alpha: i32, beta: i32) -> bool {
    !pv_only || beta > alpha + 1
}

/// With both hands empty a deduction cuts where its bound meets the window. Otherwise the
/// race's score counts, where a table gives it.
pub open spec fn deduction_follows<H: SearchHost>(
    s: TitaniumSearch,
    h: H,
    alpha: i32,
    beta: i32,
    cut: Option<i32>,
) -> bool {
    let p = s.g@;
    match race::window_cut(h.deduced(p).0, alpha as int, beta as int) {
        Some(v) => cut is Some && cut->0 == v,
        None => {
            &&& cut matches Some(v) ==> s.prover.race_proof && race_cache::race_score_is(p, Some(v))
            &&& s.prover.race_proof ==> race_cache::score_had::<H>(s.prover.cache, p, false, cut)
            &&& s.prover.race_proof && s.prover.cache.cached(p.w) ==> race_cache::race_score_is(
                p,
                cut,
            )
        },
    }
}

/// Where one or two walls are left and the tables at hand name the winner, the bound that
/// says so is held against the window, unless the race of a side without walls has cut.
pub open spec fn layers_owed(s: TitaniumSearch, alpha: i32, beta: i32, cut: Option<i32>) -> bool {
    let p = s.g@;
    &&& p.wl0 + p.wl1 == 1 && s.prover.one_wall_race_resolved == Some(true) && layer_asked(
        s.cfg.one_wall_race_pv_only,
        alpha,
        beta,
    ) && s.prover.race_proof && s.prover.cache.cached(p.w) && broke_is_silent(p, alpha, beta)
        ==> forall|x: int|
        #![trigger race::holder_owed(s.prover, p, x)]
        #![trigger race::nonholder_owed(s.prover, p, x)]
        race::holder_owed(s.prover, p, x) || race::nonholder_owed(s.prover, p, x) ==> cut_owed(
            race::winner_bound(p.turn, Some(x)),
            alpha,
            beta,
            cut,
        )
    &&& p.wl0 + p.wl1 == 2 && s.prover.two_wall_race_resolved == Some(true) && layer_asked(
        s.cfg.two_wall_race_pv_only,
        alpha,
        beta,
    ) && broke_is_silent(p, alpha, beta) ==> forall|x: int| #[trigger]
        race::monopoly_owed(s.prover, p, x) ==> cut_owed(
            race::winner_bound(p.turn, Some(x)),
            alpha,
            beta,
            cut,
        )
}

/// The bound of a race layer cuts the window at `v`.
pub open spec fn race_bound_cuts<H: SearchHost>(s: TitaniumSearch, b: RaceBound, alpha: i32, beta: i32, v: i32) -> bool {
    race_ground::<H>(s, b) && race::cut_is(b, alpha, beta, Some(v))
}

/// What the race layers of `s` said against the window. `after` is the prover afterwards.
pub open spec fn race_cut_follows<H: SearchHost>(
    s: TitaniumSearch,
    after: RaceProver,
    alpha: i32,
    beta: i32,
    cut: Option<i32>,
) -> bool {
    let p = s.g@;
    let both_empty = p.wl0 == 0 && p.wl1 == 0;
    // A cut is the race's score with both hands empty, or a bound that meets the window.
    &&& cut matches Some(v) ==> score_ok(v as int) && ((race_cache::race_score_is(p, Some(v))
        && both_empty && s.prover.race_proof) || exists|b: RaceBound| #[trigger]
        race_bound_cuts::<H>(s, b, alpha, beta, v))
    &&& !race_is_asked(p) ==> cut is None && after == s.prover
    // One side out of walls: the race's score, where its table is had, gives a bound that is
    // held against the window; a table at hand always decides.
    &&& s.prover.race_proof && (p.wl0 == 0) != (p.wl1 == 0) ==> exists|b: RaceBound| #[trigger]
        race::broke_told::<H>(s.prover.cache, p, b) && cut_owed(b, alpha, beta, cut)
    &&& s.prover.race_proof && s.prover.cache.cached(p.w) && (p.wl0 == 0) != (p.wl1 == 0)
        ==> forall|x: Option<i32>| #[trigger]
        race_cache::race_score_is(p, x) ==> cut_owed(race::broke_bound(p, x), alpha, beta, cut)
    // Both out of walls: a table at hand gives the exact score, unless a cheaper deduction
    // has cut before.
    &&& s.prover.race_proof && s.prover.cache.cached(p.w) && both_empty
        ==> race_cache::race_score_is(p, cut) || (s.cfg.cheap_cert && (cut == Some(alpha) || cut
        == Some(beta)))
    &&& !s.prover.race_proof && !s.cfg.cheap_cert && both_empty ==> cut is None
    &&& s.prover.race_proof && !s.cfg.cheap_cert && both_empty ==> race_cache::score_had::<H>(
        s.prover.cache,
        p,
        false,
        cut,
    )
    &&& both_empty && s.cfg.cheap_cert ==> exists|h: H| #[trigger]
        deduction_follows(s, h, alpha, beta, cut)
    // One or two walls left: what the tables at hand say.
    &&& layers_owed(s, alpha, beta, cut)
}

/// What a corridor certificate did to the window, and to the counters that tell its answer.
pub open spec fn corridor_follows<H: SearchHost>(
    before: TitaniumSearch,
    after: TitaniumSearch,
    alpha: i32,
    beta: i32,
    cut: Option<i32>,
) -> bool {
    &&& !before.asks_for_corridor() ==> cut is None && after == before
    &&& before.asks_for_corridor() ==> exists|b: RaceBound| #[trigger]
        corridor_bound(b) && corridor_told::<H>(before.g@, b) && race::cut_is(b, alpha, beta, cut)
            && after == (TitaniumSearch {
            prover: RaceProver {
                stats: corridor_cut(
                    corridor_asked(before.prover.stats, b),
                    b,
                    cut is Some,
                ),
                ..before.prover
            },
            ..before
        })
}

/// The shared table was offered this.
pub open spec fn was_offered<H: SearchHost>(entry: SharedTtEntry, tt_gen: u8, pure_mode: bool) -> bool {
    exists|h: H| #[trigger] h.was_offered(entry, tt_gen, pure_mode)
}

/// A searched node is stored with its own depth, flag, move and score, and teaches the bias.
pub open spec fn node_stored<H: SearchHost>(
    before: TitaniumSearch,
    after: TitaniumSearch,
    ply: int,
    depth: int,
    state: NodeState,
    static_ev: int,
) -> bool {
    let best = state.best->0 as int;
    let flag = state.flag as int;
    &&& after == (TitaniumSearch { hist: after.hist, table: after.table, ..before })
    &&& after.hist.sf_history == before.hist.sf_history
    &&& after.table.tt_gen == before.table.tt_gen
    // The shared table is offered the claim; the searcher's own takes it.
    &&& before.use_shared ==> after.table == before.table && was_offered::<H>(
        before.node_entry(ply, depth, state),
        before.table.tt_gen,
        before.cfg.pure_mode,
    )
    &&& !before.use_shared ==> forall|lo: u32, hi: u32| #[trigger]
        after.table.base.lookup(lo, hi) == tt::found(
            tt::offered(
                before.table.base.slots@,
                before.table.base.bits as nat,
                before.node_entry(ply, depth, state),
                before.table.tt_gen,
                before.cfg.pure_mode,
            ),
            before.table.base.bits as nat,
            lo,
            hi,
        )
    // An ordinary result teaches the bias.
    &&& !history::teaches(best, static_ev, flag) ==> after.hist == before.hist
    &&& history::teaches(best, static_ev, flag) ==> history::taught(
        before.hist,
        after.hist,
        history::corr_bucket(before.g),
        before.g.turn as int,
        best,
        static_ev,
        depth,
    )
}

/// What a cutoff by `m` teaches the statistics, after these walls and pawn moves were tried.
pub open spec fn cutoff_learned(
    before: TitaniumSearch,
    after: TitaniumSearch,
    ply: int,
    m: i16,
    prev_move: i16,
    depth: int,
    walls: Seq<i16>,
    pawns: Seq<i16>,
) -> bool {
    let (b, a) = (before.hist, after.hist);
    let bonus = depth * depth;
    &&& after == (TitaniumSearch { hist: a, ..before })
    &&& a.sf_history == b.sf_history
    &&& a.corr0 == b.corr0
    &&& a.corr1 == b.corr1
    // A wall becomes a killer and is counted; a pawn move is neither.
    &&& a.killers@ == if moves::wall_id(m as int) {
        b.killers@.update(ply, history::killers_after(b.killers@[ply], m))
    } else {
        b.killers@
    }
    &&& a.history_tbl@ == if moves::wall_id(m as int) {
        history::counted(b.history_tbl@, m as int, depth)
    } else {
        b.history_tbl@
    }
    // The reply is remembered.
    &&& a.cm@ == if prev_move >= 0 {
        b.cm@.update(prev_move as int, m)
    } else {
        b.cm@
    }
    // Side-split statistics move only when they are on.
    &&& !b.sf_history ==> a.hist_sf0 == b.hist_sf0 && a.hist_sf1 == b.hist_sf1 && a.cont_hist
        == b.cont_hist
    &&& b.sf_history ==> {
        &&& a.hist_sf0@ == if before.g.turn == 0 {
            history::credited(b.hist_sf0@, m, bonus, walls + pawns)
        } else {
            b.hist_sf0@
        }
        &&& a.hist_sf1@ == if before.g.turn != 0 {
            history::credited(b.hist_sf1@, m, bonus, walls + pawns)
        } else {
            b.hist_sf1@
        }
        &&& a.cont_hist@ == if prev_move >= 0 {
            history::replies_credited(b.cont_hist@, prev_move as int, m, bonus, walls)
        } else {
            b.cont_hist@
        }
    }
}

/// A race has one score.
pub proof fn lemma_one_race_score(p: game::Position)
    ensures
        forall|a: Option<i32>, b: Option<i32>|
            #![trigger race_cache::race_score_is(p, a), race_cache::race_score_is(p, b)]
            race_cache::race_score_is(p, a) && race_cache::race_score_is(p, b) ==> a == b,
{
    let i = race_cache::state_of(p);
    assert forall|a: Option<i32>, b: Option<i32>|
        #![trigger race_cache::race_score_is(p, a), race_cache::race_score_is(p, b)]
        race_cache::race_score_is(p, a) && race_cache::race_score_is(p, b) implies a == b by {
        let v = choose|v: int|
            -13_122 <= v <= 13_122 && #[trigger] race_table::value_is(p.w, i, v)
                && race_cache::score_of_value(v) == a;
        let u = choose|u: int|
            -13_122 <= u <= 13_122 && #[trigger] race_table::value_is(p.w, i, u)
                && race_cache::score_of_value(u) == b;
        if race_table::live(i) {
            race_table::law_race_value_is_unique(p.w, i, v, u);
        }
    }
}

/// A leaf with both hands empty: the race decides it.
pub open spec fn is_race_leaf(s: TitaniumSearch, depth: int) -> bool {
    s.g@.wl0 == 0 && s.g@.wl1 == 0 && (!s.cfg.cert_eval_leaves_only || depth <= 0)
}

/// `v` is the network output with the learned bias, or a certificate in its place. The
/// cache then holds the output, the one it held before if there was one, and the memo the
/// certificate.
pub open spec fn net_evaluated<H: SearchHost>(
    before: TitaniumSearch,
    after: TitaniumSearch,
    depth: int,
    v: int,
) -> bool {
    let p = before.g@;
    let raw = num::clamped(after.evals.known(p)->0 as int, -INF as int, INF as int);
    let bias = before.hist.bias(before.g.turn as int, history::corr_bucket(before.g));
    &&& after.evals.known(p) is Some
    &&& before.evals.known(p) is Some ==> after.evals == before.evals
    // An output not at hand is the network's, for this position and its race distances.
    &&& before.evals.known(p) is None ==> net_told::<H>(before, after.evals.known(p)->0 as int)
    // A certificate takes its place where one may open, is proven, and was known or could
    // still be tried for.
    &&& if certificate_may_open(before, depth, raw) && (before.memo.cw_think_calls
        < before.memo.cw_cap || before.memo.known(p, p.turn) is Some) {
        eval_certified::<H>(before, after, raw, bias, v)
    } else {
        after.memo == before.memo && v == eval::settled_eval(raw, false, bias)
    }
}

/// The evaluation by what a certificate for the side to move came to.
pub open spec fn eval_certified<H: SearchHost>(
    before: TitaniumSearch,
    after: TitaniumSearch,
    raw: int,
    bias: int,
    v: int,
) -> bool {
    let p = before.g@;
    exists|o: eval::CertOutcome| #[trigger]
        eval::cert_follows::<H>(before.memo, after.memo, p, p.turn, 1200, 0, o) && v
            == eval::settled_eval(raw, o.is_proven(), bias)
}

/// A certificate may be asked for: proofs are on, the hand is small enough, the output leaves
/// it open, and the race is not behind by more than a step.
pub open spec fn certificate_may_open(s: TitaniumSearch, depth: int, raw: int) -> bool {
    let p = s.g@;
    let d = race_distances(p, None);
    eval::cert_gate(
        s.prover.race_proof,
        s.cfg.cert_eval_leaves_only,
        depth,
        raw,
        d.0,
        d.1,
        game::hand_of(p, p.turn),
        game::hand_of(p, 1 - p.turn),
    )
}

/// A distance, or the jump distance in its place where one is known.
pub open spec fn jumped(d: int, jump: u8) -> int {
    if jump != 255 {
        jump as int
    } else {
        d
    }
}

/// Distances of the side to move and of the other, with jump distances in their place. Those
/// come by player.
pub open spec fn jumped_pair(turn: int, me: int, opp: int, jumps: Option<(u8, u8)>) -> (int, int) {
    match jumps {
        Some((j0, j1)) => if turn == 0 {
            (jumped(me, j0), jumped(opp, j1))
        } else {
            (jumped(me, j1), jumped(opp, j0))
        },
        None => (me, opp),
    }
}

/// Puts jump distances in the place of goal distances.
pub fn with_jumps(turn: usize, d_me: i32, d_opp: i32, jumps: Option<(u8, u8)>) -> (r: (i32, i32))
    ensures
        (r.0 as int, r.1 as int) == jumped_pair(turn as int, d_me as int, d_opp as int, jumps),
{
    match jumps {
        Some((j0, j1)) => {
            let (j_me, j_opp): (u8, u8) = if turn == 0 {
                (j0, j1)
            } else {
                (j1, j0)
            };
            let me: i32 = if j_me != 255 {
                j_me as i32
            } else {
                d_me
            };
            let opp: i32 = if j_opp != 255 {
                j_opp as i32
            } else {
                d_opp
            };
            (me, opp)
        },
        None => (d_me, d_opp),
    }
}

/// Goal distances of the side to move and of the other, with jump distances in their place.
pub open spec fn race_distances(p: game::Position, jumps: Option<(u8, u8)>) -> (int, int) {
    jumped_pair(
        p.turn,
        board::goal_distance(p.w, p.turn, game::pawn_of(p, p.turn)),
        board::goal_distance(p.w, 1 - p.turn, game::pawn_of(p, 1 - p.turn)),
        jumps,
    )
}

/// Score of a race by its distances alone.
pub open spec fn race_guess(p: game::Position, jumps: Option<(u8, u8)>) -> int {
    let d = race_distances(p, jumps);
    race_root::distance_heuristic(d.0, d.1)
}

/// Jump distances as the surroundings tell them, where they are asked for.
pub open spec fn jumps_told<H: SearchHost>(s: TitaniumSearch, jumps: Option<(u8, u8)>) -> bool {
    if s.prover.race_proof && s.g@.wl0 == 0 && s.g@.wl1 == 0 {
        exists|h: H| #[trigger] h.jumps_of(s.g@) == jumps
    } else {
        jumps is None
    }
}

/// Output of a host's network for a position and its race distances, as the cache takes it.
pub open spec fn net_answer<H: SearchHost>(h: H, p: game::Position, jumps: Option<(u8, u8)>) -> int {
    let d = race_distances(p, jumps);
    num::clamped(h.net_of(p, d.0, d.1) as int, -INF as int, INF as int)
}

/// `v` is the network's output for the position and its race distances.
pub open spec fn net_told<H: SearchHost>(s: TitaniumSearch, v: int) -> bool {
    exists|h: H, jumps: Option<(u8, u8)>| #[trigger]
        net_answer(h, s.g@, jumps) == v && jumps_told::<H>(s, jumps)
}

/// A leaf with both hands empty, by its race.
pub open spec fn race_evaluated<H: SearchHost>(s: TitaniumSearch, v: int) -> bool {
    exists|jumps: Option<(u8, u8)>|
        #![trigger race_guess(s.g@, jumps)]
        jumps_told::<H>(s, jumps) && if s.prover.race_proof {
            race_root::race_or_guess::<H>(s.prover.cache, s.g@, race_guess(s.g@, jumps), v)
        } else {
            v == race_guess(s.g@, jumps)
        }
}

/// A certificate that is known, or the network.
pub open spec fn known_or_net<H: SearchHost>(
    before: TitaniumSearch,
    after: TitaniumSearch,
    depth: int,
    v: int,
) -> bool {
    let p = before.g@;
    if before.prover.race_proof && 0 < p.wl0 + p.wl1 <= 2 && before.memo.known(p, p.turn) == Some(
        1i32,
    ) {
        v == eval::CERT_SCORE && after.memo == before.memo && after.evals == before.evals
    } else {
        net_evaluated::<H>(before, after, depth, v)
    }
}

/// One side out of walls: the race against it where that decides.
pub open spec fn broke_evaluated<H: SearchHost>(
    before: TitaniumSearch,
    after: TitaniumSearch,
    depth: int,
    v: int,
) -> bool {
    exists|b: RaceBound| #[trigger]
        race::broke_told::<H>(before.prover.cache, before.g@, b) && match b {
            RaceBound::Lower(_) => v == eval::BROKE_SCORE,
            RaceBound::Upper(_) => v == -eval::BROKE_SCORE,
            _ => known_or_net::<H>(before, after, depth, v),
        }
}

/// `v` is the static evaluation of a position.
#[verifier::opaque]
pub open spec fn evaluated<H: SearchHost>(
    before: TitaniumSearch,
    after: TitaniumSearch,
    depth: int,
    v: int,
) -> bool {
    let p = before.g@;
    let proofs = before.prover.race_proof;
    if is_race_leaf(before, depth) {
        // The race's score where its table is had and decides, the distances otherwise.
        race_evaluated::<H>(before, v)
    } else if proofs && (p.wl0 == 0) != (p.wl1 == 0) {
        broke_evaluated::<H>(before, after, depth, v)
    } else {
        known_or_net::<H>(before, after, depth, v)
    }
}

/// Of the searcher afterwards, only memo and outputs matter.
proof fn lemma_evaluated_by<H: SearchHost>(
    before: TitaniumSearch,
    a: TitaniumSearch,
    b: TitaniumSearch,
    depth: int,
    v: int,
)
    requires
        evaluated::<H>(before, a, depth, v),
        a.memo == b.memo,
        a.evals == b.evals,
    ensures
        evaluated::<H>(before, b, depth, v),
{
    reveal(evaluated);
    let p = before.g@;
    let raw = num::clamped(a.evals.known(p)->0 as int, -INF as int, INF as int);
    let bias = before.hist.bias(before.g.turn as int, history::corr_bucket(before.g));
    assert(eval_certified::<H>(before, a, raw, bias, v) ==> eval_certified::<H>(
        before,
        b,
        raw,
        bias,
        v,
    ));
    assert(net_evaluated::<H>(before, a, depth, v) ==> net_evaluated::<H>(before, b, depth, v));
    assert(known_or_net::<H>(before, a, depth, v) ==> known_or_net::<H>(before, b, depth, v));
    if broke_evaluated::<H>(before, a, depth, v) {
        let x = choose|x: RaceBound| #[trigger]
            race::broke_told::<H>(before.prover.cache, before.g@, x) && match x {
                RaceBound::Lower(_) => v == eval::BROKE_SCORE,
                RaceBound::Upper(_) => v == -eval::BROKE_SCORE,
                _ => known_or_net::<H>(before, a, depth, v),
            };
        assert(race::broke_told::<H>(before.prover.cache, before.g@, x));
        assert(broke_evaluated::<H>(before, b, depth, v));
    }
}

/// Of the searcher before, the distances it has at hand do not matter: the evaluation goes by
/// those of the position.
pub proof fn lemma_evaluated_from<H: SearchHost>(
    b: TitaniumSearch,
    c: TitaniumSearch,
    a: TitaniumSearch,
    depth: int,
    v: int,
)
    requires
        evaluated::<H>(c, a, depth, v),
        c == (TitaniumSearch { dist: c.dist, ..b }),
    ensures
        evaluated::<H>(b, a, depth, v),
{
    reveal(evaluated);
    let p = c.g@;
    assert forall|jumps: Option<(u8, u8)>| #[trigger] jumps_told::<H>(c, jumps) implies jumps_told::<
        H,
    >(b, jumps) by {}
    if race_evaluated::<H>(c, v) {
        let jumps = choose|jumps: Option<(u8, u8)>|
            #![trigger race_guess(c.g@, jumps)]
            jumps_told::<H>(c, jumps) && if c.prover.race_proof {
                race_root::race_or_guess::<H>(c.prover.cache, c.g@, race_guess(c.g@, jumps), v)
            } else {
                v == race_guess(c.g@, jumps)
            };
        assert(jumps_told::<H>(b, jumps));
        assert(race_guess(b.g@, jumps) == race_guess(c.g@, jumps));
        assert(race_evaluated::<H>(b, v));
    }
    if net_evaluated::<H>(c, a, depth, v) {
        lemma_net_from::<H>(b, c, a, depth, v);
    }
    assert(known_or_net::<H>(c, a, depth, v) ==> known_or_net::<H>(b, a, depth, v));
    if broke_evaluated::<H>(c, a, depth, v) {
        let x = choose|x: RaceBound| #[trigger]
            race::broke_told::<H>(c.prover.cache, c.g@, x) && match x {
                RaceBound::Lower(_) => v == eval::BROKE_SCORE,
                RaceBound::Upper(_) => v == -eval::BROKE_SCORE,
                _ => known_or_net::<H>(c, a, depth, v),
            };
        assert(race::broke_told::<H>(b.prover.cache, b.g@, x));
        assert(broke_evaluated::<H>(b, a, depth, v));
    }
}

/// The network's evaluation by position, switches and what is known.
proof fn lemma_net_from<H: SearchHost>(
    b: TitaniumSearch,
    c: TitaniumSearch,
    a: TitaniumSearch,
    depth: int,
    v: int,
)
    requires
        net_evaluated::<H>(c, a, depth, v),
        b.g@ == c.g@,
        b.g.turn == c.g.turn,
        b.g.topo() == c.g.topo(),
        b.cfg == c.cfg,
        b.hist == c.hist,
        b.memo == c.memo,
        b.evals == c.evals,
        b.prover.race_proof == c.prover.race_proof,
    ensures
        net_evaluated::<H>(b, a, depth, v),
{
    let p = c.g@;
    let raw = num::clamped(a.evals.known(p)->0 as int, -INF as int, INF as int);
    let bias = c.hist.bias(c.g.turn as int, history::corr_bucket(c.g));
    if c.evals.known(p) is None {
        let (h, jumps) = choose|h: H, jumps: Option<(u8, u8)>| #[trigger]
            net_answer(h, p, jumps) == a.evals.known(p)->0 && jumps_told::<H>(c, jumps);
        assert(net_answer(h, p, jumps) == a.evals.known(p)->0 && jumps_told::<H>(b, jumps));
        assert(net_told::<H>(b, a.evals.known(p)->0 as int));
    }
    assert(certificate_may_open(b, depth, raw) == certificate_may_open(c, depth, raw));
    if eval_certified::<H>(c, a, raw, bias, v) {
        let o = choose|o: eval::CertOutcome| #[trigger]
            eval::cert_follows::<H>(c.memo, a.memo, p, p.turn, 1200, 0, o) && v
                == eval::settled_eval(raw, o.is_proven(), bias);
        assert(eval::cert_follows::<H>(b.memo, a.memo, p, p.turn, 1200, 0, o));
        assert(eval_certified::<H>(b, a, raw, bias, v));
    }
}

/// Beyond the reach of races and proofs, an evaluation is the network's.
proof fn lemma_quiet_evaluation<H: SearchHost>(
    b: TitaniumSearch,
    c: TitaniumSearch,
    a: TitaniumSearch,
    depth: int,
    v: int,
)
    requires
        evaluated::<H>(c, a, depth, v),
        is_beyond_proof(b),
        b.g@ == c.g@,
        b.g.turn == c.g.turn,
        b.g.topo() == c.g.topo(),
        b.cfg == c.cfg,
        b.hist == c.hist,
        b.memo == c.memo,
        b.evals == c.evals,
        b.prover.race_proof == c.prover.race_proof,
    ensures
        net_evaluated::<H>(b, a, depth, v),
{
    reveal(evaluated);
    lemma_net_from::<H>(b, c, a, depth, v);
}

impl TitaniumSearch {
    /// Everything but the distances is in order.
    pub open spec fn tables_ok(&self) -> bool {
        &&& self.table.wf()
        &&& self.hist.wf()
        &&& self.prover.wf()
        &&& self.memo.wf()
        &&& self.evals.wf()
        &&& self.path@.len() == MAX_PLY
        &&& self.windows@.len() == MAX_PLY
        &&& self.eval_stack@.len() == MAX_PLY
        &&& forall|i: int|
            0 <= i < MAX_PLY ==> (#[trigger] self.eval_stack@[i] matches Some(v) ==> score_ok(
                v as int,
            ))
        &&& score_ok(self.root_score as int)
        &&& self.root_pawn_score matches Some(v) ==> score_ok(v as int)
        &&& forall|i: int|
            0 <= i < self.root_moves@.len() ==> score_ok(
                (#[trigger] self.root_moves@[i]).1 as int,
            )
        &&& 0 <= self.cfg.q_max <= 1000
        &&& -1_000_000 <= self.cfg.ace_rfp_max_depth <= 1_000_000
    }

    /// The position can be searched from `ply` on.
    pub open spec fn game_ok(&self, ply: int) -> bool {
        &&& self.g.wf()
        &&& eval::hands_ok(self.g@)
        &&& self.g@.hist.len() + (MAX_PLY - ply) + 4 <= game::MAX_HISTORY
    }

    /// The distances in use belong to the line, and to slots up to `ply`.
    pub open spec fn dist_ok(&self, ply: int) -> bool {
        &&& self.dist.wf()
        &&& self.dist.synced(self.g@)
        &&& self.dist.cached_stamp >= 0 ==> self.dist.dist0_idx <= ply && self.dist.dist1_idx <= ply
    }

    pub open spec fn ready(&self, ply: int) -> bool {
        self.tables_ok() && self.game_ok(ply) && self.dist_ok(ply)
    }

    /// What a search below `ply` leaves alone: the position, the switches, and everything
    /// that belongs to earlier plies.
    pub open spec fn keeps(&self, before: &TitaniumSearch, ply: int) -> bool {
        &&& self.g@ == before.g@
        &&& self.keeps_plies(before, ply)
    }

    /// The same without the position.
    pub open spec fn keeps_plies(&self, before: &TitaniumSearch, ply: int) -> bool {
        &&& self.cfg == before.cfg
        &&& self.use_shared == before.use_shared
        &&& self.table.tt_gen == before.table.tt_gen
        &&& self.lazy.moves == before.lazy.moves
        &&& self.lazy.allowed == before.lazy.allowed
        &&& self.lazy.visit_map == before.lazy.visit_map
        &&& self.rp_demotions == before.rp_demotions
        &&& self.rp_root_solves == before.rp_root_solves
        &&& self.book_order == before.book_order
        &&& self.book_attention == before.book_attention
        &&& self.prover.same_config(&before.prover)
        &&& self.hist.sf_history == before.hist.sf_history
        &&& self.dist.route_active == before.dist.route_active
        &&& forall|i: int| 0 <= i < ply ==> #[trigger] self.dist.f0@[i] == before.dist.f0@[i]
        &&& forall|i: int| 0 <= i < ply ==> #[trigger] self.dist.f1@[i] == before.dist.f1@[i]
        &&& forall|i: int| 0 <= i < ply ==> #[trigger] self.path@[i] == before.path@[i]
        &&& forall|i: int| 0 <= i < ply ==> #[trigger] self.windows@[i] == before.windows@[i]
        &&& forall|i: int|
            0 <= i < ply ==> #[trigger] self.eval_stack@[i] == before.eval_stack@[i]
        &&& ply > 0 ==> {
            &&& self.root_best == before.root_best
            &&& self.root_score == before.root_score
            &&& self.root_pawn_best == before.root_pawn_best
            &&& self.root_pawn_score == before.root_pawn_score
            &&& self.root_moves == before.root_moves
        }
        &&& self.root_defense_diag == before.root_defense_diag
    }

    /// Counts the node and looks at the clock now and then.
    fn check_time<H: SearchHost>(&mut self, host: &mut H) -> (r: Result<(), TimeUp>)
        ensures
            *final(self) == (TitaniumSearch { nodes: final(self).nodes, ..*old(self) }),
            final(self).nodes == one_more(old(self).nodes),
            r is Err ==> clock_looked(old(self).nodes, final(self).nodes),
            time_checked::<H>(final(self).nodes, r is Err),
    {
        self.nodes = race_cache::bump(self.nodes);
        if self.nodes % 64 == 0 {
            let ghost h = *host;
            let up: bool = host.time_is_up();
            assert(h.may_be_up(up));
            if up {
                host.progress(&self.g, self.nodes, self.root_best, self.root_score, true);
                return Err(TimeUp);
            }
            host.progress(&self.g, self.nodes, self.root_best, self.root_score, false);
        }
        Ok(())
    }

    /// Enters a node: what is known of it before anything is searched.
    pub fn enter_node<H: SearchHost>(&mut self, ply: usize, host: &mut H) -> (r: Result<
        Option<i32>,
        TimeUp,
    >)
        requires
            old(self).ready(ply as int),
            ply < MAX_PLY,
        ensures
            final(self).ready(ply as int),
            final(self).keeps(old(self), ply as int),
            *final(self) == (TitaniumSearch {
                nodes: final(self).nodes,
                windows: final(self).windows,
                path: final(self).path,
                ..*old(self)
            }),
            final(self).windows@.len() == MAX_PLY,
            final(self).nodes == one_more(old(self).nodes),
            // Only the clock ends the search, and it is looked at on every 64th node alone.
            r is Err ==> clock_looked(old(self).nodes, final(self).nodes),
            time_checked::<H>(final(self).nodes, r is Err),
            match r {
                Ok(Some(v)) => entry_score(old(self).g@, old(self).path@, ply as int) == Some(
                    v as int,
                ),
                Ok(None) => entry_score(old(self).g@, old(self).path@, ply as int) is None
                    && final(self).path@[ply as int] == key_of(old(self).g@),
                Err(_) => true,
            },
            r is Ok ==> entry_window(
                old(self).g@,
                old(self).path@,
                ply as int,
                final(self).windows@[ply as int],
            ),
    {
        match self.check_time(host) {
            Err(e) => {
                return Err(e);
            },
            Ok(_) => {},
        }
        self.windows.set(ply, RepWindow { min_ply: MAX_PLY as i32, anc_lo: 0, anc_hi: 0 });
        let prev: usize = 1 - self.g.turn;
        if board::is_goal_cell(prev, self.g.pawn[prev]) {
            return Ok(Some(-(MATE - ply as i32)));
        }
        if ply >= MAX_PLY - 1 {
            self.windows.set(ply, RepWindow { min_ply: -1, anc_lo: 0, anc_hi: 0 });
            return Ok(Some(0));
        }
        let key = (self.g.hash_lo, self.g.hash_hi);
        let ghost path0 = self.path@;
        self.path.set(ply, key);
        if ply > 0 {
            let mut i: usize = ply;
            while i > 0
                invariant
                    i <= ply,
                    ply < MAX_PLY,
                    self.path@.len() == MAX_PLY,
                    path0 == old(self).path@,
                    forall|k: int| i <= k < ply ==> #[trigger] path0[k] != key,
                    forall|k: int| 0 <= k < ply ==> self.path@[k] == #[trigger] path0[k],
                    self.path@[ply as int] == key,
                    key == key_of(old(self).g@),
                    !mover_is_home(old(self).g@),
                    ply < MAX_PLY - 1,
                    ply > 0,
                    self.ready(ply as int),
                    self.keeps(old(self), ply as int),
                    *self == (TitaniumSearch {
                        nodes: self.nodes,
                        windows: self.windows,
                        path: self.path,
                        ..*old(self)
                    }),
                    self.windows@[ply as int].min_ply == MAX_PLY,
                    self.nodes == one_more(old(self).nodes),
                    time_checked::<H>(self.nodes, false),
                decreases i,
            {
                i -= 1;
                let at = self.path[i];
                if at.0 == key.0 && at.1 == key.1 {
                    assert(path0[i as int] == key);
                    self.windows.set(
                        ply,
                        RepWindow { min_ply: i as i32, anc_lo: key.0, anc_hi: key.1 },
                    );
                    return Ok(Some(0));
                }
            }
            if self.g.repeats_game_history() {
                return Ok(Some(0));
            }
        }
        Ok(None)
    }

    /// Brings the distances up to the position. `ply` is the node's own slot.
    pub fn refresh_dist(&mut self, ply: usize)
        requires
            old(self).ready(ply as int),
            ply < MAX_PLY,
        ensures
            final(self).ready(ply as int),
            final(self).keeps(old(self), ply as int),
            final(self).dist.fresh(final(self).g@),
            final(self).dist.fields_are(final(self).g.topo()),
            *final(self) == (TitaniumSearch { dist: final(self).dist, ..*old(self) }),
    {
        self.dist.refresh_dist_inner(&self.g, ply);
        proof {
            let p = self.g@;
            assert(dist_cache::on_line(p.w, p.stamp, p.hist, p.w, p.stamp));
        }
    }

    /// Refresh at a node; notes whether the parent has already done it.
    fn maybe_refresh_dist_at_ab(&mut self, ply: usize)
        requires
            old(self).ready(ply as int),
            ply < MAX_PLY,
        ensures
            final(self).ready(ply as int),
            final(self).keeps(old(self), ply as int),
            final(self).dist.fresh(final(self).g@),
            final(self).dist.fields_are(final(self).g.topo()),
            final(self).ab_after_cat_child == (old(self).pending_cat_child_ply == Some(ply)),
            *final(self) == (TitaniumSearch {
                dist: final(self).dist,
                ab_after_cat_child: final(self).ab_after_cat_child,
                pending_cat_child_ply: final(self).pending_cat_child_ply,
                ..*old(self)
            }),
    {
        self.ab_after_cat_child = match self.pending_cat_child_ply {
            Some(p) => p == ply,
            None => false,
        };
        if self.ab_after_cat_child {
            self.pending_cat_child_ply = None;
        }
        self.refresh_dist(ply);
    }

    /// The distance field of a player.
    fn field(&self, side: usize) -> (f: &[u8; 81])
        requires
            self.dist.wf(),
            self.dist.fields_are(self.g.topo()),
            side < 2,
        ensures
            board::dist_field(self.g.topo(), side as int, f@),
            f@ == if side == 0 {
                self.dist.f0@[self.dist.dist0_idx as int].dist@
            } else {
                self.dist.f1@[self.dist.dist1_idx as int].dist@
            },
    {
        if side == 0 {
            &self.dist.f0[self.dist.dist0_idx].dist
        } else {
            &self.dist.f1[self.dist.dist1_idx].dist
        }
    }

    /// Goal distance of a player's pawn.
    pub(crate) fn pawn_distance(&self, side: usize) -> (d: i32)
        requires
            self.g.wf(),
            self.dist.wf(),
            self.dist.fields_are(self.g.topo()),
            side < 2,
        ensures
            0 <= d <= 255,
            board::dist_value(
                self.g.topo(),
                side as int,
                game::pawn_of(self.g@, side as int),
                d as int,
            ),
            d == board::goal_distance(
                self.g.topo(),
                side as int,
                game::pawn_of(self.g@, side as int),
            ),
    {
        let f = self.field(side);
        proof {
            board::lemma_field_is_goal_distance(
                self.g.topo(),
                side as int,
                f@,
                self.g.pawn@[side as int] as int,
            );
        }
        f[self.g.pawn[side]] as i32
    }

    /// A corridor certificate is asked for: proofs and the switch are on, and walls are left.
    pub open spec fn asks_for_corridor(&self) -> bool {
        self.prover.race_proof && self.g@.wl0 + self.g@.wl1 != 0 && self.cfg.wall_ignore_cert
            == Some(true)
    }

    /// Corridor certificate as a bound. Walls must be left, and the switch on.
    pub fn wall_ignore_race_bound<H: SearchHost>(&mut self, host: &mut H) -> (bound: RaceBound)
        requires
            old(self).prover.wf(),
            eval::hands_ok(old(self).g@),
        ensures
            final(self).prover.wf(),
            final(self).prover.same_config(&old(self).prover),
            *final(self) == (TitaniumSearch { prover: final(self).prover, ..*old(self) }),
            !old(self).asks_for_corridor() ==> bound == RaceBound::Unknown && *final(self) == *old(self),
            old(self).asks_for_corridor() ==> final(self).prover == (RaceProver {
                stats: corridor_asked(old(self).prover.stats, bound),
                ..old(self).prover
            }),
            corridor_bound(bound),
            old(self).asks_for_corridor() ==> corridor_told::<H>(old(self).g@, bound),
    {
        if !self.prover.race_proof || self.g.wl[0] + self.g.wl[1] == 0 {
            return RaceBound::Unknown;
        }
        let on: bool = match self.cfg.wall_ignore_cert {
            Some(v) => v,
            None => false,
        };
        if !on {
            return RaceBound::Unknown;
        }
        self.prover.stats.wall_ignore_calls = race_cache::bump(self.prover.stats.wall_ignore_calls);
        let ghost h = *host;
        let answer = host.wall_ignore_winner(&self.g);
        assert(corridor_says(h.corridor_of(old(self).g@), old(self).g@.turn) == corridor_says(
            answer,
            old(self).g@.turn,
        ));
        match answer {
            Some(winner) => {
                self.prover.stats.wall_ignore_decisive = race_cache::bump(
                    self.prover.stats.wall_ignore_decisive,
                );
                if winner == self.g.turn {
                    RaceBound::Lower(score::RACE_WIN_FLOOR)
                } else {
                    RaceBound::Upper(-score::RACE_WIN_FLOOR)
                }
            },
            None => {
                self.prover.stats.wall_ignore_unknown = race_cache::bump(
                    self.prover.stats.wall_ignore_unknown,
                );
                RaceBound::Unknown
            },
        }
    }

    /// Corridor certificate against the window.
    fn wall_ignore_cut<H: SearchHost>(&mut self, alpha: i32, beta: i32, host: &mut H) -> (cut:
        Option<i32>)
        requires
            old(self).prover.wf(),
            eval::hands_ok(old(self).g@),
        ensures
            final(self).prover.wf(),
            final(self).prover.same_config(&old(self).prover),
            *final(self) == (TitaniumSearch { prover: final(self).prover, ..*old(self) }),
            // Where a corridor is asked for, the counters tell the answer, and the cut is
            // what the answer does to the window.
            corridor_follows::<H>(*old(self), *final(self), alpha, beta, cut),
    {
        let bound = self.wall_ignore_race_bound(host);
        assert(corridor_bound(bound));
        let cut = race::bound_cut(bound, alpha, beta);
        if cut.is_some() {
            match bound {
                RaceBound::Lower(_) => {
                    self.prover.stats.wall_ignore_cut_fail_high = race_cache::bump(
                        self.prover.stats.wall_ignore_cut_fail_high,
                    );
                },
                _ => {
                    self.prover.stats.wall_ignore_cut_fail_low = race_cache::bump(
                        self.prover.stats.wall_ignore_cut_fail_low,
                    );
                },
            }
        }
        cut
    }

    /// What the race layers say against the window: few or no walls left.
    pub fn race_cuts<H: SearchHost>(&mut self, alpha: i32, beta: i32, host: &mut H) -> (cut: Option<
        i32,
    >)
        requires
            old(self).prover.wf(),
            old(self).g.wf(),
            eval::hands_ok(old(self).g@),
            old(self).g@.hist.len() + 2 < game::MAX_HISTORY,
            score_ok(alpha as int),
            score_ok(beta as int),
        ensures
            final(self).prover.wf(),
            final(self).prover.same_config(&old(self).prover),
            final(self).g@ == old(self).g@,
            final(self).g.wf(),
            *final(self) == (TitaniumSearch {
                prover: final(self).prover,
                g: final(self).g,
                ..*old(self)
            }),
            race_cut_follows::<H>(*old(self), final(self).prover, alpha, beta, cut),
    {
        let pv_node: bool = beta as i64 > alpha as i64 + 1;
        let w0: i32 = self.g.wl[0];
        let w1: i32 = self.g.wl[1];
        if (w0 == 0) != (w1 == 0) {
            let bound = self.prover.one_side_broke_race_bound(&self.g, host);
            assert(old(self).prover.race_proof ==> race::broke_told::<H>(
                old(self).prover.cache,
                old(self).g@,
                bound,
            ));
            let cut = race::bound_cut(bound, alpha, beta);
            proof {
                lemma_one_race_score(self.g@);
            }
            if cut.is_some() {
                match bound {
                    RaceBound::Lower(_) => {
                        self.prover.stats.broke_cut_fail_high = race_cache::bump(
                            self.prover.stats.broke_cut_fail_high,
                        );
                    },
                    _ => {
                        self.prover.stats.broke_cut_fail_low = race_cache::bump(
                            self.prover.stats.broke_cut_fail_low,
                        );
                    },
                }
                assert(race_bound_cuts::<H>(*old(self), bound, alpha, beta, cut->0));
                return cut;
            }
        }
        if w0 + w1 == 1 && (!self.cfg.one_wall_race_pv_only || pv_node) {
            proof {
                if old(self).prover.race_proof && old(self).prover.cache.cached(old(self).g@.w) {
                    race::lemma_at_hand_by_tables(old(self).prover, self.prover, old(self).g@);
                    race::lemma_replies_by_tables(old(self).prover, self.prover, old(self).g@);
                }
            }
            let bound = self.prover.one_wall_race_bound(&mut self.g, host);
            let cut = race::bound_cut(bound, alpha, beta);
            if cut.is_some() {
                assert(race_bound_cuts::<H>(*old(self), bound, alpha, beta, cut->0));
                return cut;
            }
        }
        if w0 + w1 == 2 && (!self.cfg.two_wall_race_pv_only || pv_node) {
            proof {
                if old(self).prover.race_proof && old(self).prover.cache.cached(old(self).g@.w) {
                    race::lemma_monopoly_by_tables(old(self).prover, self.prover, old(self).g@);
                }
            }
            let bound = self.prover.two_wall_monopoly_race_bound(&mut self.g, host);
            let cut = race::bound_cut(bound, alpha, beta);
            if cut.is_some() {
                assert(race_bound_cuts::<H>(*old(self), bound, alpha, beta, cut->0));
                return cut;
            }
        }
        if w0 == 0 && w1 == 0 {
            let ghost mut judge = *host;
            if self.cfg.cheap_cert {
                let ghost h = *host;
                let (bound, _estimate) = host.deduce(&self.g);
                assert(h.deduced(old(self).g@).0 == bound);
                let cut = race::bound_cut(bound, alpha, beta);
                if cut.is_some() {
                    match bound {
                        RaceBound::Lower(_) => {
                            self.prover.stats.resolved_gate1 = race_cache::bump(
                                self.prover.stats.resolved_gate1,
                            );
                        },
                        _ => {
                            self.prover.stats.resolved_gate1_loss = race_cache::bump(
                                self.prover.stats.resolved_gate1_loss,
                            );
                        },
                    }
                    assert(race_bound_cuts::<H>(*old(self), bound, alpha, beta, cut->0));
                    assert(deduction_follows(*old(self), h, alpha, beta, cut));
                    return cut;
                }
                proof {
                    judge = h;
                }
            }
            let race_proof: bool = self.prover.race_proof;
            let cut = self.prover.cache.exact_hands_empty_score(race_proof, &self.g, false, host);
            assert(self.cfg.cheap_cert ==> deduction_follows(*old(self), judge, alpha, beta, cut));
            return cut;
        }
        None
    }

    /// The table's entry for the position, if it is one the search can use. With a shared
    /// table a miss there is a miss.
    pub fn probe_table<H: SearchHost>(&self, host: &mut H) -> (e: Option<SharedTtEntry>)
        requires
            self.table.wf(),
        ensures
            e matches Some(x) ==> entry_usable(x),
            trace::entry_found::<H>(*self, e),
    {
        let found = if self.use_shared {
            let ghost h = *host;
            let e = host.shared_probe(self.g.hash_lo, self.g.hash_hi);
            assert(h.may_find(self.g@.hash_lo, self.g@.hash_hi, e));
            e
        } else {
            self.table.base.probe(self.g.hash_lo, self.g.hash_hi)
        };
        match found {
            Some(x) => if x.meta > 0 && x.score >= -INF - 64 && x.score <= INF + 64 {
                Some(x)
            } else {
                None
            },
            None => None,
        }
    }

    /// Goal distances of the side to move and of the other. With both hands empty and proofs
    /// on, jump distances stand in their place where the race is close enough to have them.
    fn mover_distances<H: SearchHost>(&mut self, host: &mut H) -> (r: (
        i32,
        i32,
        Ghost<Option<(u8, u8)>>,
    ))
        requires
            old(self).tables_ok(),
            old(self).g.wf(),
            old(self).dist.wf(),
            old(self).dist.fields_are(old(self).g.topo()),
        ensures
            final(self).tables_ok(),
            *final(self) == (TitaniumSearch {
                prover: RaceProver { stats: final(self).prover.stats, ..old(self).prover },
                ..*old(self)
            }),
            0 <= r.0 <= 255,
            0 <= r.1 <= 255,
            (r.0 as int, r.1 as int) == race_distances(old(self).g@, r.2@),
            jumps_told::<H>(*old(self), r.2@),
    {
        let me: usize = self.g.turn;
        let d_me: i32 = self.pawn_distance(me);
        let d_opp: i32 = self.pawn_distance(1 - me);
        if !self.prover.race_proof || self.g.wl[0] != 0 || self.g.wl[1] != 0 {
            return (d_me, d_opp, Ghost(None));
        }
        let jumps = host.jump_distances(&self.g);
        let (j_me, j_opp) = with_jumps(me, d_me, d_opp, jumps);
        let mut stats = self.prover.stats;
        stats.jump_dist_calls = race_cache::bump(stats.jump_dist_calls);
        if jumps.is_some() {
            stats.jump_dist_upgrades = race_cache::bump(stats.jump_dist_upgrades);
            if (d_me <= d_opp) != (j_me <= j_opp) {
                stats.jump_dist_cuts_avoided = race_cache::bump(stats.jump_dist_cuts_avoided);
            }
        }
        self.prover.stats = stats;
        (j_me, j_opp, Ghost(jumps))
    }

    /// Static evaluation of the position for the side to move. `depth <= 0` is a leaf.
    #[verifier::rlimit(40)]
    pub fn evaluate<H: SearchHost>(&mut self, depth: i32, host: &mut H) -> (v: i32)
        requires
            old(self).tables_ok(),
            old(self).g.wf(),
            eval::hands_ok(old(self).g@),
            old(self).dist.wf(),
            old(self).dist.fields_are(old(self).g.topo()),
        ensures
            final(self).tables_ok(),
            final(self).prover.same_config(&old(self).prover),
            *final(self) == (TitaniumSearch {
                prover: final(self).prover,
                memo: final(self).memo,
                evals: final(self).evals,
                ..*old(self)
            }),
            score_ok(v as int),
            evaluated::<H>(*old(self), *final(self), depth as int, v as int),
    {
        proof {
            reveal(evaluated);
        }
        let me: usize = self.g.turn;
        let w_me: i32 = self.g.wl[me];
        let w_opp: i32 = self.g.wl[1 - me];
        let (d_me, d_opp, jumps) = self.mover_distances(host);
        let ghost mut broke: Option<RaceBound> = None;
        if w_me == 0 && w_opp == 0 && (!self.cfg.cert_eval_leaves_only || depth <= 0) {
            assert(race_guess(self.g@, jumps@) == race_root::distance_heuristic(
                d_me as int,
                d_opp as int,
            ));
            return self.prover.try_hands_empty_endgame(&self.g, d_me, d_opp, host);
        }
        if self.prover.race_proof && (w_me == 0) != (w_opp == 0) {
            let bound = self.prover.one_side_broke_race_bound(&self.g, host);
            assert(race::broke_told::<H>(old(self).prover.cache, old(self).g@, bound));
            proof {
                broke = Some(bound);
            }
            match bound {
                RaceBound::Lower(_) => {
                    return eval::BROKE_SCORE;
                },
                RaceBound::Upper(_) => {
                    return -eval::BROKE_SCORE;
                },
                _ => {},
            }
        }
        if self.prover.race_proof && w_me + w_opp <= 2 && w_me + w_opp > 0
            && self.memo.cert_win_cache_hit(&self.g, me) {
            self.prover.stats.resolved_cert_memo = race_cache::bump(
                self.prover.stats.resolved_cert_memo,
            );
            return eval::CERT_SCORE;
        }
        let raw: i32 = match self.evals.get(&self.g) {
            Some(v) => num::clamp_i32(v, -INF, INF),
            None => {
                let ghost h = *host;
                let v: i32 = num::clamp_i32(host.net_eval(&self.g, d_me, d_opp), -INF, INF);
                assert(net_answer(h, old(self).g@, jumps@) == v);
                self.evals.put(&self.g, v);
                v
            },
        };
        assert(w_me != 0 || w_opp != 0 ==> jumps@ is None);
        let v: i32 = self.evaluate_tail(raw, depth, d_me, d_opp, host);
        proof {
            assert(net_evaluated::<H>(*old(self), *self, depth as int, v as int));
            if broke is Some {
                assert(race::broke_told::<H>(old(self).prover.cache, old(self).g@, broke->0));
            }
        }
        v
    }

    /// Certificates and the learned bias on top of the network output.
    fn evaluate_tail<H: SearchHost>(
        &mut self,
        raw: i32,
        depth: i32,
        d_me: i32,
        d_opp: i32,
        host: &mut H,
    ) -> (v: i32)
        requires
            old(self).tables_ok(),
            old(self).g.wf(),
            eval::hands_ok(old(self).g@),
            score_ok(raw as int),
            0 <= d_me <= 255,
            0 <= d_opp <= 255,
        ensures
            final(self).tables_ok(),
            final(self).prover.same_config(&old(self).prover),
            *final(self) == (TitaniumSearch {
                prover: final(self).prover,
                memo: final(self).memo,
                ..*old(self)
            }),
            score_ok(v as int),
            ({
                let bias = old(self).hist.bias(
                    old(self).g.turn as int,
                    history::corr_bucket(old(self).g),
                );
                let p = old(self).g@;
                if eval::cert_gate(
                    old(self).prover.race_proof,
                    old(self).cfg.cert_eval_leaves_only,
                    depth as int,
                    raw as int,
                    d_me as int,
                    d_opp as int,
                    game::hand_of(p, p.turn),
                    game::hand_of(p, 1 - p.turn),
                ) && (old(self).memo.cw_think_calls < old(self).memo.cw_cap || old(self).memo.known(
                    p,
                    p.turn,
                ) is Some) {
                    eval_certified::<H>(*old(self), *final(self), raw as int, bias, v as int)
                } else {
                    final(self).memo == old(self).memo && v == eval::settled_eval(
                        raw as int,
                        false,
                        bias,
                    )
                }
            }),
    {
        let me: usize = self.g.turn;
        let w_me: i32 = self.g.wl[me];
        let w_opp: i32 = self.g.wl[1 - me];
        let mut certified: bool = false;
        if eval::cert_gate_open(
            self.prover.race_proof,
            self.cfg.cert_eval_leaves_only,
            depth,
            raw,
            d_me,
            d_opp,
            w_me,
            w_opp,
        ) {
            if self.memo.cw_think_calls < self.memo.cw_cap || self.memo.lookup(
                &self.g,
                me,
            ).is_some() {
                let outcome = self.memo.cert_win(&self.g, me, 1200, 0, host);
                certified = outcome.proven();
                if certified {
                    match outcome {
                        eval::CertOutcome::Memo(_) => {
                            self.prover.stats.resolved_cert_memo = race_cache::bump(
                                self.prover.stats.resolved_cert_memo,
                            );
                        },
                        eval::CertOutcome::Searched(_, _) => {
                            self.prover.stats.resolved_cert_win = race_cache::bump(
                                self.prover.stats.resolved_cert_win,
                            );
                        },
                        _ => {},
                    }
                }
            }
        }
        let bias: i32 = self.hist.correction(&self.g, me);
        eval::settle_eval(raw, certified, bias)
    }

    /// Could a jump bring the mover two steps nearer at once?
    fn q_search_jump_race_trigger(&self) -> (yes: bool)
        requires
            self.g.wf(),
            self.dist.wf(),
            self.dist.fields_are(self.g.topo()),
        ensures
            yes == jump_gains(self.g@, self.mover_field()),
    {
        let me: usize = self.g.turn;
        let f = self.field(me);
        let cur: u8 = f[self.g.pawn[me]];
        let limit: u8 = if cur < 2 {
            0
        } else {
            cur - 2
        };
        let ms: Vec<i16> = self.g.gen_pawn_moves();
        let n: usize = ms.len();
        let mut i: usize = 0;
        while i < n
            invariant
                i <= n,
                n == ms@.len(),
                ms@ == game::pawn_moves(self.g@),
                f@ == self.mover_field(),
                limit == num::larger(
                    self.mover_field()[game::pawn_of(self.g@, self.g@.turn)] - 2,
                    0,
                ),
                forall|k: int| 0 <= k < n ==> moves::pawn_id(#[trigger] ms@[k] as int),
                forall|k: int| 0 <= k < i ==> f@[(#[trigger] ms@[k]) as int] > limit,
            decreases n - i,
        {
            if f[ms[i] as usize] <= limit {
                assert(f@[game::pawn_moves(self.g@)[i as int] as int] <= limit);
                return true;
            }
            i += 1;
        }
        false
    }

    /// Distances of the side to move.
    pub open spec fn mover_field(&self) -> Seq<u8> {
        if self.g.turn == 0 {
            self.dist.f0@[self.dist.dist0_idx as int].dist@
        } else {
            self.dist.f1@[self.dist.dist1_idx as int].dist@
        }
    }

    /// Did the wall `m`, which stands on the board, change either pawn's goal distance?
    fn q_search_wall_dist_changed(&self, m: i16) -> (changed: bool)
        requires
            self.g.wf(),
            self.dist.wf(),
            self.dist.fields_are(self.g.topo()),
            moves::wall_id(m as int),
        ensures
            changed == wall_matters(self.g@, m as int),
    {
        let mut hw: [u8; 64] = self.g.hw;
        let mut vw: [u8; 64] = self.g.vw;
        let slot: usize = moves::wall_slot(m);
        if moves::is_hwall_move(m) {
            hw[slot] = 0;
        } else {
            vw[slot] = 0;
        }
        let ghost before = game::without_wall(self.g.topo(), m as int);
        assert(before == (board::Topo { hw: hw@, vw: vw@ }));
        let f0: [u8; 81] = board::compute_dist(&hw, &vw, 0);
        let f1: [u8; 81] = board::compute_dist(&hw, &vw, 1);
        let p0: usize = self.g.pawn[0];
        let p1: usize = self.g.pawn[1];
        let now0: u8 = self.field(0)[p0];
        let now1: u8 = self.field(1)[p1];
        proof {
            let w = self.g.topo();
            assert(board::dist_value(w, 0, p0 as int, now0 as int));
            assert(board::dist_value(w, 1, p1 as int, now1 as int));
            assert(board::dist_value(before, 0, p0 as int, f0@[p0 as int] as int));
            assert(board::dist_value(before, 1, p1 as int, f1@[p1 as int] as int));
            lemma_values_tell_distances(w, before, 0, p0 as int, now0 as int, f0@[p0 as int] as int);
            lemma_values_tell_distances(w, before, 1, p1 as int, now1 as int, f1@[p1 as int] as int);
        }
        now0 != f0[p0] || now1 != f1[p1]
    }

    /// Did the last move stir the race enough to look one ply deeper at a leaf?
    pub fn q_search_should_extend(&self, ply: usize, prev_move: i16, static_ev: i32) -> (yes: bool)
        requires
            self.g.wf(),
            self.dist.wf(),
            self.dist.fields_are(self.g.topo()),
            self.eval_stack@.len() == MAX_PLY,
            ply < MAX_PLY,
        ensures
            yes == (ply > 0 && (self.eval_stack@[ply - 1] matches Some(parent) && if moves::wall_id(
                prev_move as int,
            ) {
                wall_matters(self.g@, prev_move as int) && pruning::swing_enough(
                    static_ev as int,
                    parent as int,
                    self.cfg.q_swing_cp as int,
                )
            } else {
                jump_gains(self.g@, self.mover_field())
            })),
    {
        if ply == 0 {
            return false;
        }
        match self.eval_stack[ply - 1] {
            None => false,
            Some(parent) => if moves::is_wall_move(prev_move) {
                self.q_search_wall_dist_changed(prev_move) && pruning::swing_is_enough(
                    static_ev,
                    parent,
                    self.cfg.q_swing_cp,
                )
            } else {
                self.q_search_jump_race_trigger()
            },
        }
    }

    /// Walls the relevance filter lets through, where it is on.
    fn relevant_walls<H: SearchHost>(&self, ply: usize, depth: i32, host: &mut H) -> (relevant: Vec<
        bool,
    >)
        ensures
            forall|c: Asked|
                c.ply == ply && c.depth == depth ==> #[trigger] trace::relevance_told::<H>(
                    *self,
                    c,
                    relevant@,
                ),
    {
        if self.cfg.cat_walls && ply > 0 {
            let ghost h = *host;
            let relevant = host.relevant_walls(&self.g, depth);
            assert(h.relevant_of(self.g@, depth as int) == relevant@);
            relevant
        } else {
            Vec::new()
        }
    }

    pub(crate) fn order_node(
        &self,
        ply: usize,
        ms: &Vec<i16>,
        tt_move: i16,
        cm_move: i16,
        prev_move: i16,
        active: bool,
        heat: &ordering::Heat,
        book: &BookHints,
    ) -> (out: Vec<i16>)
        requires
            self.g.wf(),
            self.hist.wf(),
            self.dist.wf(),
            self.dist.fields_are(self.g.topo()),
            ply < MAX_PLY,
            prev_move < 256,
            heat.by_id@.len() == 256,
            forall|i: int| 0 <= i < ms@.len() ==> moves::move_id(#[trigger] ms@[i] as int),
        ensures
            ordering::same_moves(ms@, out@),
            ordering::ordered_by(
                ms@,
                ordering::final_scores(
                    ordering::plain_scores(
                        self.hist,
                        self.mover_field(),
                        self.g.turn as int,
                        ply as int,
                        ms@,
                        tt_move as int,
                        cm_move as int,
                        prev_move as int,
                        if active && heat.max_move > 0 {
                            Some((heat.by_id@, heat.max_move))
                        } else {
                            None
                        },
                    ),
                    ms@,
                    ply as int,
                    *book,
                ),
                out@,
            ),
    {
        let stm: usize = self.g.turn;
        let prior = if active && heat.max_move > 0 {
            Some((&heat.by_id, heat.max_move))
        } else {
            None
        };
        ordering::order_moves_prior(
            &self.hist,
            self.field(stm),
            stm,
            ply,
            ms,
            tt_move,
            cm_move,
            prev_move,
            prior,
            book,
        )
    }

    /// The moves of a node, best first, and their heat. Heat counts only with
    /// heat-shaped reductions on, and not at the frontier.
    fn ordered_moves<H: SearchHost>(
        &self,
        ply: usize,
        depth: i32,
        tt_move: i16,
        prev_move: i16,
        relevant: &Vec<bool>,
        host: &mut H,
    ) -> (r: (Vec<i16>, ordering::Heat))
        requires
            self.ready(ply as int),
            ply < MAX_PLY,
            self.dist.fields_are(self.g.topo()),
            prev_move < 256,
            forall|c: Asked|
                c.ply == ply && c.depth == depth ==> #[trigger] trace::relevance_told::<H>(
                    *self,
                    c,
                    relevant@,
                ),
        ensures
            forall|c: Asked|
                c.ply == ply && c.depth == depth && c.prev_move == prev_move ==> #[trigger]
                trace::is_list::<H>(*self, c, tt_move, r.0@, r.1),
            movegen::all_playable(self.g@, r.0@),
            r.1.by_id@.len() == 256,
            lists_moves(self.g@, self.cfg, ply as int, relevant@, tt_move as int, r.0@),
    {
        let policy = movegen::wall_policy(
            self.cfg.ti_movegen,
            self.cfg.cat_walls,
            self.cfg.dead_zone_prune,
        );
        let ms: Vec<i16> = movegen::gen_moves_inner(&self.g, ply, policy, relevant, tt_move);
        let cm_move: i16 = if prev_move >= 0 {
            self.hist.cm[prev_move as usize]
        } else {
            0
        };
        let active: bool = self.cfg.cat_lmr_v16 && depth >= 2 && ms.len() > 0;
        let ghost h = *host;
        let base: Vec<i32> = if active {
            host.impact_heat(&self.g)
        } else {
            Vec::new()
        };
        let touch: Vec<bool> = if active && self.cfg.route_touch_ordering {
            routes::route_touches(&self.g, self.field(0), self.field(1))
        } else {
            Vec::new()
        };
        let heat = ordering::prepare_heat(&base, &touch, &ms);
        let mut denied: Vec<bool> = Vec::new();
        if ply == 0 {
            let mut i: usize = 0;
            while i < ms.len()
                invariant
                    i <= ms@.len(),
                    denied@.len() == i,
                    forall|k: int|
                        0 <= k < i ==> trace::denial_told::<H>(
                            self.g@,
                            ms@[k],
                            #[trigger] denied@[k],
                        ),
                decreases ms@.len() - i,
            {
                let ghost h = *host;
                let d: bool = host.move_denied(&self.g, ms[i]);
                assert(h.denies(self.g@, ms@[i as int]) == d);
                denied.push(d);
                i += 1;
            }
        }
        let book = BookHints {
            order: copy_moves(&self.book_order),
            attention: copy_i32(&self.book_attention),
            denied,
        };
        let out = self.order_node(ply, &ms, tt_move, cm_move, prev_move, active, &heat, &book);
        proof {
            lemma_same_moves_playable(self.g@, ms@, out@);
            assert(lists_moves(
                self.g@,
                self.cfg,
                ply as int,
                relevant@,
                tt_move as int,
                out@,
            ));
            routes::lemma_field_of(self.g.topo(), self.g.turn as int, self.mover_field());
            let x = trace::Hints { relevant: relevant@, base: base@, touch: touch@, book };
            assert forall|c: Asked|
                c.ply == ply && c.depth == depth && c.prev_move == prev_move implies #[trigger]
            trace::is_list::<H>(*self, c, tt_move, out@, heat) by {
                reveal(trace::is_list);
                assert(trace::relevance_told::<H>(*self, c, relevant@));
                if active {
                    assert(h.heat_of(self.g@) == base@);
                }
                assert(trace::impact_told::<H>(*self, c, ms@, base@));
                assert(trace::lists_in_order::<H>(*self, c, tt_move, out@, heat, x));
            }
        }
        (out, heat)
    }

    /// Plays a move of the node at `ply`.
    pub(crate) fn play(&mut self, m: i16, ply: usize)
        requires
            old(self).ready(ply as int),
            ply + 1 < MAX_PLY,
            movegen::playable(old(self).g@, m as int),
        ensures
            final(self).g@ == game::played(old(self).g@, m as int),
            final(self).ready(ply + 1),
            *final(self) == (TitaniumSearch { g: final(self).g, ..*old(self) }),
            game::can_take_back(final(self).g@),
            game::taken_back(final(self).g@) == old(self).g@,
    {
        proof {
            game::law_taken_back_undoes_played(self.g@, m as int);
            if self.dist.cached_stamp >= 0 {
                dist_cache::lemma_on_line_played(
                    self.g@,
                    m as int,
                    self.dist.live@,
                    self.dist.cached_stamp as int,
                );
            }
        }
        self.g.make_move(m);
    }

    /// Takes the move back and goes back to the node's distances.
    pub(crate) fn unwind_move(&mut self, mark: &dist_cache::DistMark, before: Ghost<TitaniumSearch>, ply: usize)
        requires
            old(self).tables_ok(),
            old(self).dist.wf(),
            old(self).g.wf(),
            ply + 1 < MAX_PLY,
            before@.ready(ply as int),
            before@.dist.fresh(before@.g@),
            before@.dist.fields_are(before@.g.topo()),
            old(self).keeps_plies(&before@, ply + 1),
            mark.dist0_idx == before@.dist.dist0_idx,
            mark.dist1_idx == before@.dist.dist1_idx,
            mark.cached_stamp == before@.dist.cached_stamp,
            mark.live == before@.dist.live,
            game::can_take_back(old(self).g@),
            game::taken_back(old(self).g@) == before@.g@,
        ensures
            final(self).ready(ply as int),
            final(self).keeps(&before@, ply + 1),
            final(self).dist.fresh(before@.g@),
            final(self).dist.fields_are(before@.g@.w),
            final(self).dist.dist0_idx == mark.dist0_idx,
            final(self).dist.dist1_idx == mark.dist1_idx,
            *final(self) == (TitaniumSearch {
                g: final(self).g,
                dist: final(self).dist,
                ..*old(self)
            }),
    {
        assert(self.dist.f0@[mark.dist0_idx as int] == before@.dist.f0@[mark.dist0_idx as int]);
        assert(self.dist.f1@[mark.dist1_idx as int] == before@.dist.f1@[mark.dist1_idx as int]);
        self.g.unmake_move();
        self.dist.restore(mark);
    }

    /// Does playing the move repeat a position of the game?
    fn move_repeats_game_history(&mut self, m: i16) -> (rep: bool)
        requires
            old(self).g.wf(),
            eval::hands_ok(old(self).g@),
            movegen::playable(old(self).g@, m as int),
            old(self).g@.hist.len() < game::MAX_HISTORY,
        ensures
            rep == game::repeats_history(game::played(old(self).g@, m as int)),
            final(self).g@ == old(self).g@,
            final(self).g.wf(),
            *final(self) == (TitaniumSearch { g: final(self).g, ..*old(self) }),
    {
        proof {
            game::law_taken_back_undoes_played(self.g@, m as int);
        }
        self.g.make_move(m);
        let rep: bool = self.g.repeats_game_history();
        self.g.unmake_move();
        rep
    }

    /// Learns from a move that cut.
    pub fn learn_cutoff(
        &mut self,
        ply: usize,
        m: i16,
        prev_move: i16,
        depth: i32,
        walls: &Vec<i16>,
        pawns: &Vec<i16>,
    )
        requires
            old(self).hist.wf(),
            ply < MAX_PLY,
            moves::move_id(m as int),
            prev_move < 256,
            0 <= depth <= 1000,
            forall|i: int| 0 <= i < walls@.len() ==> 0 <= #[trigger] walls@[i] < 256,
            forall|i: int| 0 <= i < pawns@.len() ==> 0 <= #[trigger] pawns@[i] < 256,
        ensures
            final(self).hist.wf(),
            *final(self) == (TitaniumSearch { hist: final(self).hist, ..*old(self) }),
            final(self).hist.sf_history == old(self).hist.sf_history,
            cutoff_learned(
                *old(self),
                *final(self),
                ply as int,
                m,
                prev_move,
                depth as int,
                walls@,
                pawns@,
            ),
    {
        if moves::is_wall_move(m) {
            self.hist.note_killer(ply, m);
            self.hist.count_cutoff(m, depth);
        }
        if self.hist.sf_history {
            let stm: usize = self.g.turn;
            self.hist.credit_cutoff(stm, m, prev_move, depth, walls, pawns);
        }
        if prev_move >= 0 {
            self.hist.note_reply(prev_move, m);
        }
    }

    /// What the node claims in the table.
    pub open spec fn node_entry(
        &self,
        ply: int,
        depth: int,
        state: NodeState,
    ) -> SharedTtEntry {
        let best = state.best->0 as int;
        let w = self.windows@[ply];
        let claim = pruning::fenced(state.flag as int, best, pruning::leans_outside(w, ply));
        SharedTtEntry {
            key_hi: self.g.hash_hi,
            key_lo: self.g.hash_lo,
            meta: tt::packed(state.best_move as int, claim.0, depth) as i32,
            score: tt::table_score(best, ply) as i32,
            rep: if claim.1 {
                1
            } else {
                0
            },
            anc_lo: if claim.1 {
                w.anc_lo
            } else {
                0
            },
            anc_hi: if claim.1 {
                w.anc_hi
            } else {
                0
            },
            entry_gen: self.table.tt_gen,
        }
    }

    /// Ends a searched node: teaches the evaluation bias and stores the claim, in the shared
    /// table where there is one. Returns what was offered; whether the shared table took it is
    /// its own affair.
    pub fn store_node<H: SearchHost>(
        &mut self,
        ply: usize,
        depth: i32,
        state: NodeState,
        static_ev: i32,
        host: &mut H,
    ) -> (entry: SharedTtEntry)
        requires
            old(self).tables_ok(),
            old(self).g.wf(),
            ply < MAX_PLY,
            0 <= depth <= 1000,
            state.best is Some,
            score_ok(state.best->0 as int),
            0 <= state.flag <= 2,
            moves::move_id(state.best_move as int),
        ensures
            final(self).tables_ok(),
            *final(self) == (TitaniumSearch {
                hist: final(self).hist,
                table: final(self).table,
                ..*old(self)
            }),
            entry == old(self).node_entry(ply as int, depth as int, state),
            final(self).hist.sf_history == old(self).hist.sf_history,
            final(self).table.tt_gen == old(self).table.tt_gen,
            node_stored::<H>(
                *old(self),
                *final(self),
                ply as int,
                depth as int,
                state,
                static_ev as int,
            ),
    {
        let best: i32 = match state.best {
            Some(b) => b,
            None => 0,
        };
        if history::correction_applies(best, static_ev, state.flag) {
            let stm: usize = self.g.turn;
            self.hist.learn_correction(&self.g, stm, best, static_ev, depth);
        }
        let w = self.windows[ply];
        let tainted: bool = w.min_ply < ply as i32;
        let (flag, fenced) = pruning::fence_claim(state.flag, best, tainted);
        let entry = SharedTtEntry {
            key_hi: self.g.hash_hi,
            key_lo: self.g.hash_lo,
            meta: tt::tt_pack(state.best_move, flag, depth),
            score: tt::score_to_table(best, ply),
            rep: if fenced {
                1
            } else {
                0
            },
            anc_lo: if fenced {
                w.anc_lo
            } else {
                0
            },
            anc_hi: if fenced {
                w.anc_hi
            } else {
                0
            },
            entry_gen: self.table.tt_gen,
        };
        assert(entry == old(self).node_entry(ply as int, depth as int, state));
        if self.use_shared {
            host.shared_store(entry, self.table.tt_gen, self.cfg.pure_mode);
            let ghost h = *host;
            assert(h.was_offered(entry, old(self).table.tt_gen, old(self).cfg.pure_mode));
        } else {
            let pure_mode: bool = self.cfg.pure_mode;
            self.table.tt_store(pure_mode, entry);
        }
        entry
    }
}


/// What is known of a node without searching its moves.
#[derive(Clone, Copy, Debug, PartialEq, Eq, Structural)]
pub enum NodeVerdict {
    /// The score.
    Done(i32),
    /// A leaf to be looked at one ply deeper.
    Extend,
    /// Nothing yet: table move, static evaluation, and whether it improves on the mover's
    /// last one.
    Search(i16, i32, bool),
}

/// One child of a node, about to be searched.
#[derive(Clone, Copy, Debug, PartialEq, Eq, Structural)]
pub struct ChildCall {
    pub plan: ChildPlan,
    /// Place of the move.
    pub i: usize,
    pub m: i16,
    pub depth: i32,
    pub alpha: i32,
    pub beta: i32,
    pub ply: usize,
    pub q_left: i32,
    /// Heat of the move and of the hottest wall; zero without heat.
    pub heat: i32,
    pub max_heat: u32,
    /// Number of moves at the node.
    pub count: usize,
    /// Player who moved, and both pawns' distances before the move.
    pub mover: usize,
    pub pre0: i32,
    pub pre1: i32,
    pub parent_lo: u32,
    pub parent_hi: u32,
}

/// Depth of the first search of a child, and how it came about.
#[derive(Clone, Copy, Debug, PartialEq, Eq, Structural)]
pub struct FirstDepth {
    /// `None` when the child is not reduced.
    pub depth: Option<i32>,
    /// Ordinal in the study, and whether this is the move to reduce once more.
    pub ordinal: Option<u64>,
    pub extra: bool,
    /// Plies asked for, and plies taken off.
    pub base: i32,
    pub reduction: i32,
}

/// The call searches a child of the node with this request.
pub open spec fn call_of(c: ChildCall, node: Asked) -> bool {
    &&& node.depth == c.depth
    &&& node.beta == c.beta
    &&& node.ply == c.ply
    &&& node.q_left == c.q_left
}

/// The call is one a node can make.
pub open spec fn call_ok(c: ChildCall) -> bool {
    &&& c.ply + 1 < MAX_PLY
    &&& 1 <= c.depth <= 512 + c.ply
    &&& -INF <= c.alpha < c.beta <= INF
    &&& 0 <= c.q_left
    &&& moves::move_id(c.m as int)
    &&& c.mover < 2
    &&& 0 <= c.pre0 <= 255
    &&& 0 <= c.pre1 <= 255
    &&& c.plan matches ChildPlan::Extended(ext) ==> 1 <= ext <= 2
}

/// What is asked about a late wall.
pub open spec fn wall_query(c: ChildCall, race_gain: Option<i32>) -> LmrQuery {
    LmrQuery {
        move_index: c.i,
        depth: c.depth,
        mv: c.m,
        heat: c.heat,
        max_heat: c.max_heat,
        self_gain: 0,
        race_gain,
    }
}

/// What is asked about a late pawn move: the steps it saves go in.
pub open spec fn pawn_query(p: game::Position, c: ChildCall) -> LmrQuery {
    let pre = if c.mover == 0 {
        c.pre0
    } else {
        c.pre1
    };
    LmrQuery {
        move_index: c.i,
        depth: c.depth,
        mv: c.m,
        heat: 0,
        max_heat: 0,
        self_gain: (pre - routes::field_of(p.w, c.mover as int)[c.m as int]) as i32,
        race_gain: None,
    }
}

/// No reduction.
pub open spec fn not_reduced() -> FirstDepth {
    FirstDepth { depth: None, ordinal: None, extra: false, base: 0, reduction: 0 }
}

/// Depth of a pawn move that loses these plies; none is no reduction.
pub open spec fn pawn_reduced(c: ChildCall, plies: Option<i32>) -> FirstDepth {
    match plies {
        Some(red) => FirstDepth {
            depth: Some(pruning::reduced_depth(c.depth - 1, red as int, false) as i32),
            ordinal: None,
            extra: false,
            base: red,
            reduction: red,
        },
        None => not_reduced(),
    }
}

/// Depth of a wall: the plies told, under their cap, are told again with what the wall does
/// to the race where that is on; one move of the study loses one more.
pub open spec fn wall_reduced<H: SearchHost>(
    s: TitaniumSearch,
    c: ChildCall,
    r: FirstDepth,
    h: H,
    again: H,
    gain: int,
) -> bool {
    let nd = c.depth - 1;
    let base = h.wall_reduction_of(wall_query(c, None));
    let capped = pruning::wall_cut(base as int, nd, s.shapes(c));
    let corrected = s.cfg.cat_path_lmr && s.shapes(c) && capped > 0;
    let red = if corrected {
        again.wall_reduction_of(wall_query(c, Some(gain as i32))) as int
    } else {
        capped
    };
    let ordinal = if s.probe.enabled && c.depth >= s.probe.min_depth {
        Some(s.probe.next)
    } else {
        None
    };
    let extra = ordinal is Some && s.probe.target == ordinal;
    &&& corrected ==> -1000 <= gain <= 1000 && (gains_in_race(s.g@, c, gain) || (
    s.cfg.cat_no_edge_skip && gain == 0))
    &&& r == (FirstDepth {
        depth: Some(pruning::reduced_depth(nd, red, extra) as i32),
        ordinal,
        extra,
        base,
        reduction: red as i32,
    })
}

/// The depth of a child's first search follows from its plan and the plies that the
/// surroundings take off.
pub open spec fn first_chosen<H: SearchHost>(s: TitaniumSearch, c: ChildCall, r: FirstDepth) -> bool {
    match c.plan {
        ChildPlan::ReducedPawn => exists|h: H| #[trigger]
            pawn_reduced(c, h.pawn_reduction_of(pawn_query(s.g@, c))) == r,
        ChildPlan::ReducedWall => exists|h: H, again: H, gain: int| #[trigger]
            wall_reduced(s, c, r, h, again, gain),
        _ => r == not_reduced(),
    }
}

/// How much the mover gained in the race: own steps saved plus steps the opponent lost.
pub open spec fn gain_in_race(pre_our: int, pre_opp: int, post_our: int, post_opp: int) -> int {
    (pre_our - post_our) + (post_opp - pre_opp)
}

/// `gain` is the mover's gain from the distances before the move to those of `p`.
pub open spec fn gains_in_race(p: game::Position, c: ChildCall, gain: int) -> bool {
    forall|a: int, b: int|
        #![trigger board::dist_value(p.w, 0, p.p0, a), board::dist_value(p.w, 1, p.p1, b)]
        board::dist_value(p.w, 0, p.p0, a) && board::dist_value(p.w, 1, p.p1, b) ==> gain == if c.mover
            == 0 {
            gain_in_race(c.pre0 as int, c.pre1 as int, a, b)
        } else {
            gain_in_race(c.pre1 as int, c.pre0 as int, b, a)
        }
}

impl TitaniumSearch {
    /// Race gain of the wall just played. A wall on no shortest-path edge gains nothing.
    fn race_gain_of_wall(&mut self, c: &ChildCall) -> (gain: i32)
        requires
            old(self).ready(c.ply + 1),
            call_ok(*c),
            old(self).dist.cached_stamp >= 0,
            moves::wall_id(c.m as int),
        ensures
            final(self).ready(c.ply + 1),
            final(self).keeps(old(self), c.ply + 1),
            *final(self) == (TitaniumSearch {
                dist: final(self).dist,
                pending_cat_child_ply: final(self).pending_cat_child_ply,
                ..*old(self)
            }),
            -1000 <= gain <= 1000,
            gains_in_race(old(self).g@, *c, gain as int) || (old(self).cfg.cat_no_edge_skip && gain
                == 0),
    {
        let (f0, f1) = dist_cache::wall_incr_refresh_flags(
            &self.dist.f0[self.dist.dist0_idx].dist,
            &self.dist.f1[self.dist.dist1_idx].dist,
            c.m,
        );
        if self.cfg.cat_no_edge_skip && !f0 && !f1 {
            return 0;
        }
        self.refresh_dist(c.ply + 1);
        self.pending_cat_child_ply = Some(c.ply + 1);
        let post0: i32 = self.pawn_distance(0);
        let post1: i32 = self.pawn_distance(1);
        proof {
            let p = self.g@;
            assert forall|a: int, b: int|
                #![trigger board::dist_value(p.w, 0, p.p0, a), board::dist_value(p.w, 1, p.p1, b)]
                board::dist_value(p.w, 0, p.p0, a) && board::dist_value(p.w, 1, p.p1, b) implies a
                == post0 && b == post1 by {
                board::lemma_dist_value_unique(p.w, 0, p.p0, a, post0 as int);
                board::lemma_dist_value_unique(p.w, 1, p.p1, b, post1 as int);
            }
        }
        if c.mover == 0 {
            (c.pre0 - post0) + (post1 - c.pre1)
        } else {
            (c.pre1 - post1) + (post0 - c.pre0)
        }
    }

    /// Ordinal of a reduced move in the study, and whether it is the one to reduce once more.
    fn probe_ordinal(&mut self, depth: i32) -> (r: (Option<u64>, bool))
        ensures
            *final(self) == (TitaniumSearch { probe: final(self).probe, ..*old(self) }),
            final(self).probe.events == old(self).probe.events,
            final(self).probe.limit == old(self).probe.limit,
            final(self).probe.target == old(self).probe.target,
            r.0 == if old(self).probe.enabled && depth >= old(self).probe.min_depth {
                Some(old(self).probe.next)
            } else {
                None
            },
            r.1 == (r.0 is Some && old(self).probe.target == r.0),
    {
        if self.probe.enabled && depth >= self.probe.min_depth {
            let ordinal: u64 = self.probe.next;
            self.probe.next = race_cache::bump(ordinal);
            let chosen: bool = match self.probe.target {
                Some(t) => t == ordinal,
                None => false,
            };
            (Some(ordinal), chosen)
        } else {
            (None, false)
        }
    }

    /// Records a reduced move, while there is room and it is of interest.
    fn probe_record(&mut self, ordinal: Option<u64>, e: ReductionProbeEvent)
        ensures
            *final(self) == (TitaniumSearch { probe: final(self).probe, ..*old(self) }),
            final(self).probe.events@ == if ordinal is Some
                && old(self).probe.events@.len() < old(self).probe.limit
                    && (old(self).probe.target is None || old(self).probe.target == ordinal) {
                old(self).probe.events@.push(ReductionProbeEvent { ordinal: ordinal->0, ..e })
            } else {
                old(self).probe.events@
            },
    {
        if let Some(o) = ordinal {
            let wanted: bool = match self.probe.target {
                Some(t) => t == o,
                None => true,
            };
            if self.probe.events.len() < self.probe.limit && wanted {
                let mut event = e;
                event.ordinal = o;
                self.probe.events.push(event);
            }
        }
    }

    /// Heat shapes the reductions of this call's node.
    pub open spec fn shapes(&self, c: ChildCall) -> bool {
        self.cfg.cat_lmr_v16 && c.depth >= 2
    }

    /// Depth of the first search of a reduced child; `None` when it is not reduced after
    /// all.
    fn first_depth<H: SearchHost>(&mut self, c: &ChildCall, host: &mut H) -> (r: FirstDepth)
        requires
            old(self).ready(c.ply + 1),
            call_ok(*c),
            old(self).dist.cached_stamp >= 0,
            c.plan == ChildPlan::ReducedWall ==> moves::wall_id(c.m as int),
            c.plan == ChildPlan::ReducedPawn ==> moves::pawn_id(c.m as int),
            c.plan == ChildPlan::ReducedPawn ==> old(self).dist.fields_are(old(self).g.topo()),
        ensures
            final(self).ready(c.ply + 1),
            final(self).keeps(old(self), c.ply + 1),
            *final(self) == (TitaniumSearch {
                dist: final(self).dist,
                probe: final(self).probe,
                pending_cat_child_ply: final(self).pending_cat_child_ply,
                ..*old(self)
            }),
            r.depth matches Some(d) ==> 0 <= d <= c.depth - 1,
            first_chosen::<H>(*old(self), *c, r),
            final(self).probe.target == old(self).probe.target,
    {
        let new_depth: i32 = c.depth - 1;
        if c.plan == ChildPlan::ReducedPawn {
            let (pre, post): (i32, i32) = if c.mover == 0 {
                (c.pre0, self.dist.f0[self.dist.dist0_idx].dist[c.m as usize] as i32)
            } else {
                (c.pre1, self.dist.f1[self.dist.dist1_idx].dist[c.m as usize] as i32)
            };
            let q = LmrQuery {
                move_index: c.i,
                depth: c.depth,
                mv: c.m,
                heat: 0,
                max_heat: 0,
                self_gain: pre - post,
                race_gain: None,
            };
            proof {
                let side = c.mover as int;
                let f = if side == 0 {
                    self.dist.f0@[self.dist.dist0_idx as int].dist@
                } else {
                    self.dist.f1@[self.dist.dist1_idx as int].dist@
                };
                routes::lemma_field_of(self.g.topo(), side, f);
                assert(q == pawn_query(self.g@, *c));
            }
            let ghost h = *host;
            let plies = host.pawn_reduction(&q);
            assert(pawn_reduced(*c, h.pawn_reduction_of(pawn_query(old(self).g@, *c)))
                == pawn_reduced(*c, plies));
            return match plies {
                Some(red) => FirstDepth {
                    depth: Some(pruning::reduce_depth(new_depth, red, false)),
                    ordinal: None,
                    extra: false,
                    base: red,
                    reduction: red,
                },
                None => FirstDepth {
                    depth: None,
                    ordinal: None,
                    extra: false,
                    base: 0,
                    reduction: 0,
                },
            };
        }
        if c.plan != ChildPlan::ReducedWall {
            return FirstDepth { depth: None, ordinal: None, extra: false, base: 0, reduction: 0 };
        }
        let q = LmrQuery {
            move_index: c.i,
            depth: c.depth,
            mv: c.m,
            heat: c.heat,
            max_heat: c.max_heat,
            self_gain: 0,
            race_gain: None,
        };
        let ghost h = *host;
        let ghost mut again = *host;
        let ghost mut gained: int = 0;
        let base: i32 = host.wall_reduction(&q);
        let shaped: bool = self.cfg.cat_lmr_v16 && c.depth >= 2;
        let mut red: i32 = pruning::cap_wall_reduction(base, new_depth, shaped);
        if self.cfg.cat_path_lmr && shaped && red > 0 {
            let gain: i32 = self.race_gain_of_wall(c);
            let corrected = LmrQuery {
                move_index: c.i,
                depth: c.depth,
                mv: c.m,
                heat: c.heat,
                max_heat: c.max_heat,
                self_gain: 0,
                race_gain: Some(gain),
            };
            proof {
                again = *host;
                gained = gain as int;
            }
            red = host.wall_reduction(&corrected);
        }
        let (ordinal, extra) = self.probe_ordinal(c.depth);
        let r = FirstDepth {
            depth: Some(pruning::reduce_depth(new_depth, red, extra)),
            ordinal,
            extra,
            base,
            reduction: red,
        };
        assert(wall_reduced(*old(self), *c, r, h, again, gained));
        r
    }

    /// Searches the child that has just been played, as its plan says. The score is the
    /// node's.
    #[verifier::rlimit(40)]
    fn search_child<H: SearchHost>(
        &mut self,
        c: &ChildCall,
        node: Ghost<Asked>,
        host: &mut H,
    ) -> (r: Result<(i32, Ghost<Seq<Call>>), TimeUp>)
        requires
            call_of(*c, node@),
            old(self).ready(c.ply + 1),
            call_ok(*c),
            old(self).dist.cached_stamp >= 0,
            c.plan == ChildPlan::ReducedWall ==> moves::wall_id(c.m as int),
            c.plan == ChildPlan::ReducedPawn ==> moves::pawn_id(c.m as int),
            c.plan == ChildPlan::ReducedPawn ==> old(self).dist.fields_are(old(self).g.topo()),
        ensures
            final(self).tables_ok(),
            final(self).dist.wf(),
            final(self).g.wf(),
            final(self).keeps(old(self), c.ply + 1),
            final(self).nodes >= one_more(old(self).nodes),
            // Only the clock ends the search, and it is looked at on every 64th node alone.
            r is Err ==> clock_looked(old(self).nodes, final(self).nodes) && clock_says::<H>(true),
            r matches Ok((v, calls)) ==> {
                &&& score_ok(v as int)
                // A child with a fixed score has it under every plan.
                &&& entry_score(old(self).g@, old(self).path@, c.ply + 1) matches Some(e) ==> v
                    == -e
                // The searches follow the plan, and their results are the child's.
                &&& trace::calls_follow::<H>(
                    *c,
                    node@,
                    *old(self),
                    calls@,
                    v as int,
                )
                &&& trace::calls_hold::<H>(calls@, node@)
                &&& trace::same_knowledge(*final(self), calls@.last().after)
                &&& final(self).nodes == calls@.last().after.nodes
                &&& final(self).windows == calls@.last().after.windows
            },
        decreases MAX_PLY - c.ply, c.q_left, c.depth, 0int,
    {
        let new_depth: i32 = c.depth - 1;
        let (alpha, beta, ply, q_left): (i32, i32, usize, i32) = (
            c.alpha,
            c.beta,
            c.ply,
            c.q_left,
        );
        let whole: Option<(i32, i32, i32)> = match c.plan {
            ChildPlan::Open => Some((new_depth, -INF, INF)),
            ChildPlan::Extended(ext) => Some((new_depth + ext, -beta, -alpha)),
            ChildPlan::Window => Some((new_depth, -beta, -alpha)),
            _ => None,
        };
        if let Some((d, lo, hi)) = whole {
            return match self.ab(d, lo, hi, ply + 1, true, c.m, q_left, host) {
                Ok(v) => {
                    let ghost call = Call {
                        before: *old(self),
                        after: *self,
                        asked: trace::asked(d, lo, hi, (ply + 1) as usize, true, c.m, q_left),
                        value: v as int,
                    };
                    let ghost calls = seq![call];
                    proof {
                        trace::lemma_linked_self(*old(self), ply as int);
                        trace::lemma_calls_hold::<H>(call, call, node@);
                        assert(trace::calls_follow::<H>(
                            *c,
                            node@,
                            *old(self),
                            calls,
                            -v as int,
                        )) by {
                            reveal(trace::calls_follow);
                        }
                    }
                    Ok((-v, Ghost(calls)))
                },
                Err(e) => Err(e),
            };
        }
        let nodes_before: u64 = self.nodes;
        let start = self.first_depth(c, host);
        proof {
            lemma_entry_by_line(self.g@, self.path@, old(self).path@, ply + 1);
        }
        let (first, plan): (i32, ChildPlan) = match start.depth {
            Some(d) => (d, c.plan),
            None => (new_depth, ChildPlan::Scout),
        };
        let ghost scouting = *self;
        let mut score: i32 = match self.ab(first, -alpha - 1, -alpha, ply + 1, true, c.m, q_left, host) {
            Ok(v) => -v,
            Err(e) => {
                return Err(e);
            },
        };
        let again: bool = pruning::research_due(plan, score, alpha, beta);
        proof {
            lemma_entry_by_line(self.g@, self.path@, old(self).path@, ply + 1);
        }
        let ghost scouted = *self;
        let ghost call = Call {
            before: scouting,
            after: scouted,
            asked: trace::asked(
                first,
                (-alpha - 1) as i32,
                (-alpha) as i32,
                (ply + 1) as usize,
                true,
                c.m,
                q_left,
            ),
            value: -score as int,
        };
        let ghost mut calls = seq![call];
        if again {
            match self.ab(new_depth, -beta, -alpha, ply + 1, true, c.m, q_left, host) {
                Ok(v) => {
                    score = -v;
                    proof {
                        calls = seq![
                            call,
                            Call {
                                before: scouted,
                                after: *self,
                                asked: trace::asked(
                                    new_depth,
                                    (-beta) as i32,
                                    (-alpha) as i32,
                                    (ply + 1) as usize,
                                    true,
                                    c.m,
                                    q_left,
                                ),
                                value: v as int,
                            },
                        ];
                    }
                },
                Err(e) => {
                    return Err(e);
                },
            }
        }
        proof {
            trace::lemma_same_line(*old(self), scouting, ply as int);
            trace::lemma_linked_self(scouted, ply as int);
            trace::lemma_calls_hold::<H>(call, calls.last(), node@);
            assert(trace::calls_follow::<H>(
                *c,
                node@,
                *old(self),
                calls,
                score as int,
            )) by {
                reveal(trace::calls_follow);
                assert(trace::scouted(*c, node@, start, calls));
            }
        }
        if start.ordinal.is_some() {
            let spent: u64 = if self.nodes >= nodes_before {
                self.nodes - nodes_before
            } else {
                0
            };
            let event = ReductionProbeEvent {
                ordinal: 0,
                parent_hash_lo: c.parent_lo,
                parent_hash_hi: c.parent_hi,
                child_hash_lo: self.g.hash_lo,
                child_hash_hi: self.g.hash_hi,
                mv: c.m,
                depth: c.depth,
                ply,
                alpha,
                beta,
                move_index: c.i,
                base_reduction: start.base,
                applied_extra_reduction: start.extra,
                verification_triggered: again,
                self_gain: 0,
                opponent_delay: 0,
                race_gain: 0,
                path_adjustment: num::difference(
                    pruning::cap_wall_reduction(
                        start.base,
                        new_depth,
                        self.cfg.cat_lmr_v16 && c.depth >= 2,
                    ),
                    start.base,
                ),
                final_reduction: start.reduction,
                thread_aggression_percent: self.probe.tuning_percent,
                score,
                nodes: spent,
                total_legal_moves: c.count,
                history_score: self.hist.history_tbl[c.m as usize],
            };
            self.probe_record(start.ordinal, event);
        }
        Ok((score, Ghost(calls)))
    }

    /// Notes the score of a root move: a move keeps its best one.
    fn note_root_move(&mut self, m: i16, score: i32)
        requires
            old(self).tables_ok(),
            score_ok(score as int),
        ensures
            final(self).tables_ok(),
            *final(self) == (TitaniumSearch { root_moves: final(self).root_moves, ..*old(self) }),
            final(self).root_moves@ == noted(old(self).root_moves@, m, score),
    {
        let n: usize = self.root_moves.len();
        let mut i: usize = 0;
        while i < n
            invariant
                i <= n,
                n == self.root_moves@.len(),
                *self == *old(self),
                self.tables_ok(),
                score_ok(score as int),
                forall|k: int| 0 <= k < i ==> (#[trigger] self.root_moves@[k]).0 != m,
            decreases n - i,
        {
            let entry = self.root_moves[i];
            if entry.0 == m {
                proof {
                    lemma_noted_at(self.root_moves@, m, score, i as int);
                }
                if score > entry.1 {
                    self.root_moves.set(i, (m, score));
                }
                return;
            }
            i += 1;
        }
        proof {
            lemma_noted_new(self.root_moves@, m, score);
        }
        self.root_moves.push((m, score));
    }

    /// Notes the score of a root move, and whether it is the best pawn move.
    fn note_root_score(&mut self, m: i16, score: i32)
        requires
            old(self).tables_ok(),
            score_ok(score as int),
        ensures
            final(self).tables_ok(),
            *final(self) == (TitaniumSearch {
                root_moves: final(self).root_moves,
                root_pawn_best: final(self).root_pawn_best,
                root_pawn_score: final(self).root_pawn_score,
                ..*old(self)
            }),
            final(self).root_moves@ == noted(old(self).root_moves@, m, score),
            (final(self).root_pawn_best, final(self).root_pawn_score) == if moves::pawn_id(m as int)
                && (old(self).root_pawn_score is None || score > old(self).root_pawn_score->0) {
                (m, Some(score))
            } else {
                (old(self).root_pawn_best, old(self).root_pawn_score)
            },
    {
        self.note_root_move(m, score);
        if moves::is_pawn_move(m) {
            let better: bool = match self.root_pawn_score {
                Some(v) => score > v,
                None => true,
            };
            if better {
                self.root_pawn_score = Some(score);
                self.root_pawn_best = m;
            }
        }
    }

    /// Takes a searched root move into what is known of the root.
    fn note_root<H: SearchHost>(&mut self, m: i16, score: i32, raised: bool, host: &mut H)
        requires
            old(self).tables_ok(),
            score_ok(score as int),
        ensures
            final(self).tables_ok(),
            *final(self) == (TitaniumSearch {
                root_best: final(self).root_best,
                root_score: final(self).root_score,
                last_reported_best: final(self).last_reported_best,
                ..*old(self)
            }),
            raised ==> final(self).root_best == m && final(self).root_score == score,
            !raised ==> final(self).root_best == old(self).root_best && final(self).root_score
                == old(self).root_score,
    {
        if raised {
            self.root_best = m;
            self.root_score = score;
            if self.last_reported_best != m {
                self.last_reported_best = m;
                host.progress(&self.g, self.nodes, m, score, true);
            }
        }
    }
}

impl TitaniumSearch {
    /// The installed root moves, if any, can be played.
    pub open spec fn lazy_ok(&self) -> bool {
        self.lazy.moves matches Some(ms) ==> movegen::all_playable(self.g@, ms@)
    }

    /// The list a helper searches at the root instead of its own.
    fn lazy_list(&self, ms: Vec<i16>, ply: usize) -> (out: Vec<i16>)
        requires
            ply == 0 ==> self.lazy_ok(),
            movegen::all_playable(self.g@, ms@),
        ensures
            movegen::all_playable(self.g@, out@),
            out@ == if ply == 0 && self.lazy.moves is Some {
                let all = self.lazy.moves->0@;
                all.take(num::smaller(self.lazy.allowed as int, all.len() as int))
            } else {
                ms@
            },
    {
        if ply != 0 {
            return ms;
        }
        match &self.lazy.moves {
            None => ms,
            Some(all) => {
                let len: usize = all.len();
                let n: usize = if self.lazy.allowed < len {
                    self.lazy.allowed
                } else {
                    len
                };
                let mut out: Vec<i16> = Vec::new();
                let mut i: usize = 0;
                while i < n
                    invariant
                        i <= n <= all@.len(),
                        out@ == all@.take(i as int),
                    decreases n - i,
                {
                    out.push(all[i]);
                    i += 1;
                    assert(out@ =~= all@.take(i as int));
                }
                out
            },
        }
    }

    /// Notes that a helper visits root place `i`.
    fn note_visit(&mut self, i: usize)
        ensures
            *final(self) == (TitaniumSearch { lazy: final(self).lazy, ..*old(self) }),
            final(self).lazy.moves == old(self).lazy.moves,
            final(self).lazy.allowed == old(self).lazy.allowed,
            final(self).lazy.visit_map == old(self).lazy.visit_map,
            final(self).lazy.visits@ == old(self).lazy.visits@.push(
                match old(self).lazy.visit_map {
                    Some(map) => if i < map@.len() {
                        map@[i as int]
                    } else {
                        i
                    },
                    None => i,
                },
            ),
    {
        let place: usize = match &self.lazy.visit_map {
            Some(map) => if i < map.len() {
                map[i]
            } else {
                i
            },
            None => i,
        };
        self.lazy.visits.push(place);
    }

    /// May the move at place `i` be passed over: a late wall, or one that would seal a pawn
    /// in?
    fn skips(&self, i: usize, m: i16, depth: i32, ply: usize, improving: bool, tt_move: i16,
        best: Option<i32>) -> (skip:
        bool)
        requires
            self.g.wf(),
            self.hist.wf(),
            moves::move_id(m as int),
        ensures
            skip == passes_over(
                self.g@,
                self.cfg,
                self.hist,
                depth as int,
                ply as int,
                improving,
                tt_move,
                i as int,
                m,
                best,
            ),
    {
        proof {
            reveal(passes_over);
        }
        let so_far: i32 = match best {
            Some(b) => b,
            None => i32::MIN,
        };
        if pruning::late_wall_is_skipped(
            i,
            depth,
            ply,
            improving,
            self.cfg.ace_lmp,
            m,
            tt_move,
            self.hist.move_hist(self.g.turn, m),
            so_far,
        ) {
            return true;
        }
        if !moves::is_wall_move(m) || ply == 0 {
            return false;
        }
        let policy = movegen::wall_policy(
            self.cfg.ti_movegen,
            self.cfg.cat_walls,
            self.cfg.dead_zone_prune,
        );
        if policy == movegen::WallPolicy::Legal {
            return false;
        }
        let wall_type: usize = if moves::is_hwall_move(m) {
            0
        } else {
            1
        };
        !self.g.wall_legal(wall_type, moves::wall_slot(m))
    }

    /// Would an equal score by `m` be preferred, because the best root move repeats a
    /// position of the game and `m` does not?
    fn prefers(&mut self, ply: usize, state: &NodeState, score: i32, m: i16) -> (yes: bool)
        requires
            old(self).g.wf(),
            eval::hands_ok(old(self).g@),
            old(self).g@.hist.len() < game::MAX_HISTORY,
            movegen::playable(old(self).g@, m as int),
            state.best is Some ==> movegen::playable(old(self).g@, state.best_move as int),
        ensures
            yes == prefers_move(old(self).g@, ply as int, *state, score, m),
            final(self).g@ == old(self).g@,
            final(self).g.wf(),
            *final(self) == (TitaniumSearch { g: final(self).g, ..*old(self) }),
    {
        let tie: bool = match state.best {
            Some(b) => b == score,
            None => false,
        };
        if ply != 0 || !tie || state.best_move == 0 {
            return false;
        }
        self.move_repeats_game_history(state.best_move) && !self.move_repeats_game_history(m)
    }

    /// Plays one move of the node, searches it, and takes it back.
    fn search_one<H: SearchHost>(
        &mut self,
        switches: &PlanSwitches,
        i: usize,
        m: i16,
        depth: i32,
        alpha: i32,
        beta: i32,
        ply: usize,
        q_left: i32,
        tt_move: i16,
        heat: &ordering::Heat,
        count: usize,
        node: Ghost<Asked>,
        host: &mut H,
    ) -> (r: Result<(i32, Ghost<Step>), TimeUp>)
        requires
            node@.depth == depth,
            node@.beta == beta,
            node@.ply == ply,
            node@.q_left == q_left,
            *switches == trace::plan_switches(old(self).cfg),
            old(self).ready(ply as int),
            old(self).dist.fresh(old(self).g@),
            old(self).dist.fields_are(old(self).g.topo()),
            ply + 1 < MAX_PLY,
            1 <= depth <= 512 + ply,
            -INF <= alpha < beta <= INF,
            0 <= q_left,
            movegen::playable(old(self).g@, m as int),
            heat.by_id@.len() == 256,
        ensures
            final(self).ready(ply as int),
            final(self).keeps(old(self), ply as int),
            final(self).dist.fresh(final(self).g@),
            final(self).dist.fields_are(final(self).g.topo()),
            final(self).path@[ply as int] == old(self).path@[ply as int],
            final(self).eval_stack@[ply as int] == old(self).eval_stack@[ply as int],
            same_root(*final(self), *old(self)),
            final(self).nodes >= one_more(old(self).nodes),
            // Only the clock ends the search, and it is looked at on every 64th node alone.
            r is Err ==> clock_looked(old(self).nodes, final(self).nodes) && clock_says::<H>(true),
            r matches Ok((v, step)) ==> {
                &&& score_ok(v as int)
                // A move to a position with a fixed score has that score.
                &&& entry_score(
                    game::played(old(self).g@, m as int),
                    old(self).path@,
                    ply + 1,
                ) matches Some(e) ==> v == -e
                // The move was searched by its plan, from here and back.
                &&& trace::step_ok::<H>(
                    node@,
                    tt_move,
                    *heat,
                    (pruning::Visit { place: i as int, m, score: v, prefer: false, alpha }),
                    step@,
                )
                &&& trace::calls_hold::<H>(step@.calls, node@)
                &&& step@.now == *old(self)
                &&& step@.end == *final(self)
            },
        decreases MAX_PLY - ply, q_left, depth, 1int,
    {
        let mark = self.dist.mark();
        let c = ChildCall {
            plan: pruning::plan_child(*switches, i, depth, ply, m, tt_move),
            i,
            m,
            depth,
            alpha,
            beta,
            ply,
            q_left,
            heat: heat.by_id[m as usize],
            max_heat: heat.max_wall,
            count,
            mover: self.g.turn,
            pre0: self.pawn_distance(0),
            pre1: self.pawn_distance(1),
            parent_lo: self.g.hash_lo,
            parent_hi: self.g.hash_hi,
        };
        let ghost before = *self;
        self.play(m, ply);
        let ghost start = *self;
        let res = self.search_child(&c, node, host);
        self.unwind_move(&mark, Ghost(before), ply);
        let merged = pruning::merge_windows(self.windows[ply], self.windows[ply + 1]);
        self.windows.set(ply, merged);
        match res {
            Ok((v, calls)) => {
                let ghost step = Step { now: before, start, end: *self, child: c, calls: calls@ };
                proof {
                    trace::lemma_same_line(start, before, ply as int);
                    trace::lemma_same_line(*self, before, ply as int);
                    assert(trace::step_ok::<H>(
                        node@,
                        tt_move,
                        *heat,
                        pruning::Visit { place: i as int, m, score: v, prefer: false, alpha },
                        step,
                    )) by {
                        reveal(trace::step_ok);
                    }
                }
                Ok((v, Ghost(step)))
            },
            Err(e) => Err(e),
        }
    }

    /// Searches the moves of a node and returns what they come to. `best` is `None` when
    /// every move was passed over.
    #[verifier::rlimit(40)]
    fn search_moves<H: SearchHost>(
        &mut self,
        ms: &Vec<i16>,
        heat: &ordering::Heat,
        depth: i32,
        alpha: i32,
        beta: i32,
        ply: usize,
        improving: bool,
        tt_move: i16,
        prev_move: i16,
        q_left: i32,
        node: Ghost<Asked>,
        host: &mut H,
    ) -> (r: Result<(NodeState, Ghost<NodeRecord>, Ghost<Seq<Step>>), TimeUp>)
        requires
            node@ == trace::asked(depth, alpha, beta, ply, node@.allow_null, prev_move, q_left),
            old(self).ready(ply as int),
            old(self).dist.fresh(old(self).g@),
            old(self).dist.fields_are(old(self).g.topo()),
            ply + 1 < MAX_PLY,
            1 <= depth <= 512 + ply,
            -INF <= alpha < beta <= INF,
            0 <= q_left,
            prev_move < 256,
            movegen::all_playable(old(self).g@, ms@),
            heat.by_id@.len() == 256,
        ensures
            final(self).ready(ply as int),
            final(self).keeps(old(self), ply as int),
            final(self).dist.fresh(final(self).g@),
            final(self).dist.fields_are(final(self).g.topo()),
            final(self).path@[ply as int] == old(self).path@[ply as int],
            final(self).eval_stack@[ply as int] == old(self).eval_stack@[ply as int],
            final(self).nodes >= old(self).nodes,
            // Only the clock ends the search, and it is looked at on every 64th node alone.
            r is Err ==> clock_looked(old(self).nodes, final(self).nodes) && clock_says::<H>(true),
            ms@.len() == 0 ==> r is Ok && *final(self) == *old(self),
            r matches Ok((state, rec, steps)) ==> {
                &&& 0 <= state.flag <= 2
                &&& state.best matches Some(b) ==> score_ok(b as int) && moves::move_id(
                    state.best_move as int,
                ) && ms@.contains(state.best_move)
                &&& ply > 0 && state.best is Some ==> (state.flag == 2 <==> state.best->0 <= alpha)
                    && (state.flag == 1 <==> state.best->0 >= beta)
                // The result is what the searched moves come to, and moves were passed over
                // by rule, or came after a cutoff.
                &&& state == pruning::absorbed_all(
                    pruning::node_start(alpha),
                    rec@.visits,
                    beta as int,
                )
                // Each move was searched by its plan, from where the one before it ended.
                &&& trace::moves_follow::<H>(
                    *old(self),
                    node@,
                    tt_move,
                    improving,
                    *heat,
                    ms@,
                    rec@,
                    steps@,
                )
                &&& trace::step_calls_hold::<H>(steps@, node@)
                &&& trace::node_left(
                    trace::before_step(*old(self), steps@, steps@.len() as int),
                    *final(self),
                    node@,
                    rec@.visits,
                )
                &&& rec@.reached == ms@.len() || (state.best is Some && state.best->0 >= beta)
                &&& ply == 0 ==> root_follows(*old(self), *final(self), alpha, beta, rec@.visits)
            },
            // Where time is up, the root is what the moves searched to the end come to.
            ply == 0 && r is Err ==> trace::list_broken_off::<H>(
                *old(self),
                *final(self),
                node@,
                tt_move,
                improving,
                *heat,
                ms@,
            ),
        decreases MAX_PLY - ply, q_left, depth, 2int,
    {
        let ghost start = *self;
        let ghost p = self.g@;
        let n: usize = ms.len();
        let mut state = NodeState { alpha, best: None, best_move: 0, flag: 2 };
        let mut walls: Vec<i16> = Vec::new();
        let mut pawns: Vec<i16> = Vec::new();
        let mut cut: bool = false;
        let mut i: usize = 0;
        let ghost mut visits: Seq<pruning::Visit> = Seq::empty();
        let ghost mut steps: Seq<Step> = Seq::empty();
        let ghost mut left = *self;
        proof {
            lemma_moves_start::<H>(*self, node@, tt_move, improving, *heat, ms@);
            lemma_root_starts(*self, alpha, beta);
            trace::lemma_linked_self(*self, ply as int);
        }
        let switches = PlanSwitches {
            multipv: self.cfg.multipv,
            eme: self.cfg.eme,
            cat_lmr_v16: self.cfg.cat_lmr_v16,
            gate: self.cfg.lmr_gate,
        };
        while i < n && !cut
            invariant
                i <= n,
                n == ms@.len(),
                start == *old(self),
                p == start.g@,
                movegen::all_playable(p, ms@),
                heat.by_id@.len() == 256,
                ply + 1 < MAX_PLY,
                1 <= depth <= 512 + ply,
                -INF <= alpha < beta <= INF,
                0 <= q_left,
                prev_move < 256,
                self.ready(ply as int),
                self.keeps(&start, ply as int),
                self.path@[ply as int] == start.path@[ply as int],
                self.eval_stack@[ply as int] == start.eval_stack@[ply as int],
                self.dist.fresh(p),
                self.dist.fields_are(p.w),
                -INF <= state.alpha,
                !cut ==> state.alpha < beta,
                0 <= state.flag <= 2,
                state.best matches Some(b) ==> score_ok(b as int) && ms@.contains(state.best_move)
                    && movegen::playable(p, state.best_move as int),
                state.best matches Some(b) ==> (!cut ==> b < beta),
                ply > 0 && state.best is Some ==> (state.flag == 2 <==> state.best->0 <= alpha) && (
                state.flag == 1 <==> state.best->0 >= beta) && state.alpha == num::larger(
                    alpha as int,
                    state.best->0 as int,
                ),
                state.best is None ==> state.flag == 2 && state.alpha == alpha && !cut,
                forall|k: int| 0 <= k < walls@.len() ==> 0 <= #[trigger] walls@[k] < 256,
                forall|k: int| 0 <= k < pawns@.len() ==> 0 <= #[trigger] pawns@[k] < 256,
                state == pruning::absorbed_all(pruning::node_start(alpha), visits, beta as int),
                switches == trace::plan_switches(start.cfg),
                node@ == trace::asked(depth, alpha, beta, ply, node@.allow_null, prev_move, q_left),
                trace::step_calls_hold::<H>(steps, node@),
                visits.len() == steps.len(),
                trace::linked_node(
                    trace::before_step(start, steps, steps.len() as int),
                    left,
                    ply as int,
                ),
                walls@ == trace::tried(visits, true),
                pawns@ == trace::tried(visits, false),
                !cut ==> left == *self,
                cut ==> visits.len() > 0 && cutoff_learned(
                    left,
                    *self,
                    ply as int,
                    visits.last().m,
                    prev_move,
                    depth as int,
                    walls@,
                    pawns@,
                ),
                trace::moves_follow::<H>(
                    start,
                    node@,
                    tt_move,
                    improving,
                    *heat,
                    ms@,
                    (NodeRecord { visits, reached: i as int }),
                    steps,
                ),
                cut ==> state.best is Some && state.best->0 >= beta,
                ply == 0 ==> root_follows(start, *self, alpha, beta, visits),
                self.nodes >= start.nodes,
                n == 0 ==> *self == start,
            decreases n - i,
        {
            let m: i16 = ms[i];
            assert(movegen::playable(p, m as int));
            assert(self.g@ == p);
            let ghost so_far = *self;
            let ghost rec = NodeRecord { visits, reached: i as int };
            proof {
                assert(visits.take(visits.len() as int) =~= visits);
                assert(trace::before_step(start, steps, steps.len() as int).hist == self.hist);
            }
            if !self.skips(i, m, depth, ply, improving, tt_move, state.best) {
                if ply == 0 {
                    self.note_visit(i);
                }
                let low: i32 = state.alpha;
                let ghost now = *self;
                let ghost prior = trace::before_step(start, steps, steps.len() as int);
                proof {
                    trace::lemma_linked_on(prior, so_far, now, ply as int);
                }
                let (score, step): (i32, Ghost<Step>) = match self.search_one(
                    &switches,
                    i,
                    m,
                    depth,
                    low,
                    beta,
                    ply,
                    q_left,
                    tt_move,
                    heat,
                    n,
                    node,
                    host,
                ) {
                    Ok(found) => found,
                    Err(e) => {
                        proof {
                            if ply == 0 {
                                lemma_root_kept(start, so_far, *self, alpha, beta, visits);
                                assert(trace::list_broken::<H>(
                                    start,
                                    *self,
                                    node@,
                                    tt_move,
                                    improving,
                                    *heat,
                                    ms@,
                                    rec,
                                    steps,
                                )) by {
                                    reveal(trace::list_broken);
                                }
                            }
                        }
                        return Err(e);
                    },
                };
                if ply == 0 {
                    self.note_root_score(m, score);
                }
                if moves::is_wall_move(m) {
                    walls.push(m);
                } else {
                    pawns.push(m);
                }
                let prefer: bool = self.prefers(ply, &state, score, m);
                let a = pruning::absorb_child(state, score, m, prefer, beta);
                assert(ms@[i as int] == m);
                state = a.state;
                if ply == 0 {
                    self.note_root(m, score, a.raised, host);
                }
                let ghost v = pruning::Visit {
                    place: i as int,
                    m,
                    score,
                    prefer,
                    alpha: low,
                };
                proof {
                    lemma_move_searched::<H>(
                        start,
                        node@,
                        tt_move,
                        improving,
                        *heat,
                        ms@,
                        rec,
                        steps,
                        v,
                        step@,
                    );
                    if ply == 0 {
                        lemma_root_visit(start, so_far, *self, alpha, beta, visits, v);
                    }
                    trace::lemma_tried_push(visits, v, true);
                    trace::lemma_tried_push(visits, v, false);
                    visits = visits.push(v);
                    steps = steps.push(step@);
                }
                if a.cutoff {
                    cut = true;
                    let ghost learned = *self;
                    self.learn_cutoff(ply, m, prev_move, depth, &walls, &pawns);
                    proof {
                        left = learned;
                        trace::lemma_linked_self(step@.end, ply as int);
                        trace::lemma_linked_on(step@.end, step@.end, left, ply as int);
                        if ply == 0 {
                            lemma_root_kept(start, learned, *self, alpha, beta, visits);
                        }
                    }
                }
                if !cut {
                    proof {
                        left = *self;
                        trace::lemma_linked_self(step@.end, ply as int);
                        trace::lemma_linked_on(step@.end, step@.end, left, ply as int);
                    }
                }
            } else {
                proof {
                    lemma_move_passed_over::<H>(
                        start,
                        node@,
                        tt_move,
                        improving,
                        *heat,
                        ms@,
                        rec,
                        steps,
                    );
                }
            }
            i += 1;
        }
        proof {
            trace::lemma_node_left(
                trace::before_step(start, steps, steps.len() as int),
                left,
                *self,
                node@,
                visits,
            );
        }
        Ok((state, Ghost(NodeRecord { visits, reached: i as int }), Ghost(steps)))
    }

    /// What is known of a node without searching its moves: a finished game or repetition,
    /// a race, a table entry, a leaf's evaluation, or an evaluation far above the window.
    #[verifier::rlimit(25)]
    pub fn node_verdict<H: SearchHost>(
        &mut self,
        depth: i32,
        alpha: i32,
        beta: i32,
        ply: usize,
        prev_move: i16,
        q_left: i32,
        host: &mut H,
    ) -> (r: Result<NodeVerdict, TimeUp>)
        requires
            old(self).ready(ply as int),
            ply < MAX_PLY,
            0 <= depth <= 512 + ply,
            -INF <= alpha < beta <= INF,
            prev_move < 256,
        ensures
            final(self).ready(ply as int),
            final(self).keeps(old(self), ply as int),
            match r {
                Ok(NodeVerdict::Done(v)) => score_ok(v as int),
                Ok(NodeVerdict::Extend) => depth == 0 && q_left > 0 && ply > 0,
                Ok(NodeVerdict::Search(_, ev, _)) => {
                    &&& depth > 0
                    &&& ply + 1 < MAX_PLY
                    &&& score_ok(ev as int)
                    &&& final(self).eval_stack@[ply as int] == Some(ev)
                    &&& final(self).dist.fresh(final(self).g@)
                    &&& final(self).dist.fields_are(final(self).g.topo())
                },
                Err(_) => true,
            },
            entry_score(old(self).g@, old(self).path@, ply as int) is Some ==> match r {
                Ok(NodeVerdict::Done(v)) => Some(v as int) == entry_score(
                    old(self).g@,
                    old(self).path@,
                    ply as int,
                ) && entry_window(
                    old(self).g@,
                    old(self).path@,
                    ply as int,
                    final(self).windows@[ply as int],
                ),
                Ok(_) => false,
                Err(_) => true,
            },
            entry_score(old(self).g@, old(self).path@, ply as int) is None && r is Ok
                ==> final(self).path@[ply as int] == key_of(old(self).g@),
            same_root(*final(self), *old(self)),
            final(self).nodes == one_more(old(self).nodes),
            // Only the clock ends the search, and it is looked at on every 64th node alone.
            r is Err ==> clock_looked(old(self).nodes, final(self).nodes),
            time_checked::<H>(final(self).nodes, r is Err),
            // The verdict follows from races, table, corridors and evaluation.
            entry_score(old(self).g@, old(self).path@, ply as int) is Some && r is Ok
                ==> trace::same_knowledge(*final(self), *old(self)),
            entry_score(old(self).g@, old(self).path@, ply as int) is None && r is Ok
                ==> trace::judged::<H>(
                *old(self),
                *final(self),
                trace::asked(depth, alpha, beta, ply, true, prev_move, q_left),
                r->Ok_0,
            ),
            // A table entry that ends the node ends it, where no race comes first.
            is_beyond_proof(*old(self)) && !old(self).use_shared && depth > 0 && entry_score(
                old(self).g@,
                old(self).path@,
                ply as int,
            ) is None ==> match own_table_cut(
                *old(self),
                depth as int,
                alpha as int,
                beta as int,
                ply as int,
            ) {
                Some(w) => r is Err || r == Ok::<NodeVerdict, TimeUp>(NodeVerdict::Done(w)),
                None => true,
            },
            node_is_open(*old(self), depth as int, alpha as int, beta as int, ply as int) ==> (r is Err
                || r->Ok_0 is Search),
            is_quiet_leaf(*old(self), depth as int, ply as int, q_left as int) ==> match r {
                Ok(NodeVerdict::Done(v)) => net_evaluated::<H>(
                    *old(self),
                    *final(self),
                    depth as int,
                    v as int,
                ),
                Ok(_) => false,
                Err(_) => true,
            },
            final(self).lazy == old(self).lazy,
    {
        match self.enter_node(ply, host) {
            Err(e) => {
                return Err(e);
            },
            Ok(Some(v)) => {
                return Ok(NodeVerdict::Done(v));
            },
            Ok(None) => {},
        }
        assert(ply + 1 < MAX_PLY);
        let ghost c = trace::asked(depth, alpha, beta, ply, true, prev_move, q_left);
        let ghost b = *old(self);
        self.maybe_refresh_dist_at_ab(ply);
        let ghost asking = *self;
        let race = self.race_cuts(alpha, beta, host);
        let ghost raced = *self;
        let ghost mut x = Judged {
            race,
            raced,
            entry: None,
            corridor: None,
            cornered: raced,
            ev: 0,
        };
        proof {
            lemma_race_cut_by_prover::<H>(b, asking, raced.prover, alpha, beta, race);
        }
        if let Some(v) = race {
            proof {
                trace::lemma_same_line(*self, b, ply - 1);
                trace::lemma_judged::<H>(b, *self, c, NodeVerdict::Done(v), x);
            }
            return Ok(NodeVerdict::Done(v));
        }
        if depth <= 0 {
            let corridor = self.wall_ignore_cut(alpha, beta, host);
            proof {
                x = Judged { corridor, cornered: *self, ..x };
            }
            if let Some(v) = corridor {
                proof {
                    trace::lemma_same_line(*self, b, ply - 1);
                    trace::lemma_judged::<H>(b, *self, c, NodeVerdict::Done(v), x);
                }
                return Ok(NodeVerdict::Done(v));
            }
            let static_ev: i32 = self.evaluate(depth, host);
            proof {
                if is_beyond_proof(b) {
                    lemma_quiet_evaluation::<H>(b, x.cornered, *self, depth as int, static_ev as int);
                }
            }
            proof {
                assert(self.mover_field() == routes::field_of(b.g@.w, b.g@.turn)) by {
                    routes::lemma_field_of(self.g.topo(), self.g.turn as int, self.mover_field());
                }
            }
            if self.cfg.q_search && q_left > 0 && ply > 0 && static_ev > -2000 && static_ev < 2000
                && self.q_search_should_extend(ply, prev_move, static_ev) {
                proof {
                    x = Judged { ev: static_ev, ..x };
                    trace::lemma_same_line(*self, b, ply - 1);
                    trace::lemma_judged::<H>(b, *self, c, NodeVerdict::Extend, x);
                }
                return Ok(NodeVerdict::Extend);
            }
            proof {
                x = Judged { ev: static_ev, ..x };
                trace::lemma_same_line(*self, b, ply - 1);
                trace::lemma_judged::<H>(b, *self, c, NodeVerdict::Done(static_ev), x);
            }
            return Ok(NodeVerdict::Done(static_ev));
        }
        let mut tt_move: i16 = 0;
        let entry = self.probe_table(host);
        proof {
            x = Judged { entry, ..x };
        }
        if let Some(e) = entry {
            tt_move = tt::tt_word_move(e.meta);
            if let Some(v) = pruning::table_cutoff(&e, depth, ply, alpha, beta) {
                proof {
                    trace::lemma_same_line(*self, b, ply - 1);
                    trace::lemma_judged::<H>(
                        b,
                        *self,
                        c,
                        NodeVerdict::Done(num::clamped(v as int, -INF as int, INF as int) as i32),
                        x,
                    );
                }
                return Ok(NodeVerdict::Done(num::clamp_i32(v, -INF, INF)));
            }
        }
        let corridor = self.wall_ignore_cut(alpha, beta, host);
        proof {
            x = Judged { corridor, cornered: *self, ..x };
        }
        if let Some(v) = corridor {
            proof {
                trace::lemma_same_line(*self, b, ply - 1);
                trace::lemma_judged::<H>(b, *self, c, NodeVerdict::Done(v), x);
            }
            return Ok(NodeVerdict::Done(v));
        }
        let static_ev: i32 = self.evaluate(depth, host);
        let ghost valued = *self;
        proof {
            x = Judged { ev: static_ev, ..x };
        }
        self.eval_stack.set(ply, Some(static_ev));
        proof {
            lemma_evaluated_by::<H>(x.cornered, valued, *self, depth as int, static_ev as int);
        }
        let improving: bool = ply >= 2 && match self.eval_stack[ply - 2] {
            Some(v) => static_ev > v,
            None => false,
        };
        if pruning::reverse_futility_cuts(
            depth,
            alpha,
            beta,
            static_ev,
            improving,
            self.cfg.ace_rfp,
            self.cfg.ace_rfp_max_depth,
        ) {
            proof {
                trace::lemma_same_line(*self, b, ply - 1);
                trace::lemma_judged::<H>(b, *self, c, NodeVerdict::Done(static_ev), x);
            }
            return Ok(NodeVerdict::Done(static_ev));
        }
        proof {
            trace::lemma_same_line(*self, b, ply - 1);
            trace::lemma_judged::<H>(
                b,
                *self,
                c,
                NodeVerdict::Search(tt_move, static_ev, improving),
                x,
            );
        }
        Ok(NodeVerdict::Search(tt_move, static_ev, improving))
    }

    /// Searches the position to `depth` within the window. Whatever happens, the position
    /// and everything of earlier plies is afterwards as it was.
    #[verifier::rlimit(60)]
    pub fn ab<H: SearchHost>(
        &mut self,
        depth: i32,
        alpha: i32,
        beta: i32,
        ply: usize,
        allow_null: bool,
        prev_move: i16,
        q_left: i32,
        host: &mut H,
    ) -> (r: Result<i32, TimeUp>)
        requires
            old(self).ready(ply as int),
            ply < MAX_PLY,
            0 <= depth <= 512 + ply,
            -INF <= alpha < beta <= INF,
            0 <= q_left,
            prev_move < 256,
            ply == 0 ==> old(self).lazy_ok(),
        ensures
            final(self).ready(ply as int),
            final(self).keeps(old(self), ply as int),
            r matches Ok(v) ==> score_ok(v as int),
            final(self).nodes >= one_more(old(self).nodes),
            // Only the clock ends the search, and it is looked at on every 64th node alone.
            r is Err ==> clock_looked(old(self).nodes, final(self).nodes) && clock_says::<H>(true),
            // A leaf and a node with a fixed score are one node.
            entry_score(old(self).g@, old(self).path@, ply as int) is Some || (depth == 0 && q_left
                == 0) ==> final(self).nodes == one_more(old(self).nodes),
            // A finished game, a repetition and the end of the line have fixed scores.
            entry_score(old(self).g@, old(self).path@, ply as int) is Some ==> (r matches Ok(v)
                ==> Some(v as int) == entry_score(old(self).g@, old(self).path@, ply as int)
                && entry_window(
                old(self).g@,
                old(self).path@,
                ply as int,
                final(self).windows@[ply as int],
            )),
            // At the root either no move was searched, or the score is what the moves
            // searched come to. Where no shortcut applies they are searched.
            ply == 0 ==> (r matches Ok(v) ==> same_root(*final(self), *old(self))
                || root_searched(*old(self), *final(self), alpha, beta, v)),
            ply == 0 && node_is_open(*old(self), depth as int, alpha as int, beta as int, 0) ==> (
            r matches Ok(v) ==> root_searched(*old(self), *final(self), alpha, beta, v)),
            // The score is a result of the search: where the moves decide, what they come to.
            r matches Ok(v) ==> trace::is_result::<H>(
                *old(self),
                *final(self),
                trace::asked(depth, alpha, beta, ply, allow_null, prev_move, q_left),
                v as int,
            ),
            // At the root, a search that time cuts short leaves what the moves searched to the
            // end come to.
            ply == 0 && r is Err ==> trace::broken_off::<H>(
                *old(self),
                *final(self),
                trace::asked(depth, alpha, beta, ply, allow_null, prev_move, q_left),
            ),
            // A leaf that nothing else decides has its evaluation.
            is_quiet_leaf(*old(self), depth as int, ply as int, q_left as int) ==> (r matches Ok(v)
                ==> net_evaluated::<H>(*old(self), *final(self), depth as int, v as int)),
            r is Ok && entry_score(old(self).g@, old(self).path@, ply as int) is None
                ==> final(self).path@[ply as int] == key_of(old(self).g@),
        decreases MAX_PLY - ply, q_left, depth, 4int,
    {
        let ghost b = *old(self);
        let ghost c = trace::asked(depth, alpha, beta, ply, allow_null, prev_move, q_left);
        let (tt_move, static_ev, improving): (i16, i32, bool) = match self.node_verdict(
            depth,
            alpha,
            beta,
            ply,
            prev_move,
            q_left,
            host,
        ) {
            Err(e) => {
                return Err(e);
            },
            Ok(NodeVerdict::Done(v)) => {
                proof {
                    if entry_score(b.g@, b.path@, ply as int) is Some {
                        trace::lemma_entry_result::<H>(b, *self, c, v as int);
                    } else {
                        trace::lemma_judged_asked::<H>(b, *self, c, NodeVerdict::Done(v));
                        trace::lemma_done_result::<H>(b, *self, c, v);
                    }
                }
                return Ok(v);
            },
            Ok(NodeVerdict::Extend) => {
                proof {
                    lemma_entry_by_line(self.g@, self.path@, old(self).path@, ply as int);
                    trace::lemma_judged_asked::<H>(b, *self, c, NodeVerdict::Extend);
                }
                let ghost at = *self;
                let res = self.ab(1, alpha, beta, ply, allow_null, prev_move, q_left - 1, host);
                proof {
                    if let Ok(v) = res {
                        trace::lemma_extended_result::<H>(b, at, *self, c, v as int);
                    }
                }
                return res;
            },
            Ok(NodeVerdict::Search(mv, ev, up)) => (mv, ev, up),
        };
        let ghost verdict = NodeVerdict::Search(tt_move, static_ev, improving);
        let ghost at = *self;
        proof {
            lemma_entry_by_line(self.g@, self.path@, old(self).path@, ply as int);
            trace::lemma_judged_asked::<H>(b, *self, c, verdict);
        }
        let ghost mut probe: Option<Call> = None;
        let ghost mut pass: Option<Call> = None;
        match self.try_shortcuts(depth, alpha, beta, ply, allow_null, prev_move, q_left, static_ev, host) {
            Err(e) => {
                return Err(e);
            },
            Ok((Some(v), made)) => {
                proof {
                    trace::lemma_shortcut_result::<H>(b, at, *self, c, verdict, made@.0, made@.1);
                }
                return Ok(v);
            },
            Ok((None, made)) => {
                proof {
                    probe = made@.0;
                    pass = made@.1;
                }
            },
        }
        let relevant = self.relevant_walls(ply, depth, host);
        let (list, heat) = self.ordered_moves(ply, depth, tt_move, prev_move, &relevant, host);
        let ghost opened = *self;
        proof {
            lemma_moves_are_listed(
                *old(self),
                ply as int,
                relevant@,
                tt_move as int,
                list@,
                depth as int,
                alpha as int,
                beta as int,
            );
            assert(trace::is_list::<H>(opened, c, tt_move, list@, heat));
        }
        if list.len() == 0 {
            let v: i32 = self.evaluate(depth, host);
            proof {
                trace::lemma_bare_result::<H>(
                    b,
                    at,
                    opened,
                    *self,
                    c,
                    verdict,
                    probe,
                    pass,
                    list@,
                    heat,
                    v as int,
                );
            }
            return Ok(v);
        }
        let ghost generated = list@;
        let ms = self.lazy_list(list, ply);
        assert(ms@ == trace::worker_list(opened, ply as int, generated));
        match self.search_list(
            &ms,
            &heat,
            depth,
            alpha,
            beta,
            ply,
            improving,
            tt_move,
            prev_move,
            q_left,
            static_ev,
            Ghost(c),
            host,
        ) {
            Ok((v, found)) => {
                proof {
                    if ply == 0 {
                        lemma_root_searched_since(*old(self), opened, *self, alpha, beta, v);
                    }
                    trace::lemma_moves_result::<H>(
                        b,
                        at,
                        opened,
                        *self,
                        c,
                        verdict,
                        probe,
                        pass,
                        generated,
                        heat,
                        found@.0,
                        found@.1,
                        found@.2,
                        v as int,
                    );
                }
                Ok(v)
            },
            Err(e) => {
                proof {
                    if ply == 0 {
                        trace::lemma_root_broken::<H>(
                            b,
                            at,
                            opened,
                            *self,
                            c,
                            verdict,
                            probe,
                            pass,
                            generated,
                            heat,
                        );
                    }
                }
                Err(e)
            },
        }
    }

    /// Cuts below the root that a shallower search confirms: a probe far above beta, or a
    /// pass that still holds it.
    fn try_shortcuts<H: SearchHost>(
        &mut self,
        depth: i32,
        alpha: i32,
        beta: i32,
        ply: usize,
        allow_null: bool,
        prev_move: i16,
        q_left: i32,
        static_ev: i32,
        host: &mut H,
    ) -> (r: Result<(Option<i32>, Ghost<(Option<Call>, Option<Call>)>), TimeUp>)
        requires
            old(self).ready(ply as int),
            old(self).dist.fresh(old(self).g@),
            old(self).dist.fields_are(old(self).g.topo()),
            score_ok(static_ev as int),
            ply + 1 < MAX_PLY,
            1 <= depth <= 512 + ply,
            -INF <= alpha < beta <= INF,
            0 <= q_left,
            prev_move < 256,
            entry_score(old(self).g@, old(self).path@, ply as int) is None,
            old(self).path@[ply as int] == key_of(old(self).g@),
        ensures
            final(self).ready(ply as int),
            final(self).keeps(old(self), ply as int),
            final(self).nodes >= old(self).nodes,
            r is Ok ==> final(self).path@[ply as int] == key_of(old(self).g@),
            // Only the clock ends the search, and it is looked at on every 64th node alone.
            r is Err ==> clock_looked(old(self).nodes, final(self).nodes) && clock_says::<H>(true),
            r matches Ok((cut, made)) ==> {
                let c = trace::asked(depth, alpha, beta, ply, allow_null, prev_move, q_left);
                &&& cut is None ==> final(self).dist.fresh(final(self).g@)
                    && final(self).dist.fields_are(final(self).g.topo())
                // The probe and the pass are made where their rules open them, and cut where
                // their results hold beta.
                &&& trace::shortcuts_follow(
                    *old(self),
                    *final(self),
                    c,
                    static_ev as int,
                    made@.0,
                    made@.1,
                )
                &&& trace::shortcut_calls_hold::<H>(c, made@.0, made@.1)
                &&& cut == if trace::probe_cuts(made@.0, beta as int) || trace::pass_cuts(
                    made@.1,
                    beta as int,
                ) {
                    Some(beta)
                } else {
                    None
                }
            },
            ply == 0 ==> r is Ok && r->Ok_0.0 is None && same_root(*final(self), *old(self)),
            final(self).lazy == old(self).lazy || ply > 0,
        decreases MAX_PLY - ply, q_left, depth, 3int,
    {
        let ghost c = trace::asked(depth, alpha, beta, ply, allow_null, prev_move, q_left);
        let ghost at = *self;
        let ghost mut probe: Option<Call> = None;
        if self.cfg.probcut && pruning::probcut_is_eligible(
            depth,
            alpha,
            beta,
            ply,
            allow_null,
            static_ev,
        ) {
            match self.ab(
                depth - pruning::PROBCUT_REDUCTION,
                beta - 1,
                beta,
                ply,
                false,
                prev_move,
                q_left,
                host,
            ) {
                Err(e) => {
                    return Err(e);
                },
                Ok(v) => {
                    proof {
                        probe = Some(
                            Call {
                                before: at,
                                after: *self,
                                asked: trace::asked(
                                    (depth - pruning::PROBCUT_REDUCTION) as i32,
                                    (beta - 1) as i32,
                                    beta,
                                    ply,
                                    false,
                                    prev_move,
                                    q_left,
                                ),
                                value: v as int,
                            },
                        );
                    }
                    if v >= beta {
                        proof {
                            reveal(trace::shortcuts_follow);
                        }
                        return Ok((Some(beta), Ghost((probe, None))));
                    }
                },
            }
            // The verification ended on this very node; its distances may be elsewhere.
            self.refresh_dist(ply);
        }
        proof {
            reveal(trace::same_line);
            trace::lemma_linked_self(*self, ply as int);
        }
        if pruning::null_move_applies(depth, ply, allow_null, static_ev, beta) {
            match self.null_move_score(depth, beta, ply, q_left, host) {
                Err(e) => {
                    return Err(e);
                },
                Ok((ns, call)) => {
                    proof {
                        reveal(trace::shortcuts_follow);
                    }
                    let ghost made = (probe, Some(call@));
                    if pruning::null_move_cuts(ns, beta) {
                        return Ok((Some(beta), Ghost(made)));
                    }
                    return Ok((None, Ghost(made)));
                },
            }
        }
        proof {
            reveal(trace::shortcuts_follow);
        }
        Ok((None, Ghost((probe, None))))
    }

    /// Searches the moves of a node, stores what they come to and returns it. Where every
    /// move was passed over, the node is worth its evaluation.
    fn search_list<H: SearchHost>(
        &mut self,
        ms: &Vec<i16>,
        heat: &ordering::Heat,
        depth: i32,
        alpha: i32,
        beta: i32,
        ply: usize,
        improving: bool,
        tt_move: i16,
        prev_move: i16,
        q_left: i32,
        static_ev: i32,
        node: Ghost<Asked>,
        host: &mut H,
    ) -> (r: Result<(i32, Ghost<(NodeRecord, Seq<Step>, TitaniumSearch)>), TimeUp>)
        requires
            node@ == trace::asked(depth, alpha, beta, ply, node@.allow_null, prev_move, q_left),
            old(self).ready(ply as int),
            old(self).dist.fresh(old(self).g@),
            old(self).dist.fields_are(old(self).g.topo()),
            score_ok(static_ev as int),
            ply + 1 < MAX_PLY,
            1 <= depth <= 512 + ply,
            -INF <= alpha < beta <= INF,
            0 <= q_left,
            prev_move < 256,
            movegen::all_playable(old(self).g@, ms@),
            heat.by_id@.len() == 256,
        ensures
            final(self).ready(ply as int),
            final(self).keeps(old(self), ply as int),
            final(self).nodes >= old(self).nodes,
            // Only the clock ends the search, and it is looked at on every 64th node alone.
            r is Err ==> clock_looked(old(self).nodes, final(self).nodes) && clock_says::<H>(true),
            ms@.len() == 0 ==> r is Ok,
            final(self).path@[ply as int] == old(self).path@[ply as int],
            // The score is what the moves come to, and it is stored.
            r matches Ok((v, found)) ==> {
                &&& score_ok(v as int)
                &&& trace::list_follows::<H>(
                    *old(self),
                    *final(self),
                    node@,
                    tt_move,
                    static_ev,
                    improving,
                    *heat,
                    ms@,
                    found@.0,
                    found@.1,
                    found@.2,
                    v as int,
                )
                &&& trace::step_calls_hold::<H>(found@.1, node@)
            },
            ply == 0 ==> (r matches Ok((v, found)) ==> same_root(*final(self), *old(self))
                || root_searched(*old(self), *final(self), alpha, beta, v)),
            ply == 0 && ms@.len() > 0 ==> (r matches Ok((v, found)) ==> root_searched(
                *old(self),
                *final(self),
                alpha,
                beta,
                v,
            )),
            // Where time is up, the root is what the moves searched to the end come to.
            ply == 0 && r is Err ==> trace::list_broken_off::<H>(
                *old(self),
                *final(self),
                node@,
                tt_move,
                improving,
                *heat,
                ms@,
            ),
        decreases MAX_PLY - ply, q_left, depth, 3int,
    {
        let ghost mut rec = NodeRecord { visits: Seq::empty(), reached: 0 };
        let ghost mut steps: Seq<Step> = Seq::empty();
        let ghost opened = *self;
        let state = match self.search_moves(
            ms,
            heat,
            depth,
            alpha,
            beta,
            ply,
            improving,
            tt_move,
            prev_move,
            q_left,
            node,
            host,
        ) {
            Ok((st, found, made)) => {
                proof {
                    rec = found@;
                    steps = made@;
                }
                st
            },
            Err(e) => {
                return Err(e);
            },
        };
        let ghost searched = *self;
        proof {
            reveal(trace::moves_follow);
        }
        let v: i32 = match state.best {
            None => {
                proof {
                    lemma_nothing_searched(opened, *self, alpha, beta, rec.visits, ply);
                    if must_search(ms@, ply as int) {
                        lemma_must_search(opened, node@, improving, tt_move, ms@, rec, steps);
                    }
                }
                self.evaluate(depth, host)
            },
            Some(best) => {
                let _entry = self.store_node(ply, depth, state, static_ev, host);
                proof {
                    if ply == 0 {
                        lemma_root_searched(
                            opened,
                            searched,
                            *self,
                            alpha,
                            beta,
                            rec.visits,
                            best,
                        );
                    }
                }
                best
            },
        };
        proof {
            assert(trace::list_follows::<H>(
                opened,
                *self,
                node@,
                tt_move,
                static_ev,
                improving,
                *heat,
                ms@,
                rec,
                steps,
                searched,
                v as int,
            )) by {
                reveal(trace::list_follows);
            }
        }
        Ok((v, Ghost((rec, steps, searched))))
    }

    /// Score after passing the turn, searched three plies shallower in a null window.
    fn null_move_score<H: SearchHost>(
        &mut self,
        depth: i32,
        beta: i32,
        ply: usize,
        q_left: i32,
        host: &mut H,
    ) -> (r: Result<(i32, Ghost<Call>), TimeUp>)
        requires
            old(self).ready(ply as int),
            old(self).dist.fresh(old(self).g@),
            old(self).dist.fields_are(old(self).g.topo()),
            ply + 1 < MAX_PLY,
            3 <= depth <= 512 + ply,
            -INF < beta <= INF,
            0 <= q_left,
        ensures
            final(self).ready(ply as int),
            final(self).keeps(old(self), ply as int),
            final(self).dist.fresh(final(self).g@),
            final(self).dist.fields_are(final(self).g.topo()),
            final(self).path@[ply as int] == old(self).path@[ply as int],
            final(self).eval_stack@[ply as int] == old(self).eval_stack@[ply as int],
            final(self).nodes >= one_more(old(self).nodes),
            // Only the clock ends the search, and it is looked at on every 64th node alone.
            r is Err ==> clock_looked(old(self).nodes, final(self).nodes) && clock_says::<H>(true),
            r matches Ok((v, call)) ==> {
                let k = call@;
                &&& score_ok(v as int)
                &&& v == -k.value
                &&& trace::is_result::<H>(k.before, k.after, k.asked, k.value)
                &&& k.asked == trace::asked(
                    (depth - 3) as i32,
                    (-beta) as i32,
                    (-beta + 1) as i32,
                    (ply + 1) as usize,
                    false,
                    0,
                    q_left,
                )
                &&& k.before.g@ == game::passed(old(self).g@)
                &&& trace::same_knowledge(k.before, *old(self))
                &&& k.before.nodes == old(self).nodes
                &&& trace::same_line(k.before, *old(self), ply as int)
                &&& trace::same_knowledge(*final(self), k.after)
                &&& final(self).nodes == k.after.nodes
                &&& trace::same_line(*final(self), *old(self), ply as int)
                &&& final(self).windows@[ply as int] == pruning::merged(
                    old(self).windows@[ply as int],
                    k.after.windows@[ply + 1],
                )
            },
        decreases MAX_PLY - ply, q_left, depth, 1int,
    {
        let ghost start = *self;
        let mark = self.dist.mark();
        self.g.pass_turn();
        let ghost turned = *self;
        let res = self.ab(depth - 3, -beta, -beta + 1, ply + 1, false, 0, q_left, host);
        let ghost searched = *self;
        self.g.pass_turn();
        proof {
            game::law_pass_is_its_own_inverse(start.g@);
            assert(self.dist.f0@[mark.dist0_idx as int] == start.dist.f0@[mark.dist0_idx as int]);
            assert(self.dist.f1@[mark.dist1_idx as int] == start.dist.f1@[mark.dist1_idx as int]);
        }
        self.dist.restore(&mark);
        let merged = pruning::merge_windows(self.windows[ply], self.windows[ply + 1]);
        self.windows.set(ply, merged);
        match res {
            Ok(v) => {
                proof {
                    trace::lemma_same_line(turned, start, ply as int);
                    trace::lemma_same_line(*self, start, ply as int);
                }
                let ghost call = Call {
                    before: turned,
                    after: searched,
                    asked: trace::asked(
                        (depth - 3) as i32,
                        (-beta) as i32,
                        (-beta + 1) as i32,
                        (ply + 1) as usize,
                        false,
                        0,
                        q_left,
                    ),
                    value: v as int,
                };
                Ok((-v, Ghost(call)))
            },
            Err(e) => Err(e),
        }
    }
}

/// Neither a race nor a certificate can decide the node: both players hold walls, more
/// than two in all, and corridors are not asked for.
pub open spec fn is_beyond_proof(s: TitaniumSearch) -> bool {
    s.g@.wl0 > 0 && s.g@.wl1 > 0 && s.g@.wl0 + s.g@.wl1 > 2 && s.cfg.wall_ignore_cert != Some(true)
}

/// A leaf that only its evaluation decides.
pub open spec fn is_quiet_leaf(s: TitaniumSearch, depth: int, ply: int, q_left: int) -> bool {
    &&& depth == 0
    &&& entry_score(s.g@, s.path@, ply) is None
    &&& is_beyond_proof(s)
    &&& q_left == 0 || !s.cfg.q_search || ply == 0
}

/// The searcher's own table does not end the node.
pub open spec fn table_is_silent(s: TitaniumSearch, depth: int, alpha: int, beta: int, ply: int) -> bool {
    !s.use_shared && match s.table.base.lookup(s.g.hash_lo, s.g.hash_hi) {
        Some(e) => entry_usable(e) ==> pruning::table_cut(e, depth, ply, alpha, beta) is None,
        None => true,
    }
}

/// Score by which the searcher's own table ends a node.
pub open spec fn own_table_cut(
    s: TitaniumSearch,
    depth: int,
    alpha: int,
    beta: int,
    ply: int,
) -> Option<i32> {
    match s.table.base.lookup(s.g.hash_lo, s.g.hash_hi) {
        Some(e) => match pruning::table_cut(e, depth, ply, alpha, beta) {
            Some(v) => if entry_usable(e) {
                Some(num::clamped(v, -INF as int, INF as int) as i32)
            } else {
                None
            },
            None => None,
        },
        None => None,
    }
}

/// The race layers read position, switches and prover alone.
proof fn lemma_race_cut_by_prover<H: SearchHost>(
    a: TitaniumSearch,
    b: TitaniumSearch,
    after: RaceProver,
    alpha: i32,
    beta: i32,
    cut: Option<i32>,
)
    requires
        race_cut_follows::<H>(b, after, alpha, beta, cut),
        a.g@ == b.g@,
        a.cfg == b.cfg,
        a.prover == b.prover,
    ensures
        race_cut_follows::<H>(a, after, alpha, beta, cut),
{
    assert forall|h: H| #[trigger] deduction_follows(b, h, alpha, beta, cut) implies
        deduction_follows(a, h, alpha, beta, cut) by {}
    assert(layers_owed(a, alpha, beta, cut) == layers_owed(b, alpha, beta, cut));
    if let Some(v) = cut {
        assert forall|x: RaceBound| #[trigger] race_bound_cuts::<H>(b, x, alpha, beta, v) implies
            race_bound_cuts::<H>(a, x, alpha, beta, v) by {}
    }
}

/// No evaluation is far enough above the window to end the node.
pub open spec fn no_futility(s: TitaniumSearch, depth: int, beta: int) -> bool {
    beta >= 2000 || beta <= -2000 || (pruning::futility_margin(
        depth,
        true,
        s.cfg.ace_rfp,
        s.cfg.ace_rfp_max_depth as int,
    ) is None && pruning::futility_margin(
        depth,
        false,
        s.cfg.ace_rfp,
        s.cfg.ace_rfp_max_depth as int,
    ) is None)
}

/// Nothing but its moves decides the node, a pass or a probe below the root aside.
pub open spec fn node_is_open(
    s: TitaniumSearch,
    depth: int,
    alpha: int,
    beta: int,
    ply: int,
) -> bool {
    &&& depth > 0
    &&& entry_score(s.g@, s.path@, ply) is None
    &&& is_beyond_proof(s)
    &&& no_futility(s, depth, beta)
    &&& if ply == 0 {
        &&& movegen::generated(s.g@, true, movegen::WallPolicy::Lazy, Seq::empty(), 0).len() > 0
        &&& s.lazy.moves matches Some(ms) ==> ms@.len() > 0 && s.lazy.allowed > 0
    } else {
        table_is_silent(s, depth, alpha, beta, ply) && game::pawn_moves(s.g@).len() > 0
    }
}

/// Where the moves decide, the generated list is not empty and cannot be passed over.
proof fn lemma_moves_are_listed(
    s: TitaniumSearch,
    ply: int,
    relevant: Seq<bool>,
    tt_move: int,
    list: Seq<i16>,
    depth: int,
    alpha: int,
    beta: int,
)
    requires
        0 <= ply,
        game::position_ok(s.g@),
        lists_moves(s.g@, s.cfg, ply, relevant, tt_move, list),
    ensures
        node_is_open(s, depth, alpha, beta, ply) ==> list.len() > 0 && (ply > 0 ==> must_search(
            list,
            ply,
        )),
{
    if node_is_open(s, depth, alpha, beta, ply) && ply > 0 {
        let p = s.g@;
        let all = movegen::generated(
            p,
            false,
            movegen::policy_of(s.cfg.ti_movegen, s.cfg.cat_walls, s.cfg.dead_zone_prune),
            relevant,
            tt_move,
        );
        let pawns = game::pawn_moves(p);
        assert(all[0] == pawns[0]);
        assert(all.contains(pawns[0]));
        assert(list.contains(pawns[0]));
        let i = choose|i: int| 0 <= i < list.len() && list[i] == pawns[0];
        game::lemma_targets_on_board(
            p.w,
            game::pawn_of(p, p.turn),
            game::pawn_of(p, 1 - p.turn),
            4,
        );
        assert(moves::pawn_id(list[i] as int));
    }
}

/// A list that cannot be passed over as a whole: at the root any move, below it a pawn move.
pub open spec fn must_search(ms: Seq<i16>, ply: int) -> bool {
    ms.len() > 0 && (ply == 0 || exists|i: int|
        0 <= i < ms.len() && moves::pawn_id(#[trigger] ms[i] as int))
}

proof fn lemma_must_search(
    o: TitaniumSearch,
    c: Asked,
    improving: bool,
    tt_move: i16,
    ms: Seq<i16>,
    rec: NodeRecord,
    steps: Seq<Step>,
)
    requires
        record_ok(o, c, improving, tt_move, ms, rec, steps),
        must_search(ms, c.ply),
        rec.reached == ms.len(),
    ensures
        rec.visits.len() > 0,
{
    reveal(record_ok);
    reveal(passes_over);
    let i = if c.ply == 0 {
        0
    } else {
        choose|i: int| 0 <= i < ms.len() && moves::pawn_id(#[trigger] ms[i] as int)
    };
    assert(separates(rec.visits, i, 0) || rec.visits.len() > 0);
}

/// What a node did with its moves: the ones searched, and how many places were come to.
pub struct NodeRecord {
    pub visits: Seq<pruning::Visit>,
    pub reached: int,
}

/// An equal score by `m` is preferred at the root: the best move repeats a position of the
/// game, and `m` does not.
pub open spec fn prefers_move(p: game::Position, ply: int, state: NodeState, score: i32, m: i16) -> bool {
    ply == 0 && state.best == Some(score) && state.best_move != 0 && game::repeats_history(
        game::played(p, state.best_move as int),
    ) && !game::repeats_history(game::played(p, m as int))
}

/// The wall would seal a pawn in. Below the root walls may be listed unchecked.
pub open spec fn seals(p: game::Position, cfg: SearchConfig, ply: int, m: i16) -> bool {
    &&& moves::wall_id(m as int)
    &&& ply > 0
    &&& movegen::policy_of(cfg.ti_movegen, cfg.cat_walls, cfg.dead_zone_prune)
        != movegen::WallPolicy::Legal
    &&& !game::wall_is_legal(
        p,
        if moves::hwall_id(m as int) {
            0
        } else {
            1
        },
        moves::slot_of(m as int),
    )
}

/// The move at place `k` is passed over: a late wall, by the statistics and the best score so
/// far, or one that would seal a pawn in.
#[verifier::opaque]
pub open spec fn passes_over(
    p: game::Position,
    cfg: SearchConfig,
    hist: History,
    depth: int,
    ply: int,
    improving: bool,
    tt_move: i16,
    k: int,
    m: i16,
    best: Option<i32>,
) -> bool {
    pruning::late_wall(
        k,
        depth,
        ply,
        improving,
        cfg.ace_lmp,
        m as int,
        tt_move as int,
        hist.hist_of(p.turn, m as int),
        match best {
            Some(b) => b as int,
            None => i32::MIN as int,
        },
    ) || seals(p, cfg, ply, m)
}

/// The first `j` searched moves are those before place `k`.
pub open spec fn separates(visits: Seq<pruning::Visit>, k: int, j: int) -> bool {
    &&& 0 <= j <= visits.len()
    &&& j > 0 ==> visits[j - 1].place < k
    &&& j < visits.len() ==> visits[j].place >= k
}

/// The move at place `k` is passed over, after the first `j` searched moves.
pub open spec fn left_out(
    o: TitaniumSearch,
    c: Asked,
    improving: bool,
    tt_move: i16,
    ms: Seq<i16>,
    visits: Seq<pruning::Visit>,
    steps: Seq<Step>,
    k: int,
    j: int,
) -> bool {
    passes_over(
        o.g@,
        o.cfg,
        trace::before_step(o, steps, j).hist,
        c.depth,
        c.ply,
        improving,
        tt_move,
        k,
        ms[k],
        trace::node_state(c, visits.take(j)).best,
    )
}

/// The searched moves stand in the list, in its order, and of the places come to exactly
/// those were not searched that the rule passes over.
#[verifier::opaque]
pub open spec fn record_ok(
    o: TitaniumSearch,
    c: Asked,
    improving: bool,
    tt_move: i16,
    ms: Seq<i16>,
    rec: NodeRecord,
    steps: Seq<Step>,
) -> bool {
    let visits = rec.visits;
    &&& 0 <= rec.reached <= ms.len()
    &&& steps.len() == visits.len()
    &&& forall|j: int|
        0 <= j < visits.len() ==> 0 <= (#[trigger] visits[j]).place < rec.reached && visits[j].m
            == ms[visits[j].place]
    &&& forall|j: int, k: int|
        0 <= j < k < visits.len() ==> (#[trigger] visits[j]).place < (#[trigger] visits[k]).place
    &&& forall|k: int, j: int|
        0 <= k < rec.reached && #[trigger] separates(visits, k, j) ==> (j < visits.len()
            && visits[j].place == k) == !left_out(
            o,
            c,
            improving,
            tt_move,
            ms,
            visits,
            steps,
            k,
            j,
        )
}

/// No wall that would seal a pawn in is searched.
pub proof fn law_no_sealing_wall_is_searched(
    o: TitaniumSearch,
    c: Asked,
    improving: bool,
    tt_move: i16,
    ms: Seq<i16>,
    rec: NodeRecord,
    steps: Seq<Step>,
    j: int,
)
    requires
        record_ok(o, c, improving, tt_move, ms, rec, steps),
        0 <= j < rec.visits.len(),
    ensures
        !seals(o.g@, o.cfg, c.ply, rec.visits[j].m),
{
    reveal(record_ok);
    reveal(passes_over);
    let k = rec.visits[j].place;
    if j > 0 {
        assert(rec.visits[j - 1].place < rec.visits[j].place);
    }
    assert(separates(rec.visits, k, j));
}

/// No move yet.
proof fn lemma_moves_start<H: SearchHost>(
    o: TitaniumSearch,
    c: Asked,
    tt_move: i16,
    improving: bool,
    heat: ordering::Heat,
    ms: Seq<i16>,
)
    ensures
        trace::moves_follow::<H>(
            o,
            c,
            tt_move,
            improving,
            heat,
            ms,
            (NodeRecord { visits: Seq::empty(), reached: 0 }),
            Seq::empty(),
        ),
        trace::step_calls_hold::<H>(Seq::empty(), c),
{
    reveal(trace::moves_follow);
    lemma_record_starts(o, c, improving, tt_move, ms);
    trace::lemma_no_steps::<H>(o, c, tt_move, heat);
}

/// One move more was searched.
proof fn lemma_move_searched<H: SearchHost>(
    o: TitaniumSearch,
    c: Asked,
    tt_move: i16,
    improving: bool,
    heat: ordering::Heat,
    ms: Seq<i16>,
    rec: NodeRecord,
    steps: Seq<Step>,
    v: pruning::Visit,
    s: Step,
)
    requires
        trace::moves_follow::<H>(o, c, tt_move, improving, heat, ms, rec, steps),
        trace::step_calls_hold::<H>(steps, c),
        rec.visits.len() == steps.len(),
        v.place == rec.reached,
        v.place < ms.len(),
        v.m == ms[v.place],
        !left_out(
            o,
            c,
            improving,
            tt_move,
            ms,
            rec.visits,
            steps,
            v.place,
            rec.visits.len() as int,
        ),
        trace::step_ok::<H>(c, tt_move, heat, (pruning::Visit { prefer: false, ..v }), s),
        trace::calls_hold::<H>(s.calls, c),
        trace::linked_node(trace::before_step(o, steps, steps.len() as int), s.now, c.ply),
        v.alpha == trace::node_state(c, rec.visits).alpha,
        v.prefer == prefers_move(o.g@, c.ply, trace::node_state(c, rec.visits), v.score, v.m),
    ensures
        trace::moves_follow::<H>(
            o,
            c,
            tt_move,
            improving,
            heat,
            ms,
            (NodeRecord { visits: rec.visits.push(v), reached: v.place + 1 }),
            steps.push(s),
        ),
        trace::step_calls_hold::<H>(steps.push(s), c),
        trace::before_step(o, steps.push(s), steps.len() as int + 1) == s.end,
        trace::node_state(c, rec.visits.push(v)) == pruning::absorbed(
            trace::node_state(c, rec.visits),
            v.score,
            v.m,
            v.prefer,
            c.beta as int,
        ),
{
    reveal(trace::moves_follow);
    lemma_visit_follows(c.alpha, c.beta, rec.visits, v);
    trace::lemma_step_by_visit::<H>(
        c,
        tt_move,
        heat,
        pruning::Visit { prefer: false, ..v },
        v,
        s,
    );
    trace::lemma_one_more_step::<H>(o, c, tt_move, heat, rec.visits, steps, v, s);
    lemma_record_visit(o, c, improving, tt_move, ms, rec, steps, v, s);
    let now = rec.visits.push(v);
    assert(now.drop_last() =~= rec.visits);
    assert forall|k: int| 0 <= k < now.len() implies (#[trigger] now[k]).prefer == prefers_move(
        o.g@,
        c.ply,
        trace::node_state(c, now.take(k)),
        now[k].score,
        now[k].m,
    ) by {
        assert(now.take(k) =~= rec.visits.take(k));
        if k == rec.visits.len() {
            assert(rec.visits.take(k) =~= rec.visits);
        } else {
            assert(now[k] == rec.visits[k]);
        }
    }
}

/// One move more was passed over.
proof fn lemma_move_passed_over<H: SearchHost>(
    o: TitaniumSearch,
    c: Asked,
    tt_move: i16,
    improving: bool,
    heat: ordering::Heat,
    ms: Seq<i16>,
    rec: NodeRecord,
    steps: Seq<Step>,
)
    requires
        trace::moves_follow::<H>(o, c, tt_move, improving, heat, ms, rec, steps),
        rec.reached < ms.len(),
        left_out(
            o,
            c,
            improving,
            tt_move,
            ms,
            rec.visits,
            steps,
            rec.reached,
            rec.visits.len() as int,
        ),
    ensures
        trace::moves_follow::<H>(
            o,
            c,
            tt_move,
            improving,
            heat,
            ms,
            (NodeRecord { visits: rec.visits, reached: rec.reached + 1 }),
            steps,
        ),
{
    reveal(trace::moves_follow);
    lemma_record_left_out(o, c, improving, tt_move, ms, rec, steps);
}

proof fn lemma_record_starts(
    o: TitaniumSearch,
    c: Asked,
    improving: bool,
    tt_move: i16,
    ms: Seq<i16>,
)
    ensures
        record_ok(
            o,
            c,
            improving,
            tt_move,
            ms,
            (NodeRecord { visits: Seq::empty(), reached: 0 }),
            Seq::empty(),
        ),
{
    reveal(record_ok);
}

proof fn lemma_record_visit(
    o: TitaniumSearch,
    c: Asked,
    improving: bool,
    tt_move: i16,
    ms: Seq<i16>,
    rec: NodeRecord,
    steps: Seq<Step>,
    v: pruning::Visit,
    s: Step,
)
    requires
        record_ok(o, c, improving, tt_move, ms, rec, steps),
        v.place == rec.reached,
        v.place < ms.len(),
        v.m == ms[v.place],
        !left_out(
            o,
            c,
            improving,
            tt_move,
            ms,
            rec.visits,
            steps,
            v.place,
            rec.visits.len() as int,
        ),
    ensures
        record_ok(
            o,
            c,
            improving,
            tt_move,
            ms,
            (NodeRecord { visits: rec.visits.push(v), reached: v.place + 1 }),
            steps.push(s),
        ),
{
    reveal(record_ok);
    let visits = rec.visits;
    let n = visits.len() as int;
    let more = visits.push(v);
    let all = steps.push(s);
    assert forall|k: int, j: int|
        0 <= k < v.place + 1 && #[trigger] separates(more, k, j) implies (j < more.len()
        && more[j].place == k) == !left_out(o, c, improving, tt_move, ms, more, all, k, j) by {
        if j > n {
            assert(more[n].place == v.place);
        } else {
            assert(more.take(j) =~= visits.take(j));
            assert(trace::before_step(o, all, j) == trace::before_step(o, steps, j));
            if j > 0 {
                assert(more[j - 1] == visits[j - 1]);
            }
            if j < n {
                assert(more[j] == visits[j]);
            }
            if k < v.place {
                assert(separates(visits, k, j));
            } else if j < n {
                assert(visits[j].place < rec.reached);
            }
        }
    }
    assert forall|j: int| 0 <= j < more.len() implies 0 <= (#[trigger] more[j]).place < v.place + 1
        && more[j].m == ms[more[j].place] by {
        if j < n {
            assert(more[j] == visits[j]);
        }
    }
    assert forall|j: int, k: int| 0 <= j < k < more.len() implies (#[trigger] more[j]).place < (
    #[trigger] more[k]).place by {
        assert(more[j] == visits[j]);
        if k < n {
            assert(more[k] == visits[k]);
        }
    }
}

proof fn lemma_record_left_out(
    o: TitaniumSearch,
    c: Asked,
    improving: bool,
    tt_move: i16,
    ms: Seq<i16>,
    rec: NodeRecord,
    steps: Seq<Step>,
)
    requires
        record_ok(o, c, improving, tt_move, ms, rec, steps),
        rec.reached < ms.len(),
        left_out(
            o,
            c,
            improving,
            tt_move,
            ms,
            rec.visits,
            steps,
            rec.reached,
            rec.visits.len() as int,
        ),
    ensures
        record_ok(
            o,
            c,
            improving,
            tt_move,
            ms,
            (NodeRecord { visits: rec.visits, reached: rec.reached + 1 }),
            steps,
        ),
{
    reveal(record_ok);
    let visits = rec.visits;
    assert forall|k: int, j: int|
        0 <= k < rec.reached + 1 && #[trigger] separates(visits, k, j) implies (j < visits.len()
        && visits[j].place == k) == !left_out(o, c, improving, tt_move, ms, visits, steps, k, j) by {
        if k == rec.reached && j < visits.len() {
            assert(visits[j].place < rec.reached);
        }
    }
}

proof fn lemma_visit_follows(alpha: i32, beta: i32, visits: Seq<pruning::Visit>, v: pruning::Visit)
    requires
        pruning::prefers_equals(pruning::node_start(alpha), visits, beta as int),
        v.prefer ==> pruning::absorbed_all(
            pruning::node_start(alpha),
            visits,
            beta as int,
        ).best == Some(v.score),
        pruning::windows_follow(pruning::node_start(alpha), visits, beta as int),
        v.alpha == pruning::absorbed_all(pruning::node_start(alpha), visits, beta as int).alpha,
    ensures
        pruning::windows_follow(pruning::node_start(alpha), visits.push(v), beta as int),
        pruning::prefers_equals(pruning::node_start(alpha), visits.push(v), beta as int),
        pruning::absorbed_all(pruning::node_start(alpha), visits.push(v), beta as int)
            == pruning::absorbed(
            pruning::absorbed_all(pruning::node_start(alpha), visits, beta as int),
            v.score,
            v.m,
            v.prefer,
            beta as int,
        ),
{
    let now = visits.push(v);
    assert(now.drop_last() =~= visits);
    assert forall|k: int| 0 <= k < now.len() implies (#[trigger] now[k]).alpha
        == pruning::absorbed_all(pruning::node_start(alpha), now.take(k), beta as int).alpha by {
        assert(now.take(k) =~= visits.take(k));
        if k == visits.len() {
            assert(visits.take(k) =~= visits);
        } else {
            assert(now[k] == visits[k]);
        }
    }
    assert forall|k: int| 0 <= k < now.len() && (#[trigger] now[k]).prefer implies pruning::absorbed_all(
        pruning::node_start(alpha),
        now.take(k),
        beta as int,
    ).best == Some(now[k].score) by {
        assert(now.take(k) =~= visits.take(k));
        if k == visits.len() {
            assert(visits.take(k) =~= visits);
        } else {
            assert(now[k] == visits[k]);
        }
    }
}

/// Scores of the root moves after these were searched.
pub open spec fn noted_all(ms: Seq<(i16, i32)>, visits: Seq<pruning::Visit>) -> Seq<(i16, i32)>
    decreases visits.len(),
{
    if visits.len() == 0 {
        ms
    } else {
        noted(noted_all(ms, visits.drop_last()), visits.last().m, visits.last().score)
    }
}

/// The root's best move and score after these were searched: the last one that raised
/// alpha.
pub open spec fn root_raised(
    best: (i16, i32),
    alpha: i32,
    beta: int,
    visits: Seq<pruning::Visit>,
) -> (i16, i32)
    decreases visits.len(),
{
    if visits.len() == 0 {
        best
    } else {
        let v = visits.last();
        let before = pruning::absorbed_all(
            pruning::node_start(alpha),
            visits.drop_last(),
            beta,
        );
        if pruning::raises(before, v.score as int, v.prefer) {
            (v.m, v.score)
        } else {
            root_raised(best, alpha, beta, visits.drop_last())
        }
    }
}

/// The best pawn move of the root after these were searched.
pub open spec fn root_pawn_raised(best: (i16, Option<i32>), visits: Seq<pruning::Visit>) -> (
    i16,
    Option<i32>,
)
    decreases visits.len(),
{
    if visits.len() == 0 {
        best
    } else {
        let v = visits.last();
        let (m, sc) = root_pawn_raised(best, visits.drop_last());
        if moves::pawn_id(v.m as int) && (sc is None || v.score > sc->0) {
            (v.m, Some(v.score))
        } else {
            (m, sc)
        }
    }
}

/// What is known of the root follows from the moves searched there.
#[verifier::opaque]
pub open spec fn root_follows(
    before: TitaniumSearch,
    after: TitaniumSearch,
    alpha: i32,
    beta: i32,
    visits: Seq<pruning::Visit>,
) -> bool {
    &&& after.root_moves@ == noted_all(before.root_moves@, visits)
    &&& (after.root_best, after.root_score) == root_raised(
        (before.root_best, before.root_score),
        alpha,
        beta as int,
        visits,
    )
    &&& (after.root_pawn_best, after.root_pawn_score) == root_pawn_raised(
        (before.root_pawn_best, before.root_pawn_score),
        visits,
    )
}

proof fn lemma_root_starts(s: TitaniumSearch, alpha: i32, beta: i32)
    ensures
        root_follows(s, s, alpha, beta, Seq::empty()),
{
    reveal(root_follows);
}

/// What is known of the root is what it was, or that of a searched move.
pub proof fn lemma_root_follows_a_visit(
    before: TitaniumSearch,
    after: TitaniumSearch,
    alpha: i32,
    beta: i32,
    visits: Seq<pruning::Visit>,
)
    requires
        root_follows(before, after, alpha, beta, visits),
    ensures
        (after.root_best, after.root_score) == (before.root_best, before.root_score) || exists|j: int|
            0 <= j < visits.len() && (#[trigger] visits[j]).m == after.root_best && visits[j].score
                == after.root_score,
{
    reveal(root_follows);
    lemma_raised_by_a_visit((before.root_best, before.root_score), alpha, beta as int, visits);
}

proof fn lemma_raised_by_a_visit(
    best: (i16, i32),
    alpha: i32,
    beta: int,
    visits: Seq<pruning::Visit>,
)
    ensures
        ({
            let r = root_raised(best, alpha, beta, visits);
            r == best || exists|j: int|
                0 <= j < visits.len() && (#[trigger] visits[j]).m == r.0 && visits[j].score == r.1
        }),
    decreases visits.len(),
{
    if visits.len() > 0 {
        let rest = visits.drop_last();
        lemma_raised_by_a_visit(best, alpha, beta, rest);
        let r = root_raised(best, alpha, beta, visits);
        let u = root_raised(best, alpha, beta, rest);
        if r == u && r != best {
            let j = choose|j: int|
                0 <= j < rest.len() && (#[trigger] rest[j]).m == r.0 && rest[j].score == r.1;
            assert(visits[j] == rest[j]);
        } else if r != u {
            assert(visits[visits.len() - 1] == visits.last());
        }
    }
}

/// The root's records of two states agree.
pub open spec fn same_root(a: TitaniumSearch, b: TitaniumSearch) -> bool {
    &&& a.root_moves@ == b.root_moves@
    &&& a.root_best == b.root_best
    &&& a.root_score == b.root_score
    &&& a.root_pawn_best == b.root_pawn_best
    &&& a.root_pawn_score == b.root_pawn_score
}

/// The root was searched to score `v`.
pub open spec fn root_searched(
    before: TitaniumSearch,
    after: TitaniumSearch,
    alpha: i32,
    beta: i32,
    v: i32,
) -> bool {
    exists|visits: Seq<pruning::Visit>|
        #![trigger root_follows(before, after, alpha, beta, visits)]
        {
            &&& root_follows(before, after, alpha, beta, visits)
            &&& pruning::prefers_equals(pruning::node_start(alpha), visits, beta as int)
            &&& pruning::absorbed_all(pruning::node_start(alpha), visits, beta as int).best == Some(
                v,
            )
        }
}

proof fn lemma_nothing_searched(
    before: TitaniumSearch,
    after: TitaniumSearch,
    alpha: i32,
    beta: i32,
    visits: Seq<pruning::Visit>,
    ply: usize,
)
    requires
        ply == 0 ==> root_follows(before, after, alpha, beta, visits),
        pruning::absorbed_all(pruning::node_start(alpha), visits, beta as int).best is None,
    ensures
        ply == 0 ==> same_root(after, before),
        visits.len() == 0,
{
    reveal(root_follows);
    if visits.len() > 0 {
        let v = visits.last();
        let rest = pruning::absorbed_all(
            pruning::node_start(alpha),
            visits.drop_last(),
            beta as int,
        );
        assert(pruning::absorbed(rest, v.score, v.m, v.prefer, beta as int).best is Some);
    }
}

proof fn lemma_root_searched(
    opened: TitaniumSearch,
    searched: TitaniumSearch,
    after: TitaniumSearch,
    alpha: i32,
    beta: i32,
    visits: Seq<pruning::Visit>,
    v: i32,
)
    requires
        root_follows(opened, searched, alpha, beta, visits),
        same_root(after, searched),
        pruning::prefers_equals(pruning::node_start(alpha), visits, beta as int),
        pruning::absorbed_all(pruning::node_start(alpha), visits, beta as int).best == Some(v),
    ensures
        root_searched(opened, after, alpha, beta, v),
{
    lemma_root_kept(opened, searched, after, alpha, beta, visits);
}

proof fn lemma_root_searched_since(
    start: TitaniumSearch,
    opened: TitaniumSearch,
    after: TitaniumSearch,
    alpha: i32,
    beta: i32,
    v: i32,
)
    requires
        same_root(opened, start),
    ensures
        root_searched(opened, after, alpha, beta, v) ==> root_searched(start, after, alpha, beta, v),
{
    reveal(root_follows);
    if root_searched(opened, after, alpha, beta, v) {
        let visits = choose|visits: Seq<pruning::Visit>|
            #![trigger root_follows(opened, after, alpha, beta, visits)]
            {
                &&& root_follows(opened, after, alpha, beta, visits)
                &&& pruning::prefers_equals(pruning::node_start(alpha), visits, beta as int)
                &&& pruning::absorbed_all(
                    pruning::node_start(alpha),
                    visits,
                    beta as int,
                ).best == Some(v)
            };
        assert(root_follows(start, after, alpha, beta, visits));
    }
}

/// A root score above the lower end of the window is the best move's, and that move is
/// among the scored ones.
pub proof fn law_root_best_has_the_score(
    before: TitaniumSearch,
    after: TitaniumSearch,
    alpha: i32,
    beta: i32,
    v: i32,
)
    requires
        root_searched(before, after, alpha, beta, v),
        alpha < beta,
        v > alpha,
    ensures
        after.root_score == v,
        exists|i: int|
            0 <= i < after.root_moves@.len() && (#[trigger] after.root_moves@[i]).0
                == after.root_best && after.root_moves@[i].1 >= v,
{
    reveal(root_follows);
    let visits = choose|visits: Seq<pruning::Visit>|
        #![trigger root_follows(before, after, alpha, beta, visits)]
        {
            &&& root_follows(before, after, alpha, beta, visits)
            &&& pruning::prefers_equals(pruning::node_start(alpha), visits, beta as int)
            &&& pruning::absorbed_all(pruning::node_start(alpha), visits, beta as int).best == Some(
                v,
            )
        };
    lemma_raised_is_best((before.root_best, before.root_score), alpha, beta as int, visits);
    lemma_noted_all_has(before.root_moves@, visits, alpha, beta as int);
}

proof fn lemma_raised_is_best(
    best: (i16, i32),
    alpha: i32,
    beta: int,
    visits: Seq<pruning::Visit>,
)
    ensures
        ({
            let s = pruning::absorbed_all(pruning::node_start(alpha), visits, beta);
            &&& s.best is Some && (s.best->0 > alpha || s.best->0 == s.alpha) ==> root_raised(
                best,
                alpha,
                beta,
                visits,
            ) == (s.best_move, s.best->0) || s.alpha == alpha
            &&& s.best is Some && s.best->0 > alpha ==> root_raised(best, alpha, beta, visits) == (
                s.best_move,
                s.best->0,
            ) && s.alpha == s.best->0
            &&& s.alpha == alpha || (s.best is Some && s.alpha == s.best->0)
            &&& s.best is None ==> visits.len() == 0
        }),
    decreases visits.len(),
{
    if visits.len() > 0 {
        lemma_raised_is_best(best, alpha, beta, visits.drop_last());
    }
}

/// A noted list has an entry for the move, at least as high.
proof fn lemma_noted_has(ms: Seq<(i16, i32)>, m: i16, score: i32, x: i16, low: int)
    requires
        (x == m && score >= low) || exists|i: int|
            0 <= i < ms.len() && (#[trigger] ms[i]).0 == x && ms[i].1 >= low,
    ensures
        exists|i: int|
            0 <= i < noted(ms, m, score).len() && (#[trigger] noted(ms, m, score)[i]).0 == x
                && noted(ms, m, score)[i].1 >= low,
    decreases ms.len(),
{
    let out = noted(ms, m, score);
    if ms.len() == 0 {
        assert(out[0] == (m, score));
    } else if ms[0].0 == m {
        if x == m {
            if score >= low {
                assert(out[0].0 == x && out[0].1 >= low);
            } else {
                let i = choose|i: int| 0 <= i < ms.len() && (#[trigger] ms[i]).0 == x && ms[i].1 >= low;
                if i > 0 || score <= ms[0].1 {
                    assert(out[i] == ms[i]);
                } else {
                    assert(out[0] == (m, score));
                }
            }
        } else {
            let i = choose|i: int| 0 <= i < ms.len() && (#[trigger] ms[i]).0 == x && ms[i].1 >= low;
            assert(i > 0);
            assert(out[i] == ms[i]);
        }
    } else {
        let rest = ms.drop_first();
        if x == m && score >= low {
            lemma_noted_has(rest, m, score, x, low);
        } else {
            let i = choose|i: int| 0 <= i < ms.len() && (#[trigger] ms[i]).0 == x && ms[i].1 >= low;
            if i > 0 {
                assert(rest[i - 1] == ms[i]);
                lemma_noted_has(rest, m, score, x, low);
            }
        }
        if ms[0].0 == x && ms[0].1 >= low {
            assert(out[0] == ms[0]);
        } else {
            let sub = noted(rest, m, score);
            let j = choose|j: int|
                0 <= j < sub.len() && (#[trigger] sub[j]).0 == x && sub[j].1 >= low;
            assert(out[j + 1] == sub[j]);
        }
    }
}

proof fn lemma_noted_all_has(
    ms: Seq<(i16, i32)>,
    visits: Seq<pruning::Visit>,
    alpha: i32,
    beta: int,
)
    ensures
        ({
            let s = pruning::absorbed_all(pruning::node_start(alpha), visits, beta);
            let out = noted_all(ms, visits);
            s.best is Some ==> exists|i: int|
                0 <= i < out.len() && (#[trigger] out[i]).0 == s.best_move && out[i].1
                    >= s.best->0
        }),
    decreases visits.len(),
{
    if visits.len() > 0 {
        let rest = visits.drop_last();
        let v = visits.last();
        lemma_noted_all_has(ms, rest, alpha, beta);
        let s = pruning::absorbed_all(pruning::node_start(alpha), visits, beta);
        let earlier = noted_all(ms, rest);
        assert(noted_all(ms, visits) == noted(earlier, v.m, v.score));
        lemma_noted_has(earlier, v.m, v.score, s.best_move, s.best->0 as int);
    }
}

proof fn lemma_root_kept(
    start: TitaniumSearch,
    mid: TitaniumSearch,
    after: TitaniumSearch,
    alpha: i32,
    beta: i32,
    visits: Seq<pruning::Visit>,
)
    requires
        root_follows(start, mid, alpha, beta, visits),
        same_root(after, mid),
    ensures
        root_follows(start, after, alpha, beta, visits),
{
    reveal(root_follows);
}

proof fn lemma_root_visit(
    start: TitaniumSearch,
    mid: TitaniumSearch,
    after: TitaniumSearch,
    alpha: i32,
    beta: i32,
    visits: Seq<pruning::Visit>,
    v: pruning::Visit,
)
    requires
        root_follows(start, mid, alpha, beta, visits),
        after.root_moves@ == noted(mid.root_moves@, v.m, v.score),
        (after.root_best, after.root_score) == if pruning::raises(
            pruning::absorbed_all(pruning::node_start(alpha), visits, beta as int),
            v.score as int,
            v.prefer,
        ) {
            (v.m, v.score)
        } else {
            (mid.root_best, mid.root_score)
        },
        (after.root_pawn_best, after.root_pawn_score) == if moves::pawn_id(v.m as int) && (
        mid.root_pawn_score is None || v.score > mid.root_pawn_score->0) {
            (v.m, Some(v.score))
        } else {
            (mid.root_pawn_best, mid.root_pawn_score)
        },
    ensures
        root_follows(start, after, alpha, beta, visits.push(v)),
{
    reveal(root_follows);
    assert(visits.push(v).drop_last() =~= visits);
}

/// Best score of each root move after one more was searched.
pub open spec fn noted(ms: Seq<(i16, i32)>, m: i16, score: i32) -> Seq<(i16, i32)>
    decreases ms.len(),
{
    if ms.len() == 0 {
        seq![(m, score)]
    } else if ms[0].0 == m {
        if score > ms[0].1 {
            ms.update(0, (m, score))
        } else {
            ms
        }
    } else {
        seq![ms[0]] + noted(ms.drop_first(), m, score)
    }
}

proof fn lemma_noted_at(ms: Seq<(i16, i32)>, m: i16, score: i32, i: int)
    requires
        0 <= i < ms.len(),
        ms[i].0 == m,
        forall|k: int| 0 <= k < i ==> (#[trigger] ms[k]).0 != m,
    ensures
        noted(ms, m, score) == if score > ms[i].1 {
            ms.update(i, (m, score))
        } else {
            ms
        },
    decreases ms.len(),
{
    if i > 0 {
        assert(ms[0].0 != m);
        lemma_noted_at(ms.drop_first(), m, score, i - 1);
        assert(ms =~= seq![ms[0]] + ms.drop_first());
        assert(ms.update(i, (m, score)) =~= seq![ms[0]] + ms.drop_first().update(i - 1, (m, score)));
    }
}

proof fn lemma_noted_new(ms: Seq<(i16, i32)>, m: i16, score: i32)
    requires
        forall|k: int| 0 <= k < ms.len() ==> (#[trigger] ms[k]).0 != m,
    ensures
        noted(ms, m, score) == ms.push((m, score)),
    decreases ms.len(),
{
    if ms.len() > 0 {
        assert(ms[0].0 != m);
        lemma_noted_new(ms.drop_first(), m, score);
        assert(ms.push((m, score)) =~= seq![ms[0]] + ms.drop_first().push((m, score)));
    } else {
        assert(ms.push((m, score)) =~= seq![(m, score)]);
    }
}

/// `ms` lists exactly the moves generated for a node.
pub open spec fn lists_moves(
    p: game::Position,
    cfg: SearchConfig,
    ply: int,
    relevant: Seq<bool>,
    tt_move: int,
    ms: Seq<i16>,
) -> bool {
    let all = movegen::generated(
        p,
        ply == 0,
        movegen::policy_of(cfg.ti_movegen, cfg.cat_walls, cfg.dead_zone_prune),
        relevant,
        tt_move,
    );
    ms.len() == all.len() && forall|m: i16| #[trigger] ms.contains(m) == all.contains(m)
}

pub proof fn lemma_same_moves_playable(p: game::Position, ms: Seq<i16>, out: Seq<i16>)
    requires
        movegen::all_playable(p, ms),
        ordering::same_moves(ms, out),
    ensures
        movegen::all_playable(p, out),
{
    assert forall|i: int| 0 <= i < out.len() implies movegen::playable(
        p,
        #[trigger] out[i] as int,
    ) by {
        assert(out.contains(out[i]));
        let k = choose|k: int| 0 <= k < ms.len() && ms[k] == out[i];
        assert(movegen::playable(p, ms[k] as int));
    }
}

pub(crate) fn copy_moves(v: &Vec<i16>) -> (r: Vec<i16>)
    ensures
        r@ == v@,
{
    let mut r: Vec<i16> = Vec::new();
    let n: usize = v.len();
    let mut i: usize = 0;
    while i < n
        invariant
            i <= n,
            n == v@.len(),
            r@ == v@.take(i as int),
        decreases n - i,
    {
        r.push(v[i]);
        i += 1;
        assert(r@ =~= v@.take(i as int));
    }
    assert(v@.take(n as int) =~= v@);
    r
}

pub(crate) fn copy_scores(v: &Vec<(i16, i32)>) -> (r: Vec<(i16, i32)>)
    ensures
        r@ == v@,
{
    let mut r: Vec<(i16, i32)> = Vec::new();
    let n: usize = v.len();
    let mut i: usize = 0;
    while i < n
        invariant
            i <= n,
            n == v@.len(),
            r@ == v@.take(i as int),
        decreases n - i,
    {
        r.push(v[i]);
        i += 1;
        assert(r@ =~= v@.take(i as int));
    }
    assert(v@.take(n as int) =~= v@);
    r
}

pub(crate) fn copy_i32(v: &Vec<i32>) -> (r: Vec<i32>)
    ensures
        r@ == v@,
{
    let mut r: Vec<i32> = Vec::new();
    let n: usize = v.len();
    let mut i: usize = 0;
    while i < n
        invariant
            i <= n,
            n == v@.len(),
            r@ == v@.take(i as int),
        decreases n - i,
    {
        r.push(v[i]);
        i += 1;
        assert(r@ =~= v@.take(i as int));
    }
    assert(v@.take(n as int) =~= v@);
    r
}

/// Some move of the side to move is two steps nearer to its goal, or on it.
pub open spec fn jump_gains(p: game::Position, f: Seq<u8>) -> bool {
    exists|i: int|
        0 <= i < game::pawn_moves(p).len() && f[(#[trigger] game::pawn_moves(p)[i]) as int]
            <= num::larger(f[game::pawn_of(p, p.turn)] - 2, 0)
}

/// Taking wall `m` away changes a pawn's goal distance.
pub open spec fn wall_matters(p: game::Position, m: int) -> bool {
    let before = game::without_wall(p.w, m);
    ||| !same_distance(p.w, before, 0, p.p0)
    ||| !same_distance(p.w, before, 1, p.p1)
}

/// A cell is equally far from the goal in both topologies.
pub open spec fn same_distance(a: board::Topo, b: board::Topo, side: int, cell: int) -> bool {
    forall|n: nat| #[trigger]
        board::goal_within(a, side, cell, n) == board::goal_within(b, side, cell, n)
}

proof fn lemma_values_tell_distances(
    a: board::Topo,
    b: board::Topo,
    side: int,
    cell: int,
    va: int,
    vb: int,
)
    requires
        board::dist_value(a, side, cell, va),
        board::dist_value(b, side, cell, vb),
    ensures
        (va == vb) == same_distance(a, b, side, cell),
{
    if va == vb {
        assert forall|n: nat| #[trigger]
            board::goal_within(a, side, cell, n) == board::goal_within(b, side, cell, n) by {
            if va == 255 {
            } else if n >= va {
                board::lemma_goal_within_grows(a, side, cell, va as nat, n);
                board::lemma_goal_within_grows(b, side, cell, va as nat, n);
            } else {
                if board::goal_within(a, side, cell, n) {
                    board::lemma_goal_within_grows(a, side, cell, n, (va - 1) as nat);
                }
                if board::goal_within(b, side, cell, n) {
                    board::lemma_goal_within_grows(b, side, cell, n, (va - 1) as nat);
                }
            }
        }
    } else if same_distance(a, b, side, cell) {
        if va != 255 {
            assert(board::goal_within(b, side, cell, va as nat));
            if vb != 255 && vb > va {
                board::lemma_goal_within_grows(b, side, cell, va as nat, (vb - 1) as nat);
            }
        }
        if vb != 255 {
            assert(board::goal_within(a, side, cell, vb as nat));
            if va != 255 && va > vb {
                board::lemma_goal_within_grows(a, side, cell, vb as nat, (va - 1) as nat);
            }
        }
    }
}

} // verus!

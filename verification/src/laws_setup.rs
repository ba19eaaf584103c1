//! What engines, workers, caches and replays are set up to do: each label with its switches, each
//! worker with its share, a cache that gives up what was used least, and a game replayed move by
//! move.

use crate::board;
use crate::bridge;
use crate::browser;
use crate::config::SearchConfig;
use crate::game;
use crate::lazy_smp;
use crate::modes;
use crate::moves;
use crate::race_cache;
use crate::race_cache::{Clock, RaceCache, RaceSlot};
use crate::session;
use crate::session::{EngineKind, SessionFlags};
use crate::setup;
use crate::think;
use vstd::prelude::*;

verus! {

// Engines.

/// The fringe share grows from helper to helper, never above seventy percent.
pub proof fn law_fringe(worker: int)
    requires
        0 <= worker,
    ensures
        5 <= setup::fringe_of_worker(worker) <= 70,
        setup::fringe_of_worker(worker) <= setup::fringe_of_worker(worker + 1),
        0 < worker < 7 ==> setup::fringe_of_worker(worker + 1) - setup::fringe_of_worker(worker) == 10,
        worker >= 7 ==> setup::fringe_of_worker(worker) == 70,
{
}

/// A ceiling is one of four; one of them stays what it is.
pub proof fn law_ceilings(x: u16)
    ensures
        ({
            let c = setup::ceiling_or_default(x);
            &&& c == 70 || c == 80 || c == 90 || c == 100
            &&& setup::ceiling_or_default(c) == c
            &&& x % 10 == 0 && 70 <= x <= 100 ==> c == x
            &&& x % 10 != 0 || x < 70 || x > 100 ==> c == 100
        }),
{
}

/// The switches of a mode: a millisecond at least, thirty plies unless fewer or more are asked
/// for.
pub proof fn law_mode_limits(mode: Seq<char>, movetime: int, max_depth: int, legal: bool)
    requires
        0 <= movetime <= u64::MAX,
        -1000 <= max_depth <= 1000,
    ensures
        ({
            let p = modes::mode_params(mode, movetime, max_depth, legal);
            &&& p.time_ms >= 1
            &&& movetime > 0 ==> p.time_ms == movetime
            &&& max_depth > 0 ==> p.max_depth == max_depth
            &&& max_depth <= 0 ==> p.max_depth == 30
            &&& p.ti_movegen == legal
            &&& p.threads == 1
            &&& !p.full
        }),
{
}

/// Reports that are not forced lie a tenth of a second and a full batch of nodes apart.
pub proof fn law_reports_are_spaced(c: modes::ProgressClock, nodes: int, elapsed: int)
    ensures
        modes::report_due(c, true, nodes, elapsed),
        modes::report_due(c, false, nodes, elapsed) ==> elapsed >= c.last_ms + 100 && nodes % 65_536
            == 0 && nodes != c.last_nodes && nodes != 0,
        nodes > 0 && nodes % 65_536 == 0 && nodes != c.last_nodes && elapsed >= c.last_ms + 100
            ==> modes::report_due(c, false, nodes, elapsed),
{
}

/// Every engine but the plain one generates legal walls; certificates are cheap in all that are
/// grafted; one alone is pure, and one alone shapes its reductions by heat.
pub proof fn law_engines(k: EngineKind)
    ensures
        session::base_config(k).ti_movegen <==> k != EngineKind::Plain,
        session::base_config(k).pure_mode <==> k == EngineKind::TiPure,
        session::base_config(k).cat_lmr_v16 <==> k == EngineKind::HeatReductions,
        session::base_config(k).cheap_cert <==> k == EngineKind::HeatReductions || k
            == EngineKind::Medium || k == EngineKind::Frozen || k == EngineKind::NoRaceproof || k
            == EngineKind::Grafted,
        session::base_config(k).cert_eval_leaves_only == session::base_config(k).cheap_cert,
        session::base_config(k).use_partial_iter,
        session::base_config(k).use_predict_stop,
        session::base_config(k).lmr_gate.after_move == 4,
        session::base_config(k).lmr_gate.min_depth == 3,
        session::base_config(k).multipv == 1,
{
}

/// A label adds switches and takes none away, but for the two that it says it does without.
pub proof fn law_labels_add_switches(c: SearchConfig, f: SessionFlags)
    ensures
        ({
            let d = session::configured(c, f);
            &&& c.q_search ==> d.q_search
            &&& c.ace_lmp ==> d.ace_lmp
            &&& c.ace_rfp ==> d.ace_rfp
            &&& c.cat_path_lmr ==> d.cat_path_lmr
            &&& c.lazy_topn ==> d.lazy_topn
            &&& c.eme ==> d.eme
            &&& f.q_search ==> d.q_search && d.q_max == 4 && d.q_swing_cp == 60
            &&& f.ace_lmp ==> d.ace_lmp
            &&& f.ace_rfp ==> d.ace_rfp
            &&& f.no_partial_iter ==> !d.use_partial_iter
            &&& f.no_predict_stop ==> !d.use_predict_stop
            &&& !f.no_partial_iter ==> d.use_partial_iter == c.use_partial_iter
            &&& !f.no_predict_stop ==> d.use_predict_stop == c.use_predict_stop
            &&& d.ti_movegen == c.ti_movegen
            &&& d.cheap_cert == c.cheap_cert
            &&& d.weights == c.weights
        }),
{
    reveal(session::configured);
}

// Workers.

/// The main worker takes the first root moves in their order; every worker takes each place once
/// and no place that is not there.
pub proof fn law_worker_shares(
    ms: Seq<i16>,
    idx: Seq<usize>,
    root: Seq<i16>,
    worker: int,
    allowed: int,
    deep: bool,
    i: int,
)
    requires
        lazy_smp::profile_is(ms, idx, root, worker, allowed, deep),
        0 <= i < ms.len(),
        0 <= allowed,
    ensures
        ms.len() <= root.len(),
        ms.len() <= allowed,
        allowed >= root.len() ==> ms.len() == root.len(),
        root.contains(ms[i]),
        worker == 0 || deep ==> ms[i] == root[i],
{
    assert(root[idx[i] as int] == ms[i]);
    let stride = choose|stride: int| #[trigger]
        lazy_smp::profile_places(idx, worker, root.len() as int, deep, stride);
    assert(idx[i] < root.len());
}

/// A worker that goes for depth tries three moves, and each worker its own threshold.
pub proof fn law_worker_plans(p: lazy_smp::WorkerPlan, w: int, count: int, before: int, deep: bool)
    requires
        lazy_smp::plan_is(p, w, count, before, deep),
        count >= 3,
    ensures
        deep ==> lazy_smp::allowed_by(p) == 3,
        !deep ==> lazy_smp::allowed_by(p) == count,
        w == 0 ==> p.root_value_threshold_pct == 20,
        w == 1 ==> p.root_value_threshold_pct == 30,
        w >= 2 ==> p.root_value_threshold_pct == 40,
{
}

/// Every kept move is one of the root's; a move as hot as any is kept; and something is.
pub proof fn law_kept_moves(ms: Seq<i16>, heat: Seq<i32>, max_heat: int, pct: int, i: int)
    requires
        0 <= i < ms.len(),
        0 < max_heat <= 10_000_000,
        0 < pct <= 100,
        heat[ms[i] as int] == max_heat,
    ensures
        lazy_smp::kept_moves(ms, heat, max_heat, pct).contains(ms[i]),
        lazy_smp::kept_moves(ms, heat, max_heat, pct).len() > 0,
        lazy_smp::kept_moves(ms, heat, max_heat, pct).len() <= ms.len(),
        lazy_smp::kept_moves(ms, heat, 0, pct) == ms,
{
    assert(0 < pct * max_heat <= 1_000_000_000) by (nonlinear_arith)
        requires
            0 < max_heat <= 10_000_000,
            0 < pct <= 100,
    ;
    assert(pct * max_heat <= 100 * max_heat) by (nonlinear_arith)
        requires
            0 < max_heat,
            pct <= 100,
    ;
    lemma_hot(ms, heat, max_heat, pct, ms.len() as int, i);
    assert(ms.contains(ms[i]));
}

proof fn lemma_hot(ms: Seq<i16>, heat: Seq<i32>, max_heat: int, pct: int, n: int, i: int)
    requires
        0 <= i < ms.len(),
        0 <= n <= ms.len(),
        lazy_smp::hot_enough(heat[ms[i] as int] as int, max_heat, pct),
    ensures
        i < n ==> lazy_smp::hot_moves(ms, heat, max_heat, pct, n).contains(ms[i]),
        lazy_smp::hot_moves(ms, heat, max_heat, pct, n).len() <= n,
    decreases n,
{
    if n > 0 {
        lemma_hot(ms, heat, max_heat, pct, n - 1, i);
        let before = lazy_smp::hot_moves(ms, heat, max_heat, pct, n - 1);
        let all = lazy_smp::hot_moves(ms, heat, max_heat, pct, n);
        if i == n - 1 {
            assert(all[before.len() as int] == ms[i]);
        } else if i < n - 1 {
            let k = choose|k: int| 0 <= k < before.len() && before[k] == ms[i];
            assert(all[k] == ms[i]);
        }
    }
}

// Race tables.

/// A place that holds nothing is taken before one that does; of full ones that which was used
/// longest ago.
pub proof fn law_least_used_goes(slots: Seq<Option<RaceSlot>>, used: Seq<u64>, v: int, j: int)
    requires
        race_cache::is_victim(slots, used, v),
        0 <= j < slots.len(),
    ensures
        slots[j] is None ==> slots[v] is None && v <= j,
        slots[v] is Some ==> used[v] <= used[j],
        slots[v] is Some && used[v] == used[j] ==> v <= j,
{
}

/// A table at hand is always had; with the budget closed no other is, unless it must be; and a
/// solved table never takes more than a quarter of the time.
pub proof fn law_tables_had<C: Clock>(c: RaceCache, w: board::Topo, force: bool, got: bool)
    requires
        race_cache::table_had::<C>(c, w, force, got),
    ensures
        c.cached(w) ==> got,
        force ==> got,
        !force && !c.cached(w) && !c.build_ok ==> !got,
        !force && !c.cached(w) && c.think_solves >= c.count_cap ==> !got,
        !force && !c.cached(w) && got ==> (c.solve_cap matches Some(t) ==> 4 * (c.think_solve_ms
            + c.build_ms) <= t),
{
}

// Replays.

/// A replay stops at the first move past the end of the game or that cannot be made, where it
/// stands; and plays every other.
pub proof fn law_replays(p: game::Position, ms: Seq<Seq<char>>, n: int)
    requires
        0 < n <= ms.len(),
    ensures
        ({
            let (q, why) = browser::replayed(p, ms, n - 1);
            let (r, end) = browser::replayed(p, ms, n);
            let m = moves::parsed_move(ms[n - 1]);
            &&& why is Some ==> (r, end) == (q, why)
            &&& why is None && game::winner_of(q) >= 0 ==> r == q && end is Some
            &&& why is None && end is None ==> r == game::played(q, m) && game::winner_of(q) < 0
                && 0 <= m < 209
            &&& why is None && end is Some ==> r == q
        }),
{
}

/// The replay of a list that a session accepts from the same position ends on the same one.
pub proof fn law_replay_is_a_session(p: game::Position, ms: Seq<Seq<char>>, n: int)
    requires
        0 <= n <= ms.len(),
    ensures
        browser::replayed(p, ms, n).0 == session::after_moves(p, ms, n).0,
        browser::replayed(p, ms, n).1 is None <==> session::after_moves(p, ms, n).1 is None,
    decreases n,
{
    if n > 0 {
        law_replay_is_a_session(p, ms, n - 1);
    }
}

/// A text that names a legal move reads back as one.
pub proof fn law_named_moves_are_legal(p: game::Position, t: Seq<char>)
    requires
        browser::names_legal_move(p, t),
        think::legal_moves(p).len() > 0,
        forall|m: i16| #[trigger] think::legal_moves(p).contains(m) ==> 0 <= m < 209,
    ensures
        think::legal_moves(p).contains(moves::parsed_move(t) as i16),
{
    let m = choose|m: i16| #[trigger]
        think::legal_moves(p).contains(m) && t == moves::algebraic(m as int);
    moves::law_algebraic_round_trip(m as int);
}

/// A record replayed to its end and one more move is replayed to the position after that move,
/// or stays where the move cannot be made.
pub proof fn law_records_replay(p: game::Position, hist: Seq<game::Played>, n: int)
    requires
        0 < n <= hist.len(),
    ensures
        ({
            let q = bridge::replayed(p, hist, n - 1);
            let r = bridge::replayed(p, hist, n);
            &&& game::accepts(q, hist[n - 1].mv as int) ==> r == game::played(q, hist[n - 1].mv as int)
            &&& !game::accepts(q, hist[n - 1].mv as int) ==> r == q
        }),
        bridge::replayed(p, hist, 0) == p,
{
}

} // verus!

//! Building searchers: engine variants, switches, position changes, helper threads.

use crate::board;
use crate::config::{NetWeights, SearchConfig};
use crate::config;
use crate::dist_cache;
use crate::dist_cache::DistCache;
use crate::eval;
use crate::eval::{CertMemo, EvalCache};
use crate::game;
use crate::game::GameState;
use crate::history;
use crate::history::{History, Statistics};
use crate::modes;
use crate::movegen;
use crate::moves;
use crate::num;
use crate::pruning;
use crate::pruning::{LmrGate, RepWindow};
use crate::race;
use crate::race::RaceProver;
use crate::score::MAX_PLY;
use crate::search;
use crate::search::{LazyRoot, ReductionProbe, TitaniumSearch};
use crate::tt;
use crate::tt::{SharedTitaniumTt, TitaniumTt};
use crate::tt_sizing;
use vstd::prelude::*;

verus! {

/// Bytes of one table entry, as the cache tiers count them.
pub const TT_ENTRY_BYTES: usize = 25;

/// Index bits of the evaluation cache.
pub const EVAL_CACHE_BITS: usize = 21;

/// Heat ceilings to choose from, and the one used otherwise.
pub const CAT_V16_LMR_CEILINGS: [u16; 4] = [70, 80, 90, 100];

pub const CAT_V16_LMR_CEILING_DEFAULT: u16 = 100;

/// Heat, in percent of the hottest, below which a wall is a fringe wall.
pub const CAT_V16_FRINGE_PCT_DEFAULT: u16 = 10;

pub const CAT_V16_FRINGE_PCT_MAX: u16 = 100;

/// First move place and least depth with reductions.
pub const ACE_LMR_AFTER_MOVE: usize = 4;

pub const ACE_LMR_MIN_DEPTH: i32 = 3;

/// Fringe share of a worker: five percent for the main one, ten more for each helper, up
/// to seventy.
pub open spec fn fringe_of_worker(worker_id: int) -> int {
    if worker_id == 0 {
        5
    } else {
        num::smaller(10 * worker_id, 70)
    }
}

/// Fringe share of a worker.
pub fn cat_v16_lmr_fringe_pct_for_worker(worker_id: usize) -> (pct: u16)
    ensures
        pct == fringe_of_worker(worker_id as int),
{
    if worker_id == 0 {
        5
    } else if worker_id >= 7 {
        70
    } else {
        10 * worker_id as u16
    }
}

/// A ceiling that is on offer, or the default.
pub open spec fn ceiling_or_default(ceiling: u16) -> u16 {
    if ceiling == 70 || ceiling == 80 || ceiling == 90 || ceiling == 100 {
        ceiling
    } else {
        100
    }
}

fn choose_ceiling(ceiling: u16) -> (c: u16)
    ensures
        c == ceiling_or_default(ceiling),
{
    let offers: [u16; 4] = CAT_V16_LMR_CEILINGS;
    if ceiling == offers[0] || ceiling == offers[1] || ceiling == offers[2] || ceiling == offers[3] {
        ceiling
    } else {
        CAT_V16_LMR_CEILING_DEFAULT
    }
}

/// The default reduction gate.
pub open spec fn default_gate() -> LmrGate {
    LmrGate { after_move: 4, min_depth: 3 }
}

/// The default switches.
pub open spec fn default_config() -> SearchConfig {
    config::plain_config(default_gate(), 100, 10)
}

/// The switches of the grafted engine: legal move generation and cheap certificates at
/// empty-handed leaves.
pub open spec fn grafted_config() -> SearchConfig {
    SearchConfig {
        ti_movegen: true,
        cheap_cert: true,
        cert_eval_leaves_only: true,
        ..default_config()
    }
}

/// The grafted engine with heat-shaped reductions.
pub open spec fn v17_config(ceiling: u16) -> SearchConfig {
    SearchConfig {
        cat_lmr_v16: true,
        cat_lmr_ceiling: ceiling_or_default(ceiling),
        ..grafted_config()
    }
}

/// Switches of a helper: it neither ponders nor reports.
fn worker_config(c: SearchConfig) -> (d: SearchConfig)
    ensures
        d == (SearchConfig { is_pondering: false, multipv: 1, root_scores: true, ..c }),
{
    SearchConfig { is_pondering: false, multipv: 1, root_scores: true, ..c }
}

fn fringe_config(c: SearchConfig, worker_id: usize) -> (d: SearchConfig)
    ensures
        d == (SearchConfig {
            cat_lmr_fringe_pct: fringe_of_worker(worker_id as int) as u16,
            ..c
        }),
{
    SearchConfig { cat_lmr_fringe_pct: cat_v16_lmr_fringe_pct_for_worker(worker_id), ..c }
}

fn keys(n: usize) -> (v: Vec<(u32, u32)>)
    ensures
        v@.len() == n,
{
    let mut v: Vec<(u32, u32)> = Vec::new();
    let mut i: usize = 0;
    while i < n
        invariant
            i <= n,
            v@.len() == i,
        decreases n - i,
    {
        v.push((0, 0));
        i += 1;
    }
    v
}

fn windows(n: usize) -> (v: Vec<RepWindow>)
    ensures
        v@.len() == n,
        forall|i: int| 0 <= i < n ==> #[trigger] v@[i] == pruning::no_repetition(),
{
    let mut v: Vec<RepWindow> = Vec::new();
    let mut i: usize = 0;
    while i < n
        invariant
            i <= n,
            v@.len() == i,
            forall|k: int| 0 <= k < i ==> #[trigger] v@[k] == pruning::no_repetition(),
        decreases n - i,
    {
        v.push(RepWindow { min_ply: MAX_PLY as i32, anc_lo: 0, anc_hi: 0 });
        i += 1;
    }
    v
}

fn no_evals(n: usize) -> (v: Vec<Option<i32>>)
    ensures
        v@.len() == n,
        forall|i: int| 0 <= i < n ==> (#[trigger] v@[i]) is None,
{
    let mut v: Vec<Option<i32>> = Vec::new();
    let mut i: usize = 0;
    while i < n
        invariant
            i <= n,
            v@.len() == i,
            forall|k: int| 0 <= k < i ==> (#[trigger] v@[k]) is None,
        decreases n - i,
    {
        v.push(None);
        i += 1;
    }
    v
}

/// A game a search can start from.
pub open spec fn searchable(g: GameState) -> bool {
    g.wf() && eval::hands_ok(g@) && g@.hist.len() + MAX_PLY + 4 <= game::MAX_HISTORY
}

/// A fresh searcher: nothing learned, nothing cached, no helper list.
pub open spec fn is_fresh(s: TitaniumSearch, p: game::Position) -> bool {
    &&& s.g@ == p
    &&& s.nodes == 0
    &&& s.root_best == -1
    &&& s.root_score == 0
    &&& s.root_pawn_best == -1
    &&& s.root_pawn_score is None
    &&& s.root_moves@.len() == 0
    &&& s.root_defense_diag@.len() == 0
    &&& s.book_order@.len() == 0
    &&& s.lazy.moves is None
    &&& s.lazy.visits@.len() == 0
    &&& !s.use_shared
    &&& !s.probe.enabled
    &&& s.memo.cw_cache@ == Map::<u128, i32>::empty()
    &&& !s.hist.sf_history
    &&& s.prover.race_proof
    &&& s.prover.one_wall_race_resolved is None
    &&& s.prover.two_wall_race_resolved is None
    &&& s.dist.cached_stamp == -1
    &&& s.prover.stats == race::no_counts()
    &&& s.rp_demotions == 0
    &&& s.rp_root_solves == 0
    &&& history::is_blank(s.hist)
    &&& forall|q: game::Position| eval::hands_ok(q) ==> (#[trigger] s.evals.known(q)) is None
    &&& forall|w: board::Topo| !(#[trigger] s.prover.cache.cached(w))
    &&& forall|i: int| 0 <= i < MAX_PLY ==> (#[trigger] s.eval_stack@[i]) is None
}

impl TitaniumSearch {
    /// A searcher with caches of these sizes.
    fn with_sizes(
        g: GameState,
        cfg: SearchConfig,
        table: TitaniumTt,
        eval_bits: usize,
        dist_bits: usize,
        dist_growable: bool,
    ) -> (s: TitaniumSearch)
        requires
            searchable(g),
            table.wf(),
            eval_bits <= 31,
            dist_bits <= 31,
            0 <= cfg.q_max <= 1000,
            -1_000_000 <= cfg.ace_rfp_max_depth <= 1_000_000,
        ensures
            s.ready(0),
            s.lazy_ok(),
            is_fresh(s, g@),
            s.cfg == cfg,
            s.table == table,
            s.evals.bits == eval_bits,
            s.dist.dist_lru_bits == dist_bits,
            s.dist.dist_lru_growable == dist_growable,
    {
        TitaniumSearch {
            g,
            cfg,
            table,
            use_shared: false,
            hist: History::new(),
            dist: DistCache::new(true, dist_bits, dist_cache::DIST_LRU_MAX_BITS, dist_growable),
            prover: RaceProver::new(),
            memo: CertMemo::new(),
            evals: EvalCache::new(eval_bits),
            path: keys(MAX_PLY),
            windows: windows(MAX_PLY),
            eval_stack: no_evals(MAX_PLY),
            nodes: 0,
            root_best: moves::TITANIUM_NO_MOVE,
            root_score: 0,
            root_pawn_best: -1,
            root_pawn_score: None,
            root_moves: Vec::new(),
            last_reported_best: moves::TITANIUM_NO_MOVE,
            book_order: Vec::new(),
            book_attention: Vec::new(),
            root_defense_diag: Vec::new(),
            lazy: LazyRoot {
                moves: None,
                allowed: usize::MAX,
                visit_map: None,
                visits: Vec::new(),
            },
            probe: ReductionProbe {
                enabled: false,
                target: None,
                next: 0,
                limit: 0,
                min_depth: 0,
                tuning_percent: modes::CAT_LMR_DEFAULT_TUNING_PERCENT,
                events: Vec::new(),
            },
            pending_cat_child_ply: None,
            ab_after_cat_child: false,
            rp_demotions: 0,
            rp_root_solves: 0,
        }
    }

    /// A plain searcher on a position.
    pub fn new(g: GameState) -> (s: TitaniumSearch)
        requires
            searchable(g),
        ensures
            s.ready(0),
            s.lazy_ok(),
            is_fresh(s, g@),
            s.cfg == default_config(),
            s.table.base.bits == tt::TT_BITS,
            s.table.base.filled == 0,
            !s.table.tt_adaptive,
    {
        let gate = LmrGate { after_move: ACE_LMR_AFTER_MOVE, min_depth: ACE_LMR_MIN_DEPTH };
        let cfg = SearchConfig::new(gate, CAT_V16_LMR_CEILING_DEFAULT, CAT_V16_FRINGE_PCT_DEFAULT);
        Self::with_sizes(
            g,
            cfg,
            TitaniumTt::new(),
            EVAL_CACHE_BITS,
            dist_cache::DIST_LRU_MIN_BITS,
            true,
        )
    }

    /// Legal move generation at every node.
    pub fn with_ti_movegen(g: GameState) -> (s: TitaniumSearch)
        requires
            searchable(g),
        ensures
            s.ready(0),
            s.lazy_ok(),
            is_fresh(s, g@),
            s.cfg == (SearchConfig { ti_movegen: true, ..default_config() }),
            s.table.base.bits == tt::TT_BITS,
            !s.table.tt_adaptive,
    {
        let mut s = Self::new(g);
        s.cfg = SearchConfig { ti_movegen: true, ..s.cfg };
        s
    }

    /// The same on the fixed weights.
    pub fn with_ti_movegen_frozen(g: GameState) -> (s: TitaniumSearch)
        requires
            searchable(g),
        ensures
            s.ready(0),
            s.lazy_ok(),
            is_fresh(s, g@),
            s.cfg == (SearchConfig {
                ti_movegen: true,
                weights: NetWeights::Frozen,
                ..default_config()
            }),
            s.table.base.bits == tt::TT_BITS,
            !s.table.tt_adaptive,
    {
        let mut s = Self::with_ti_movegen(g);
        s.cfg = SearchConfig { weights: NetWeights::Frozen, ..s.cfg };
        s
    }

    /// Legal move generation in pure mode.
    pub fn with_ti_movegen_pure(g: GameState) -> (s: TitaniumSearch)
        requires
            searchable(g),
        ensures
            s.ready(0),
            s.lazy_ok(),
            is_fresh(s, g@),
            s.cfg == (SearchConfig { ti_movegen: true, pure_mode: true, ..default_config() }),
    {
        let mut s = Self::with_ti_movegen(g);
        s.cfg = SearchConfig { pure_mode: true, ..s.cfg };
        s
    }

    /// Relevance filter on walls inside the tree.
    pub fn with_cat(g: GameState) -> (s: TitaniumSearch)
        requires
            searchable(g),
        ensures
            s.ready(0),
            s.lazy_ok(),
            is_fresh(s, g@),
            s.cfg == (SearchConfig { cat_walls: true, ..default_config() }),
    {
        let mut s = Self::new(g);
        s.cfg = SearchConfig { cat_walls: true, ..s.cfg };
        s
    }

    /// Legal generation at the root and the relevance filter inside the tree.
    pub fn with_ti_movegen_and_cat(g: GameState) -> (s: TitaniumSearch)
        requires
            searchable(g),
        ensures
            s.ready(0),
            s.lazy_ok(),
            is_fresh(s, g@),
            s.cfg == (SearchConfig { ti_movegen: true, cat_walls: true, ..default_config() }),
    {
        let mut s = Self::with_ti_movegen(g);
        s.cfg = SearchConfig { cat_walls: true, ..s.cfg };
        s
    }

    /// Legal generation at the root and the dead-zone filter inside the tree.
    pub fn with_ti_movegen_deadzone(g: GameState) -> (s: TitaniumSearch)
        requires
            searchable(g),
        ensures
            s.ready(0),
            s.lazy_ok(),
            is_fresh(s, g@),
            s.cfg == (SearchConfig { ti_movegen: true, dead_zone_prune: true, ..default_config() }),
    {
        let mut s = Self::with_ti_movegen(g);
        s.cfg = SearchConfig { dead_zone_prune: true, ..s.cfg };
        s
    }

    /// Legal generation and cheap certificates, with a fixed table if asked for.
    pub fn with_ti_movegen_cheap_cert(g: GameState, tt_bits: Option<usize>) -> (s: TitaniumSearch)
        requires
            searchable(g),
            tt_bits matches Some(b) ==> b <= tt::TT_BITS_MAX,
        ensures
            s.ready(0),
            s.lazy_ok(),
            is_fresh(s, g@),
            s.cfg == (SearchConfig { ti_movegen: true, cheap_cert: true, ..default_config() }),
            s.table.base.bits == match tt_bits {
                Some(b) => b,
                None => tt::TT_BITS,
            },
    {
        let mut s = Self::with_ti_movegen(g);
        s.cfg = SearchConfig { cheap_cert: true, ..s.cfg };
        if let Some(bits) = tt_bits {
            s.table.resize_tt(bits);
        }
        s
    }

    /// Legal generation and a table that grows through the cache tiers.
    pub fn with_ti_movegen_adaptive_tt(g: GameState) -> (s: TitaniumSearch)
        requires
            searchable(g),
        ensures
            s.ready(0),
            s.lazy_ok(),
            is_fresh(s, g@),
            s.cfg == (SearchConfig { ti_movegen: true, ..default_config() }),
            s.table.tt_adaptive,
    {
        let mut s = Self::with_ti_movegen(g);
        s.table.enable_adaptive_tt(tt_sizing::cache_tier_bits(TT_ENTRY_BYTES));
        s
    }

    /// The grafted engine: a fixed table of the given bits, or one that grows through the
    /// cache tiers.
    pub fn grafted(g: GameState, tt_bits: Option<usize>) -> (s: TitaniumSearch)
        requires
            searchable(g),
            tt_bits matches Some(b) ==> b <= tt::TT_BITS_MAX,
        ensures
            s.ready(0),
            s.lazy_ok(),
            is_fresh(s, g@),
            s.cfg == grafted_config(),
            s.table.tt_adaptive == (tt_bits is None),
            tt_bits matches Some(b) ==> s.table.base.bits == b,
            s.table.base.filled == 0,
    {
        Self::grafted_with_weights(g, tt_bits, NetWeights::Live)
    }

    /// The grafted engine on the fixed weights.
    pub fn grafted_frozen(g: GameState, tt_bits: Option<usize>) -> (s: TitaniumSearch)
        requires
            searchable(g),
            tt_bits matches Some(b) ==> b <= tt::TT_BITS_MAX,
        ensures
            s.ready(0),
            s.lazy_ok(),
            is_fresh(s, g@),
            s.cfg == (SearchConfig { weights: NetWeights::Frozen, ..grafted_config() }),
            s.table.tt_adaptive == (tt_bits is None),
            tt_bits matches Some(b) ==> s.table.base.bits == b,
            s.table.base.filled == 0,
    {
        Self::grafted_with_weights(g, tt_bits, NetWeights::Frozen)
    }

    /// The grafted engine on the previous weights.
    pub fn grafted_medium(g: GameState, tt_bits: Option<usize>) -> (s: TitaniumSearch)
        requires
            searchable(g),
            tt_bits matches Some(b) ==> b <= tt::TT_BITS_MAX,
        ensures
            s.ready(0),
            s.lazy_ok(),
            is_fresh(s, g@),
            s.cfg == (SearchConfig { weights: NetWeights::Medium, ..grafted_config() }),
            s.table.tt_adaptive == (tt_bits is None),
            tt_bits matches Some(b) ==> s.table.base.bits == b,
            s.table.base.filled == 0,
    {
        Self::grafted_with_weights(g, tt_bits, NetWeights::Medium)
    }

    /// The grafted engine on chosen weights.
    pub fn grafted_with_weights(
        g: GameState,
        tt_bits: Option<usize>,
        weights: NetWeights,
    ) -> (s: TitaniumSearch)
        requires
            searchable(g),
            tt_bits matches Some(b) ==> b <= tt::TT_BITS_MAX,
        ensures
            s.ready(0),
            s.lazy_ok(),
            is_fresh(s, g@),
            s.cfg == (SearchConfig { weights, ..grafted_config() }),
            s.table.tt_adaptive == (tt_bits is None),
            tt_bits matches Some(b) ==> s.table.base.bits == b,
            s.table.base.filled == 0,
    {
        let mut s = Self::with_ti_movegen(g);
        s.cfg = SearchConfig { weights, cheap_cert: true, cert_eval_leaves_only: true, ..s.cfg };
        match tt_bits {
            Some(bits) => s.table.resize_tt(bits),
            None => s.table.enable_adaptive_tt(tt_sizing::cache_tier_bits(TT_ENTRY_BYTES)),
        }
        s
    }

    /// The grafted engine without race proofs.
    pub fn grafted_no_raceproof(g: GameState, tt_bits: Option<usize>) -> (s:
        TitaniumSearch)
        requires
            searchable(g),
            tt_bits matches Some(b) ==> b <= tt::TT_BITS_MAX,
        ensures
            s.ready(0),
            s.lazy_ok(),
            s.cfg == grafted_config(),
            !s.prover.race_proof,
            s.g@ == g@,
            !s.hist.sf_history,
            s.nodes == 0,
            s.lazy.moves is None,
    {
        let mut s = Self::grafted(g, tt_bits);
        s.prover.race_proof = false;
        s
    }

    /// The grafted engine with lazily checked walls.
    pub fn grafted_lazy_walls_for_bench(
        g: GameState,
        tt_bits: Option<usize>,
    ) -> (s: TitaniumSearch)
        requires
            searchable(g),
            tt_bits matches Some(b) ==> b <= tt::TT_BITS_MAX,
        ensures
            s.ready(0),
            s.lazy_ok(),
            is_fresh(s, g@),
            s.cfg == (SearchConfig { ti_movegen: false, ..grafted_config() }),
    {
        let mut s = Self::grafted(g, tt_bits);
        s.cfg = SearchConfig { ti_movegen: false, ..s.cfg };
        s
    }

    /// The grafted engine with corridor certificates.
    pub fn grafted_wall_ignore_experimental(
        g: GameState,
        tt_bits: Option<usize>,
    ) -> (s: TitaniumSearch)
        requires
            searchable(g),
            tt_bits matches Some(b) ==> b <= tt::TT_BITS_MAX,
        ensures
            s.ready(0),
            s.lazy_ok(),
            is_fresh(s, g@),
            s.cfg == (SearchConfig { wall_ignore_cert: Some(true), ..grafted_config() }),
    {
        let mut s = Self::grafted(g, tt_bits);
        s.cfg = SearchConfig { wall_ignore_cert: Some(true), ..s.cfg };
        s
    }

    /// The grafted engine with heat-shaped reductions under the default ceiling.
    pub fn grafted_v17(g: GameState, tt_bits: Option<usize>) -> (s:
        TitaniumSearch)
        requires
            searchable(g),
            tt_bits matches Some(b) ==> b <= tt::TT_BITS_MAX,
        ensures
            s.ready(0),
            s.lazy_ok(),
            is_fresh(s, g@),
            s.cfg == v17_config(100),
            s.table.tt_adaptive == (tt_bits is None),
    {
        Self::grafted_v17_with_ceiling(g, tt_bits, CAT_V16_LMR_CEILING_DEFAULT)
    }

    /// The grafted engine with heat-shaped reductions; a ceiling that is not on offer gives
    /// the default.
    pub fn grafted_v17_with_ceiling(
        g: GameState,
        tt_bits: Option<usize>,
        ceiling: u16,
    ) -> (s: TitaniumSearch)
        requires
            searchable(g),
            tt_bits matches Some(b) ==> b <= tt::TT_BITS_MAX,
        ensures
            s.ready(0),
            s.lazy_ok(),
            is_fresh(s, g@),
            s.cfg == v17_config(ceiling),
            s.table.tt_adaptive == (tt_bits is None),
    {
        Self::grafted_v17_with_ceiling_and_weights(g, tt_bits, ceiling, NetWeights::Live)
    }

    /// The same on chosen weights.
    pub fn grafted_v17_with_ceiling_and_weights(
        g: GameState,
        tt_bits: Option<usize>,
        ceiling: u16,
        weights: NetWeights,
    ) -> (s: TitaniumSearch)
        requires
            searchable(g),
            tt_bits matches Some(b) ==> b <= tt::TT_BITS_MAX,
        ensures
            s.ready(0),
            s.lazy_ok(),
            is_fresh(s, g@),
            s.cfg == (SearchConfig { weights, ..v17_config(ceiling) }),
            s.table.tt_adaptive == (tt_bits is None),
    {
        let mut s = Self::grafted_with_weights(g, tt_bits, weights);
        s.cfg = SearchConfig { cat_lmr_v16: true, cat_lmr_ceiling: choose_ceiling(ceiling), ..s.cfg };
        s
    }

    /// The grafted engine with heat-shaped reductions and lazily checked walls.
    pub fn grafted_v17_lazy_walls_for_bench(
        g: GameState,
        tt_bits: Option<usize>,
        ceiling: u16,
    ) -> (s: TitaniumSearch)
        requires
            searchable(g),
            tt_bits matches Some(b) ==> b <= tt::TT_BITS_MAX,
        ensures
            s.ready(0),
            s.lazy_ok(),
            is_fresh(s, g@),
            s.cfg == (SearchConfig { ti_movegen: false, ..v17_config(ceiling) }),
    {
        let mut s = Self::grafted_v17_with_ceiling(g, tt_bits, ceiling);
        s.cfg = SearchConfig { ti_movegen: false, ..s.cfg };
        s
    }

    /// Older name of the same engine.
    pub fn grafted_v16(g: GameState, tt_bits: Option<usize>) -> (s:
        TitaniumSearch)
        requires
            searchable(g),
            tt_bits matches Some(b) ==> b <= tt::TT_BITS_MAX,
        ensures
            s.ready(0),
            s.lazy_ok(),
            is_fresh(s, g@),
            s.cfg == v17_config(100),
    {
        Self::grafted_v17(g, tt_bits)
    }

    /// Older name of the same engine.
    pub fn grafted_v16_with_ceiling(
        g: GameState,
        tt_bits: Option<usize>,
        ceiling: u16,
    ) -> (s: TitaniumSearch)
        requires
            searchable(g),
            tt_bits matches Some(b) ==> b <= tt::TT_BITS_MAX,
        ensures
            s.ready(0),
            s.lazy_ok(),
            is_fresh(s, g@),
            s.cfg == v17_config(ceiling),
    {
        Self::grafted_v17_with_ceiling(g, tt_bits, ceiling)
    }

    /// Older name of the engine with lazily checked walls.
    pub fn grafted_v16_lazy_walls_for_bench(
        g: GameState,
        tt_bits: Option<usize>,
        ceiling: u16,
    ) -> (s: TitaniumSearch)
        requires
            searchable(g),
            tt_bits matches Some(b) ==> b <= tt::TT_BITS_MAX,
        ensures
            s.ready(0),
            s.lazy_ok(),
            is_fresh(s, g@),
            s.cfg == (SearchConfig { ti_movegen: false, ..v17_config(ceiling) }),
    {
        Self::grafted_v17_lazy_walls_for_bench(g, tt_bits, ceiling)
    }

    /// Plays a move of the game. What was learned stays.
    pub fn apply_move(&mut self, m: i16)
        requires
            old(self).ready(0),
            game::accepts(old(self).g@, m as int),
            moves::wall_id(m as int) ==> game::hand_of(old(self).g@, old(self).g@.turn) > 0,
            old(self).g@.hist.len() + 1 + MAX_PLY + 4 <= game::MAX_HISTORY,
        ensures
            final(self).ready(0),
            final(self).g@ == game::played(old(self).g@, m as int),
            *final(self) == (TitaniumSearch {
                g: final(self).g,
                dist: final(self).dist,
                ..*old(self)
            }),
    {
        proof {
            if self.dist.cached_stamp >= 0 {
                dist_cache::lemma_on_line_played(
                    self.g@,
                    m as int,
                    self.dist.live@,
                    self.dist.cached_stamp as int,
                );
            }
        }
        self.g.make_move(m);
        if moves::is_wall_move(m) {
            self.dist.invalidate();
        }
    }

    /// Replaces the position. The table stays: its entries are keyed by position.
    pub fn set_position(&mut self, g: GameState)
        requires
            old(self).ready(0),
            searchable(g),
        ensures
            final(self).ready(0),
            *final(self) == (TitaniumSearch { g, dist: final(self).dist, ..*old(self) }),
    {
        self.dist.invalidate();
        self.g = g;
    }

    /// How far the score a prediction was made with lies from the root's.
    pub fn surprise(&self, prior_score: i32) -> (d: u32)
        ensures
            d == num::larger(prior_score - self.root_score, self.root_score - prior_score),
    {
        let d: i64 = prior_score as i64 - self.root_score as i64;
        if d >= 0 {
            d as u32
        } else {
            (-d) as u32
        }
    }

    /// After an unexpected move the statistics count for less: takes the scaled ones, and
    /// nothing else changes. Ones that do not fit are refused.
    pub fn decay_history_by_surprise(&mut self, scaled: Statistics) -> (taken: bool)
        requires
            old(self).ready(0),
        ensures
            final(self).ready(0),
            taken == scaled.fits(),
            !taken ==> *final(self) == *old(self),
            taken ==> *final(self) == (TitaniumSearch {
                hist: History {
                    history_tbl: scaled.history_tbl,
                    hist_sf0: scaled.hist_sf0,
                    hist_sf1: scaled.hist_sf1,
                    cont_hist: scaled.cont_hist,
                    ..old(self).hist
                },
                ..*old(self)
            }),
    {
        if !scaled.is_fitting() {
            return false;
        }
        self.hist.rescale(scaled);
        true
    }

    /// Plays a move of the game, takes the scaled statistics, and opens a new table
    /// generation, unless in pure mode.
    pub fn migrate_root(&mut self, m: i16, scaled: Statistics) -> (taken: bool)
        requires
            old(self).ready(0),
            game::accepts(old(self).g@, m as int),
            moves::wall_id(m as int) ==> game::hand_of(old(self).g@, old(self).g@.turn) > 0,
            old(self).g@.hist.len() + 1 + MAX_PLY + 4 <= game::MAX_HISTORY,
        ensures
            final(self).ready(0),
            final(self).g@ == game::played(old(self).g@, m as int),
            taken == scaled.fits(),
            *final(self) == (TitaniumSearch {
                g: final(self).g,
                dist: final(self).dist,
                table: final(self).table,
                hist: final(self).hist,
                ..*old(self)
            }),
            !taken ==> final(self).hist == old(self).hist,
            taken ==> final(self).hist == (History {
                history_tbl: scaled.history_tbl,
                hist_sf0: scaled.hist_sf0,
                hist_sf1: scaled.hist_sf1,
                cont_hist: scaled.cont_hist,
                ..old(self).hist
            }),
            final(self).table == (TitaniumTt {
                tt_gen: if old(self).cfg.pure_mode {
                    old(self).table.tt_gen
                } else {
                    ((old(self).table.tt_gen + 1) % 256) as u8
                },
                ..old(self).table
            }),
    {
        self.apply_move(m);
        let taken: bool = self.decay_history_by_surprise(scaled);
        if !self.cfg.pure_mode {
            self.table.next_generation();
        }
        taken
    }

    /// Forgets the table, killers, history and replies.
    pub fn forget(&mut self)
        requires
            old(self).ready(0),
        ensures
            final(self).ready(0),
            final(self).table == (TitaniumTt {
                base: final(self).table.base,
                ..old(self).table
            }),
            final(self).table.base.bits == old(self).table.base.bits,
            final(self).table.base.filled == 0,
            forall|lo: u32, hi: u32| (#[trigger] final(self).table.base.lookup(lo, hi)) is None,
            history::is_blank(final(self).hist),
            final(self).hist.sf_history == old(self).hist.sf_history,
            *final(self) == (TitaniumSearch {
                table: final(self).table,
                hist: final(self).hist,
                ..*old(self)
            }),
    {
        let bits: usize = self.table.base.bits;
        self.table.resize_tt(bits);
        self.hist.clear();
    }

    /// Empties the table and gives it `1 << bits` slots.
    pub fn resize_tt(&mut self, bits: usize)
        requires
            old(self).ready(0),
            bits <= tt::TT_BITS_MAX,
        ensures
            final(self).ready(0),
            final(self).g == old(self).g,
            final(self).cfg == old(self).cfg,
            final(self).table.base.bits == bits,
            final(self).table.base.filled == 0,
            *final(self) == (TitaniumSearch { table: final(self).table, ..*old(self) }),
    {
        self.table.resize_tt(bits);
    }

    /// Lets the table grow through the cache tiers of the machine.
    pub fn enable_adaptive_tt(&mut self)
        requires
            old(self).ready(0),
        ensures
            final(self).ready(0),
            final(self).table.tt_adaptive,
            final(self).table.base.filled == 0,
            *final(self) == (TitaniumSearch { table: final(self).table, ..*old(self) }),
    {
        self.table.enable_adaptive_tt(tt_sizing::cache_tier_bits(TT_ENTRY_BYTES));
    }

    /// A helper for `root`: the same switches and experience, with one-slot caches of its
    /// own. It probes and stores in the shared table.
    pub fn fork_lazy_worker(&self, root: GameState) -> (w: TitaniumSearch)
        requires
            self.tables_ok(),
            searchable(root),
        ensures
            w.ready(0),
            w.lazy_ok(),
            w.g@ == root@,
            w.cfg == (SearchConfig {
                is_pondering: false,
                multipv: 1,
                root_scores: true,
                ..self.cfg
            }),
            history::same_experience(w.hist, self.hist),
            w.prover.same_config(&self.prover),
            w.table.tt_gen == self.table.tt_gen,
            !w.table.tt_adaptive,
            w.table.base.bits == 0,
            w.evals.bits == 0,
            w.dist.dist_lru_bits == 0,
            !w.dist.dist_lru_growable,
            w.book_order@ == self.book_order@,
            w.book_attention@ == self.book_attention@,
    {
        let mut table = TitaniumTt::new();
        table.resize_tt(0);
        table.tt_gen = self.table.tt_gen;
        let mut w = Self::with_sizes(root, worker_config(self.cfg), table, 0, 0, false);
        w.hist = self.hist.duplicate();
        w.prover.race_proof = self.prover.race_proof;
        w.prover.one_wall_race_resolved = self.prover.one_wall_race_resolved;
        w.prover.two_wall_race_resolved = self.prover.two_wall_race_resolved;
        w.book_order = search::copy_moves(&self.book_order);
        w.book_attention = search::copy_i32(&self.book_attention);
        w
    }

    /// Gives a worker its share of the root and switches it to the shared table.
    pub fn install_lazy_smp_context(
        &mut self,
        worker_id: usize,
        root_moves: Vec<i16>,
        visit_map: Vec<usize>,
        allowed: usize,
    )
        requires
            old(self).ready(0),
            movegen::all_playable(old(self).g@, root_moves@),
        ensures
            final(self).ready(0),
            final(self).lazy_ok(),
            final(self).lazy.moves == Some(root_moves),
            final(self).lazy.visit_map == Some(visit_map),
            final(self).lazy.allowed == allowed,
            final(self).lazy.visits@.len() == 0,
            final(self).cfg == (SearchConfig {
                cat_lmr_fringe_pct: fringe_of_worker(worker_id as int) as u16,
                ..old(self).cfg
            }),
            *final(self) == (TitaniumSearch {
                use_shared: true,
                table: TitaniumTt { tt_adaptive: false, ..old(self).table },
                lazy: final(self).lazy,
                cfg: final(self).cfg,
                ..*old(self)
            }),
    {
        self.use_shared = true;
        self.table.stop_growing();
        self.lazy = LazyRoot {
            moves: Some(root_moves),
            allowed,
            visit_map: Some(visit_map),
            visits: Vec::new(),
        };
        self.cfg = fringe_config(self.cfg, worker_id);
    }

    /// Back to searching alone.
    pub fn leave_lazy_smp(&mut self)
        requires
            old(self).ready(0),
        ensures
            final(self).ready(0),
            final(self).lazy_ok(),
            final(self).lazy.moves is None,
            final(self).lazy.visits@.len() == 0,
            *final(self) == (TitaniumSearch {
                use_shared: false,
                lazy: final(self).lazy,
                ..*old(self)
            }),
    {
        self.use_shared = false;
        self.lazy = LazyRoot {
            moves: None,
            allowed: usize::MAX,
            visit_map: None,
            visits: Vec::new(),
        };
    }
}

impl SharedTitaniumTt {
    /// A shared table that starts with what a searcher's own table holds.
    pub fn from_search(s: &TitaniumSearch) -> (t: SharedTitaniumTt)
        requires
            s.table.wf(),
        ensures
            t.wf(),
            t.bits == s.table.base.bits,
            t.slots@ == s.table.base.slots@,
            t.filled == s.table.base.filled,
    {
        s.table.base.duplicate()
    }
}

} // verus!

//! Switches of the search.

use crate::pruning;
use crate::pruning::LmrGate;
use vstd::prelude::*;

verus! {

/// Weights the network evaluates with.
#[derive(Clone, Copy, Debug, PartialEq, Eq, Structural)]
pub enum NetWeights {
    /// The latest.
    Live,
    /// The previous ones.
    Medium,
    /// Fixed ones, for comparison.
    Frozen,
}

/// Switches of the search.
#[derive(Clone, Copy, Debug, PartialEq, Eq, Structural)]
pub struct SearchConfig {
    pub weights: NetWeights,
    /// Fully legal move generation at every node.
    pub ti_movegen: bool,
    /// Drop walls without relevance inside the tree.
    pub cat_walls: bool,
    /// Reductions shaped by wall heat.
    pub cat_lmr_v16: bool,
    pub cat_lmr_ceiling: u16,
    pub cat_lmr_fringe_pct: u16,
    /// Small ordering bonus for walls next to a route.
    pub route_touch_ordering: bool,
    /// Reductions corrected by what the wall does to the race.
    pub cat_path_lmr: bool,
    /// Skip that correction for walls on no shortest-path edge.
    pub cat_no_edge_skip: bool,
    pub q_search: bool,
    pub q_max: i32,
    pub q_swing_cp: i32,
    /// Helpers of the first few root moves only.
    pub lazy_topn: bool,
    pub ace_lmp: bool,
    pub use_predict_stop: bool,
    pub ace_rfp: bool,
    pub rfp_tc_adaptive: bool,
    pub ace_rfp_max_depth: i32,
    /// Drop walls that touch no reachable cell.
    pub dead_zone_prune: bool,
    pub cheap_cert: bool,
    pub cert_eval_leaves_only: bool,
    /// Corridor certificates, once resolved.
    pub wall_ignore_cert: Option<bool>,
    pub one_wall_race_pv_only: bool,
    pub two_wall_race_pv_only: bool,
    pub eme: bool,
    pub probcut: bool,
    pub use_partial_iter: bool,
    pub pure_mode: bool,
    pub is_pondering: bool,
    pub multipv: usize,
    pub root_scores: bool,
    /// Where reductions begin.
    pub lmr_gate: LmrGate,
}

/// The plain configuration.
pub open spec fn plain_config(gate: LmrGate, ceiling: u16, fringe_pct: u16) -> SearchConfig {
    SearchConfig {
        weights: NetWeights::Live,
        ti_movegen: false,
        cat_walls: false,
        cat_lmr_v16: false,
        cat_lmr_ceiling: ceiling,
        cat_lmr_fringe_pct: fringe_pct,
        route_touch_ordering: false,
        cat_path_lmr: false,
        cat_no_edge_skip: false,
        q_search: false,
        q_max: 4,
        q_swing_cp: 60,
        lazy_topn: false,
        ace_lmp: false,
        use_predict_stop: true,
        ace_rfp: false,
        rfp_tc_adaptive: false,
        ace_rfp_max_depth: 3,
        dead_zone_prune: false,
        cheap_cert: false,
        cert_eval_leaves_only: false,
        wall_ignore_cert: None,
        one_wall_race_pv_only: false,
        two_wall_race_pv_only: false,
        eme: false,
        probcut: false,
        use_partial_iter: true,
        pure_mode: false,
        is_pondering: false,
        multipv: 1,
        root_scores: true,
        lmr_gate: gate,
    }
}

impl SearchConfig {
    /// The plain configuration.
    pub fn new(gate: LmrGate, ceiling: u16, fringe_pct: u16) -> (c: SearchConfig)
        ensures
            c == plain_config(gate, ceiling, fringe_pct),
    {
        SearchConfig {
            weights: NetWeights::Live,
            ti_movegen: false,
            cat_walls: false,
            cat_lmr_v16: false,
            cat_lmr_ceiling: ceiling,
            cat_lmr_fringe_pct: fringe_pct,
            route_touch_ordering: false,
            cat_path_lmr: false,
            cat_no_edge_skip: false,
            q_search: false,
            q_max: pruning::Q_SEARCH_MAX_DEFAULT,
            q_swing_cp: pruning::Q_SWING_CP_DEFAULT,
            lazy_topn: false,
            ace_lmp: false,
            use_predict_stop: true,
            ace_rfp: false,
            rfp_tc_adaptive: false,
            ace_rfp_max_depth: 3,
            dead_zone_prune: false,
            cheap_cert: false,
            cert_eval_leaves_only: false,
            wall_ignore_cert: None,
            one_wall_race_pv_only: false,
            two_wall_race_pv_only: false,
            eme: false,
            probcut: false,
            use_partial_iter: true,
            pure_mode: false,
            is_pondering: false,
            multipv: 1,
            root_scores: true,
            lmr_gate: gate,
        }
    }
}

} // verus!

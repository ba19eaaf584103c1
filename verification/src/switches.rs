//! Switching parts of the search on and off.

use crate::config::SearchConfig;
use crate::history::History;
use crate::num;
use crate::pruning;
use crate::race::RaceProver;
use crate::search;
use crate::search::{ReductionProbe, TitaniumSearch};
use crate::setup;
use vstd::prelude::*;

verus! {

impl TitaniumSearch {
    pub fn set_cat_lmr_fringe_pct(&mut self, pct: u16)
        ensures
            *final(self) == (TitaniumSearch { cfg: final(self).cfg, ..*old(self) }),
            final(self).cfg == (SearchConfig {
                cat_lmr_fringe_pct: num::smaller(pct as int, 100) as u16,
                ..old(self).cfg
            }),
    {
        self.cfg = SearchConfig { cat_lmr_fringe_pct: pct.min(setup::CAT_V16_FRINGE_PCT_MAX), ..self.cfg };
    }

    pub fn set_cat_lmr_worker_profile(&mut self, worker_id: usize)
        ensures
            *final(self) == (TitaniumSearch { cfg: final(self).cfg, ..*old(self) }),
            final(self).cfg == (SearchConfig {
                cat_lmr_fringe_pct: setup::fringe_of_worker(worker_id as int) as u16,
                ..old(self).cfg
            }),
    {
        self.set_cat_lmr_fringe_pct(setup::cat_v16_lmr_fringe_pct_for_worker(worker_id));
    }

    pub fn enable_eme(&mut self)
        ensures
            *final(self) == (TitaniumSearch { cfg: final(self).cfg, ..*old(self) }),
            final(self).cfg == (SearchConfig { eme: true, ..old(self).cfg }),
    {
        self.cfg = SearchConfig { eme: true, ..self.cfg };
    }

    pub fn enable_route_touch_ordering(&mut self)
        ensures
            *final(self) == (TitaniumSearch { cfg: final(self).cfg, ..*old(self) }),
            final(self).cfg == (SearchConfig { route_touch_ordering: true, ..old(self).cfg }),
    {
        self.cfg = SearchConfig { route_touch_ordering: true, ..self.cfg };
    }

    pub fn enable_cat_path_lmr(&mut self)
        ensures
            *final(self) == (TitaniumSearch { cfg: final(self).cfg, ..*old(self) }),
            final(self).cfg == (SearchConfig { cat_path_lmr: true, ..old(self).cfg }),
    {
        self.cfg = SearchConfig { cat_path_lmr: true, ..self.cfg };
    }

    pub fn enable_cat_no_edge_skip(&mut self)
        ensures
            *final(self) == (TitaniumSearch { cfg: final(self).cfg, ..*old(self) }),
            final(self).cfg == (SearchConfig { cat_no_edge_skip: true, ..old(self).cfg }),
    {
        self.cfg = SearchConfig { cat_no_edge_skip: true, ..self.cfg };
    }

    pub fn enable_lazy_topn(&mut self)
        ensures
            *final(self) == (TitaniumSearch { cfg: final(self).cfg, ..*old(self) }),
            final(self).cfg == (SearchConfig { lazy_topn: true, ..old(self).cfg }),
    {
        self.cfg = SearchConfig { lazy_topn: true, ..self.cfg };
    }

    pub fn set_ace_lmp(&mut self, on: bool)
        ensures
            *final(self) == (TitaniumSearch { cfg: final(self).cfg, ..*old(self) }),
            final(self).cfg == (SearchConfig { ace_lmp: on, ..old(self).cfg }),
    {
        self.cfg = SearchConfig { ace_lmp: on, ..self.cfg };
    }

    pub fn set_root_scores(&mut self, on: bool)
        ensures
            *final(self) == (TitaniumSearch { cfg: final(self).cfg, ..*old(self) }),
            final(self).cfg == (SearchConfig { root_scores: on, ..old(self).cfg }),
    {
        self.cfg = SearchConfig { root_scores: on, ..self.cfg };
    }

    pub fn set_ace_rfp(&mut self, on: bool)
        ensures
            *final(self) == (TitaniumSearch { cfg: final(self).cfg, ..*old(self) }),
            final(self).cfg == (SearchConfig { ace_rfp: on, ..old(self).cfg }),
    {
        self.cfg = SearchConfig { ace_rfp: on, ..self.cfg };
    }

    pub fn set_rfp_tc_adaptive(&mut self, on: bool)
        ensures
            *final(self) == (TitaniumSearch { cfg: final(self).cfg, ..*old(self) }),
            final(self).cfg == (SearchConfig { rfp_tc_adaptive: on, ..old(self).cfg }),
    {
        self.cfg = SearchConfig { rfp_tc_adaptive: on, ..self.cfg };
    }

    pub fn set_two_wall_race_pv_only(&mut self, on: bool)
        ensures
            *final(self) == (TitaniumSearch { cfg: final(self).cfg, ..*old(self) }),
            final(self).cfg == (SearchConfig { two_wall_race_pv_only: on, ..old(self).cfg }),
    {
        self.cfg = SearchConfig { two_wall_race_pv_only: on, ..self.cfg };
    }

    pub fn set_one_wall_race_pv_only(&mut self, on: bool)
        ensures
            *final(self) == (TitaniumSearch { cfg: final(self).cfg, ..*old(self) }),
            final(self).cfg == (SearchConfig { one_wall_race_pv_only: on, ..old(self).cfg }),
    {
        self.cfg = SearchConfig { one_wall_race_pv_only: on, ..self.cfg };
    }

    pub fn set_probcut(&mut self, on: bool)
        ensures
            *final(self) == (TitaniumSearch { cfg: final(self).cfg, ..*old(self) }),
            final(self).cfg == (SearchConfig { probcut: on, ..old(self).cfg }),
    {
        self.cfg = SearchConfig { probcut: on, ..self.cfg };
    }

    pub fn set_partial_iter(&mut self, on: bool)
        ensures
            *final(self) == (TitaniumSearch { cfg: final(self).cfg, ..*old(self) }),
            final(self).cfg == (SearchConfig { use_partial_iter: on, ..old(self).cfg }),
    {
        self.cfg = SearchConfig { use_partial_iter: on, ..self.cfg };
    }

    pub fn set_predict_stop(&mut self, on: bool)
        ensures
            *final(self) == (TitaniumSearch { cfg: final(self).cfg, ..*old(self) }),
            final(self).cfg == (SearchConfig { use_predict_stop: on, ..old(self).cfg }),
    {
        self.cfg = SearchConfig { use_predict_stop: on, ..self.cfg };
    }

    pub fn set_pondering(&mut self, on: bool)
        ensures
            *final(self) == (TitaniumSearch { cfg: final(self).cfg, ..*old(self) }),
            final(self).cfg == (SearchConfig { is_pondering: on, ..old(self).cfg }),
    {
        self.cfg = SearchConfig { is_pondering: on, ..self.cfg };
    }

    pub fn cat_no_edge_skip_enabled(&self) -> (on: bool)
        ensures
            on == self.cfg.cat_no_edge_skip,
    {
        self.cfg.cat_no_edge_skip
    }

    pub fn cat_path_lmr_enabled(&self) -> (on: bool)
        ensures
            on == self.cfg.cat_path_lmr,
    {
        self.cfg.cat_path_lmr
    }

    pub fn route_touch_ordering_enabled(&self) -> (on: bool)
        ensures
            on == self.cfg.route_touch_ordering,
    {
        self.cfg.route_touch_ordering
    }

    pub fn q_search_enabled(&self) -> (on: bool)
        ensures
            on == self.cfg.q_search,
    {
        self.cfg.q_search
    }

    pub fn lazy_topn_enabled(&self) -> (on: bool)
        ensures
            on == self.cfg.lazy_topn,
    {
        self.cfg.lazy_topn
    }

    pub fn root_scores_enabled(&self) -> (on: bool)
        ensures
            on == self.cfg.root_scores,
    {
        self.cfg.root_scores
    }

    pub fn ace_lmp_enabled(&self) -> (on: bool)
        ensures
            on == self.cfg.ace_lmp,
    {
        self.cfg.ace_lmp
    }

    pub fn ace_rfp_enabled(&self) -> (on: bool)
        ensures
            on == self.cfg.ace_rfp,
    {
        self.cfg.ace_rfp
    }

    pub fn rfp_tc_adaptive_enabled(&self) -> (on: bool)
        ensures
            on == self.cfg.rfp_tc_adaptive,
    {
        self.cfg.rfp_tc_adaptive
    }

    pub fn two_wall_race_pv_only(&self) -> (on: bool)
        ensures
            on == self.cfg.two_wall_race_pv_only,
    {
        self.cfg.two_wall_race_pv_only
    }

    pub fn one_wall_race_pv_only(&self) -> (on: bool)
        ensures
            on == self.cfg.one_wall_race_pv_only,
    {
        self.cfg.one_wall_race_pv_only
    }

    pub fn sf_history_enabled(&self) -> (on: bool)
        ensures
            on == self.hist.sf_history,
    {
        self.hist.sf_history
    }

    pub fn partial_iter_enabled(&self) -> (on: bool)
        ensures
            on == self.cfg.use_partial_iter,
    {
        self.cfg.use_partial_iter
    }

    pub fn predict_stop_enabled(&self) -> (on: bool)
        ensures
            on == self.cfg.use_predict_stop,
    {
        self.cfg.use_predict_stop
    }

    /// Extensions at leaves, with their default cap and swing.
    pub fn enable_q_search(&mut self)
        ensures
            *final(self) == (TitaniumSearch { cfg: final(self).cfg, ..*old(self) }),
            final(self).cfg == (SearchConfig {
                q_search: true,
                q_max: 4,
                q_swing_cp: 60,
                ..old(self).cfg
            }),
    {
        self.cfg = SearchConfig { q_search: true, q_max: pruning::Q_SEARCH_MAX_DEFAULT,
            q_swing_cp: pruning::Q_SWING_CP_DEFAULT, ..self.cfg };
    }

    /// Number of root moves reported; more than one gives each its own score.
    pub fn set_multipv(&mut self, n: u32)
        ensures
            *final(self) == (TitaniumSearch { cfg: final(self).cfg, ..*old(self) }),
            final(self).cfg == (SearchConfig {
                multipv: num::larger(n as int, 1) as usize,
                ..old(self).cfg
            }),
    {
        self.cfg = SearchConfig { multipv: n.max(1) as usize, ..self.cfg };
    }

    pub fn multipv(&self) -> (n: usize)
        ensures
            n == self.cfg.multipv,
    {
        self.cfg.multipv
    }

    /// Which remaining-wall race layers are used.
    pub fn set_remaining_wall_race_layers(&mut self, one_wall: bool, two_wall: bool)
        ensures
            *final(self) == (TitaniumSearch { prover: final(self).prover, ..*old(self) }),
            final(self).prover == (RaceProver {
                one_wall_race_resolved: Some(one_wall),
                two_wall_race_resolved: Some(two_wall),
                ..old(self).prover
            }),
    {
        self.prover.one_wall_race_resolved = Some(one_wall);
        self.prover.two_wall_race_resolved = Some(two_wall);
    }

    pub fn remaining_wall_race_layers(&self) -> (layers: (bool, bool))
        ensures
            layers.0 == (self.prover.one_wall_race_resolved == Some(true)),
            layers.1 == (self.prover.two_wall_race_resolved == Some(true)),
    {
        let one: bool = match self.prover.one_wall_race_resolved {
            Some(on) => on,
            None => false,
        };
        let two: bool = match self.prover.two_wall_race_resolved {
            Some(on) => on,
            None => false,
        };
        (one, two)
    }

    pub fn set_sf_history(&mut self, on: bool)
        ensures
            *final(self) == (TitaniumSearch { hist: final(self).hist, ..*old(self) }),
            final(self).hist == (History { sf_history: on, ..old(self).hist }),
            old(self).hist.wf() ==> final(self).hist.wf(),
    {
        self.hist.sf_history = on;
    }

    /// Starts the offline study of reductions.
    pub fn enable_reduction_probe(&mut self, target: Option<u64>, limit: usize, min_depth: i32)
        ensures
            final(self).probe.enabled,
            final(self).probe.target == target,
            final(self).probe.next == 0,
            final(self).probe.limit == limit,
            final(self).probe.min_depth == min_depth,
            final(self).probe.tuning_percent == old(self).probe.tuning_percent,
            final(self).probe.events@.len() == 0,
            *final(self) == (TitaniumSearch { probe: final(self).probe, ..*old(self) }),
    {
        self.probe = ReductionProbe {
            enabled: true,
            target,
            next: 0,
            limit,
            min_depth,
            tuning_percent: self.probe.tuning_percent,
            events: Vec::new(),
        };
    }

    pub fn reduction_probe_events(&self) -> (events: &Vec<search::ReductionProbeEvent>)
        ensures
            *events == self.probe.events,
    {
        &self.probe.events
    }
}

} // verus!

//! Engine modes of the browser build, and when progress is reported.

use crate::config::SearchConfig;
use crate::game::GameState;
use crate::num;
use crate::search::TitaniumSearch;
use crate::session;
use crate::setup;
use crate::text;
use vstd::prelude::*;

verus! {

/// Parameters of one search.
#[derive(Clone, Copy, Debug, PartialEq, Eq, Structural)]
pub struct TitaniumParams {
    pub time_ms: u64,
    pub max_depth: i32,
    pub max_nodes: u64,
    pub full: bool,
    pub cat: bool,
    pub ti_movegen: bool,
    pub log: bool,
    pub eme: bool,
    pub threads: usize,
}

/// Parameters of a mode: at least one millisecond, depth 30 unless given.
pub open spec fn mode_params(mode: Seq<char>, movetime: int, max_depth: int, legal: bool) -> TitaniumParams {
    TitaniumParams {
        time_ms: num::larger(movetime, 1) as u64,
        max_depth: if max_depth > 0 {
            max_depth as i32
        } else {
            30
        },
        max_nodes: 0,
        full: false,
        cat: false,
        ti_movegen: legal,
        log: false,
        eme: text::contains_text(mode, "pmc"@),
        threads: 1,
    }
}

fn params(mode: &str, movetime_ms: u32, max_depth: i32, legal: bool) -> (p: TitaniumParams)
    ensures
        p == mode_params(mode@, movetime_ms as int, max_depth as int, legal),
{
    TitaniumParams {
        time_ms: (movetime_ms as u64).max(1),
        max_depth: if max_depth > 0 {
            max_depth
        } else {
            30
        },
        max_nodes: 0,
        full: false,
        cat: false,
        ti_movegen: legal,
        log: false,
        eme: text::contains(mode, "pmc"),
        threads: 1,
    }
}

/// Parameters of the current engine's modes.
pub fn titanium_v15_params_from_mode(engine_mode: &str, movetime_ms: u32, max_depth: i32) -> (p:
    TitaniumParams)
    ensures
        p == mode_params(
            engine_mode@,
            movetime_ms as int,
            max_depth as int,
            text::contains_text(engine_mode@, "-ti"@) || engine_mode@ == "ace-v13"@,
        ),
{
    let legal: bool = text::contains(engine_mode, "-ti") || text::str_eq(engine_mode, "ace-v13");
    params(engine_mode, movetime_ms, max_depth, legal)
}

/// Parameters of the older engine's modes.
pub fn ace_params_from_mode(engine_mode: &str, movetime_ms: u32, max_depth: i32) -> (p:
    TitaniumParams)
    ensures
        p == mode_params(
            engine_mode@,
            movetime_ms as int,
            max_depth as int,
            text::contains_text(engine_mode@, "-ti"@),
        ),
{
    let legal: bool = text::contains(engine_mode, "-ti");
    params(engine_mode, movetime_ms, max_depth, legal)
}

/// Does the mode name the current engine?
pub fn is_titanium_v15_mode(engine_mode: &str) -> (yes: bool)
    ensures
        yes == text::has_prefix(engine_mode@, "ace-v13"@),
{
    text::starts_with(engine_mode, "ace-v13")
}

/// The label alone chooses the engine.
pub open spec fn label_decides(l: Seq<char>) -> bool {
    text::has_prefix(l, "ace-v13"@) || text::has_prefix(l, "titanium-v15"@) || text::has_prefix(
        l,
        "titanium-v14"@,
    ) || text::contains_text(l, "grafted"@)
}

/// A searcher by label, or by parameters where the label leaves it open.
pub fn build_titanium_search(g: GameState, params: TitaniumParams, engine_label: &str) -> (s:
    TitaniumSearch)
    requires
        setup::searchable(g),
    ensures
        s.ready(0),
        s.lazy_ok(),
        s.g@ == g@,
        label_decides(engine_label@) ==> s.cfg == session::configured(
            session::base_config(session::kind_of(engine_label@)),
            session::flags_of(engine_label@),
        ),
        label_decides(engine_label@) ==> s.hist.sf_history == session::flags_of(
            engine_label@,
        ).sf_history && s.prover.race_proof == (session::kind_of(engine_label@)
            != session::EngineKind::NoRaceproof),
        !label_decides(engine_label@) ==> s.cfg == (SearchConfig {
            ti_movegen: params.ti_movegen,
            cat_walls: params.cat,
            eme: params.eme,
            ..setup::default_config()
        }) && setup::is_fresh(s, g@),
{
    if text::starts_with(engine_label, "ace-v13") || text::starts_with(engine_label, "titanium-v15")
        || text::starts_with(engine_label, "titanium-v14") || text::contains(
        engine_label,
        "grafted",
    ) {
        return session::build_search(engine_label, g);
    }
    let mut s = if params.ti_movegen && params.cat {
        TitaniumSearch::with_ti_movegen_and_cat(g)
    } else if params.ti_movegen {
        TitaniumSearch::with_ti_movegen(g)
    } else if params.cat {
        TitaniumSearch::with_cat(g)
    } else {
        TitaniumSearch::new(g)
    };
    if params.eme {
        s.enable_eme();
    }
    s
}

/// Nodes between two progress reports, less one.
pub const STREAM_EMIT_NODE_MASK: u64 = 65_535;

/// Least time between two progress reports.
pub const STREAM_EMIT_MIN_INTERVAL_MS: u64 = 100;

/// When progress was last reported.
#[derive(Clone, Copy, Debug, PartialEq, Eq, Structural)]
pub struct ProgressClock {
    pub last_nodes: u64,
    pub last_ms: u64,
}

/// A report is due: forced, or at a full batch of new nodes with enough time since the last.
pub open spec fn report_due(c: ProgressClock, force: bool, nodes: int, elapsed: int) -> bool {
    force || (nodes != 0 && nodes != c.last_nodes && nodes % 65_536 == 0 && elapsed - c.last_ms
        >= 100)
}

impl ProgressClock {
    /// Is a report due? Remembers it if so.
    pub fn report(&mut self, force: bool, nodes: u64, elapsed_ms: u64) -> (due: bool)
        ensures
            due == report_due(*old(self), force, nodes as int, elapsed_ms as int),
            *final(self) == if due {
                ProgressClock { last_nodes: nodes, last_ms: elapsed_ms }
            } else {
                *old(self)
            },
    {
        let due: bool = force || (nodes != 0 && nodes != self.last_nodes && nodes % (
        STREAM_EMIT_NODE_MASK + 1) == 0 && elapsed_ms.saturating_sub(self.last_ms)
            >= STREAM_EMIT_MIN_INTERVAL_MS);
        if due {
            self.last_nodes = nodes;
            self.last_ms = elapsed_ms;
        }
        due
    }
}

/// Counters of the reduction model that only watches.
#[derive(Clone, Copy, Debug, PartialEq, Eq, Structural)]
pub struct ReductionShadowStats {
    pub evaluations: u64,
    pub hypothetical_activations: u64,
    pub inference_nanos: u64,
}

impl ReductionShadowStats {
    pub fn new() -> (s: ReductionShadowStats)
        ensures
            s == (ReductionShadowStats {
                evaluations: 0,
                hypothetical_activations: 0,
                inference_nanos: 0,
            }),
    {
        ReductionShadowStats { evaluations: 0, hypothetical_activations: 0, inference_nanos: 0 }
    }

    /// Counts one evaluation of the model.
    pub fn record(&mut self, would_activate: bool, nanos: u64)
        ensures
            final(self).evaluations == num::smaller(
                old(self).evaluations + 1,
                u64::MAX as int,
            ),
            final(self).hypothetical_activations == num::smaller(
                old(self).hypothetical_activations + if would_activate {
                    1int
                } else {
                    0int
                },
                u64::MAX as int,
            ),
            final(self).inference_nanos == num::smaller(
                old(self).inference_nanos + nanos,
                u64::MAX as int,
            ),
    {
        self.evaluations = self.evaluations.saturating_add(1);
        if would_activate {
            self.hypothetical_activations = self.hypothetical_activations.saturating_add(1);
        }
        self.inference_nanos = self.inference_nanos.saturating_add(nanos);
    }
}

impl Default for ReductionShadowStats {
    fn default() -> (s: ReductionShadowStats)
        ensures
            s.evaluations == 0,
            s.hypothetical_activations == 0,
            s.inference_nanos == 0,
    {
        Self::new()
    }
}

/// Percentage of heat-shaped reduction when none is given.
pub const CAT_LMR_DEFAULT_TUNING_PERCENT: i32 = -177;

/// Percentage of heat-shaped reduction: a given one within its range, or the default.
pub fn cat_lmr_tuning_percent(given: Option<i32>) -> (pct: i32)
    ensures
        pct == match given {
            Some(v) => num::clamped(v as int, -500, 150),
            None => -177,
        },
{
    match given {
        Some(v) => num::clamp_i32(v, -500, 150),
        None => CAT_LMR_DEFAULT_TUNING_PERCENT,
    }
}

} // verus!

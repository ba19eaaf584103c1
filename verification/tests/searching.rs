use std::time::{Duration, Instant};
use titanium::board::compute_dist;
use titanium::bridge::TiBridge;
use titanium::browser::{AceAnswer, WasmAceEngine, WasmEngine};
use titanium::config::NetWeights;
use titanium::dump::{cat_dump_json_packed, pack_eval_dump, CellFeatures, HeatMaps};
use titanium::game::GameState;
use titanium::history::Statistics;
use titanium::host::{BookAdvice, LmrQuery, SearchHost, StillHost};
use titanium::json::{
    board_facts, info_json_line, session_info_line, think_result_progress_json, PonderTelemetry,
};
use titanium::lazy_smp::thread_count;
use titanium::lazy_think::{
    insert_helper, merge_workers, pool_entry, pool_for, worker_share, PoolEntry,
};
use titanium::moves::{algebraic_to_move_id, TITANIUM_NO_MOVE};
use titanium::pruning::Q_SEARCH_MAX_DEFAULT;
use titanium::race::{RaceBound, RaceOutcomeStats};
use titanium::race_cache::Clock;
use titanium::race_root::RaceDeducer;
use titanium::routes::{current_route_cells, route_touches};
use titanium::score::{RaceResultInfo, INF, MATE, RACE_MATE, RACE_WIN_FLOOR};
use titanium::search::{with_jumps, TitaniumSearch};
use titanium::think::{settle_wall, stop_after_depth, IdState, StopReason, ThinkResult};
use titanium::timing::{AceDepthLogEntry, TimingDiag};
use titanium::tt::{tt_unpack_depth, SharedTitaniumTt, SharedTtEntry};

/// Surroundings for tests: a material-and-distance evaluation, no reductions, no book.
struct TestHost {
    t0: Instant,
    deadline: Instant,
    shared: Option<SharedTitaniumTt>,
    stop: bool,
    direct: Option<i16>,
    reports: usize,
    depths: Vec<i32>,
    denied: Option<i16>,
    distances: Option<(i32, i32)>,
    told: Option<(u64, i32)>,
}

impl TestHost {
    fn new() -> TestHost {
        TestHost {
            t0: Instant::now(),
            deadline: Instant::now() + Duration::from_secs(30),
            shared: None,
            stop: false,
            direct: None,
            reports: 0,
            depths: Vec::new(),
            denied: None,
            distances: None,
            told: None,
        }
    }
}

impl Clock for TestHost {
    fn time_left(&mut self, ms: u64) -> bool {
        Instant::now() + Duration::from_millis(ms) <= self.deadline
    }
    fn now_ms(&mut self) -> u64 {
        self.t0.elapsed().as_millis() as u64
    }
}

impl RaceDeducer for TestHost {
    fn deduce(&mut self, _g: &GameState) -> (RaceBound, Option<u16>) {
        (RaceBound::Unknown, None)
    }
}

impl SearchHost for TestHost {
    fn start_clock(&mut self, ms: u64) {
        self.deadline = Instant::now() + Duration::from_millis(ms);
    }
    fn consult_book(&mut self, _g: &GameState) -> BookAdvice {
        BookAdvice {
            direct: self.direct,
            order: Vec::new(),
            attention: Vec::new(),
        }
    }
    fn time_is_up(&mut self) -> bool {
        self.stop || Instant::now() > self.deadline
    }
    fn net_eval(&mut self, g: &GameState, d_me: i32, d_opp: i32) -> i32 {
        self.distances = Some((d_me, d_opp));
        let me = g.turn;
        let mine = compute_dist(&g.hw, &g.vw, me)[g.pawn[me]] as i32;
        let theirs = compute_dist(&g.hw, &g.vw, 1 - me)[g.pawn[1 - me]] as i32;
        40 * (theirs - mine) + 10 * (g.wl[me] - g.wl[1 - me])
    }
    fn certify(&mut self, _: &GameState, _: usize, _: u64, _: u64) -> (bool, u64) {
        (false, 1)
    }
    fn hands_empty_race(&mut self, _: &GameState) -> Option<bool> {
        None
    }
    fn jump_distances(&mut self, _: &GameState) -> Option<(u8, u8)> {
        None
    }
    fn wall_ignore_winner(&mut self, _: &GameState) -> Option<usize> {
        None
    }
    fn impact_heat(&mut self, g: &GameState) -> Vec<i32> {
        (0..256).map(|m| (m * 13 + g.pawn[0] as i32) % 97).collect()
    }
    fn relevant_walls(&mut self, _: &GameState, _: i32) -> Vec<bool> {
        vec![true; 256]
    }
    fn wall_reduction(&mut self, _: &LmrQuery) -> i32 {
        0
    }
    fn pawn_reduction(&mut self, _: &LmrQuery) -> Option<i32> {
        None
    }
    fn move_denied(&mut self, _: &GameState, m: i16) -> bool {
        self.denied == Some(m)
    }
    fn shared_probe(&mut self, lo: u32, hi: u32) -> Option<SharedTtEntry> {
        self.shared.as_ref().and_then(|t| t.probe(lo, hi))
    }
    fn shared_store(&mut self, entry: SharedTtEntry, gen: u8, pure_mode: bool) {
        if let Some(t) = self.shared.as_mut() {
            t.store(entry.key_lo, entry.key_hi, gen, pure_mode, entry);
        }
    }
    fn progress(&mut self, _: &GameState, _: u64, _: i16, _: i32, _: bool) {
        self.reports += 1;
    }
    fn race_told(&mut self, _: &GameState, nodes: u64, score: i32, _: RaceResultInfo) {
        self.told = Some((nodes, score));
    }
    fn depth_done(&mut self, entry: &AceDepthLogEntry, _: &Vec<(i16, i32)>) {
        self.depths.push(entry.depth);
    }
}

fn fresh() -> TitaniumSearch {
    TitaniumSearch::grafted(GameState::new(), Some(18))
}

fn play(moves: &[&str]) -> GameState {
    let mut g = GameState::new();
    for m in moves {
        g.make_move(algebraic_to_move_id(m));
    }
    g
}

#[test]
fn lazy_topn_flag_defaults_off_and_propagates_to_workers() {
    let mut search = fresh();
    assert!(!search.lazy_topn_enabled());
    search.enable_lazy_topn();
    assert!(search.lazy_topn_enabled());
    let worker = search.fork_lazy_worker(search.g.clone());
    assert!(worker.lazy_topn_enabled());
}

#[test]
fn ace_lmp_defaults_off_and_propagates_to_workers() {
    let mut search = fresh();
    assert!(!search.ace_lmp_enabled());
    search.set_ace_lmp(true);
    assert!(search.ace_lmp_enabled());
    let worker = search.fork_lazy_worker(search.g.clone());
    assert!(worker.ace_lmp_enabled());
}

#[test]
fn cat_v16_worker_profiles_raise_fringe_threshold() {
    let mut search = TitaniumSearch::grafted_v17(GameState::new(), Some(18));
    search.set_cat_lmr_worker_profile(0);
    assert_eq!(search.cfg.cat_lmr_fringe_pct, 5);
    search.set_cat_lmr_worker_profile(1);
    assert_eq!(search.cfg.cat_lmr_fringe_pct, 10);
    search.set_cat_lmr_worker_profile(2);
    assert_eq!(search.cfg.cat_lmr_fringe_pct, 20);
    search.set_cat_lmr_worker_profile(4);
    assert_eq!(search.cfg.cat_lmr_fringe_pct, 40);
    search.set_cat_lmr_worker_profile(8);
    assert_eq!(search.cfg.cat_lmr_fringe_pct, 70);
}

#[test]
fn shared_tt_allocation_and_probe_are_shared() {
    let mut search = fresh();
    search.resize_tt(18);
    let mut host = TestHost::new();
    host.shared = Some(SharedTitaniumTt::from_search(&search));
    let mut worker = search.fork_lazy_worker(GameState::new());
    search.install_lazy_smp_context(0, vec![67], vec![0], 1);
    worker.install_lazy_smp_context(1, vec![67], vec![0], 1);
    assert!(search.use_shared && worker.use_shared);

    host.shared_store(
        SharedTtEntry {
            key_hi: 456,
            key_lo: 123,
            meta: 42 | (0 << 10) | (5 << 12),
            score: 99,
            rep: 0,
            anc_lo: 0,
            anc_hi: 0,
            entry_gen: 7,
        },
        7,
        false,
    );
    let entry = host.shared_probe(123, 456).expect("stored helper entry");
    assert_eq!(entry.score, 99);
    assert_eq!(tt_unpack_depth(entry.meta), 5);
}

#[test]
fn shared_stop_flag_is_observed() {
    let mut search = fresh();
    let mut host = TestHost::new();
    host.stop = true;
    search.nodes = 63;
    assert!(search.enter_node(0, &mut host).is_err());
}

#[test]
fn helper_partial_is_used_only_when_main_has_no_completed_move() {
    fn result(mv: i16, depth: i32, nodes: u64) -> ThinkResult {
        ThinkResult {
            mv,
            score: depth * 10,
            root_moves: Vec::new(),
            depth,
            nodes,
            main_thread_nodes: 0,
            helper_nodes: Vec::new(),
            total_nodes: 0,
            main_completed_depth: 0,
            helper_completed_depths: Vec::new(),
            root_widths: Vec::new(),
            root_visits: Vec::new(),
            root_move_ids: Vec::new(),
            ms: 0,
            white_dist: 0,
            black_dist: 0,
            depth_log: Vec::new(),
            stop_reason: "test",
            race_outcome_stats: RaceOutcomeStats::default(),
            root_defense_diag: Vec::new(),
            race: RaceResultInfo::from_score(depth * 10),
            timing: TimingDiag::default(),
        }
    }

    let legal_roots = [11, 22, 33];
    let helpers = vec![
        (1, result(99, 8, 99), Vec::new()),
        (2, result(22, 3, 300), Vec::new()),
        (3, result(33, 4, 200), Vec::new()),
    ];
    let main_ready = result(11, 1, 10);
    assert!(TitaniumSearch::lazy_smp_helper_partial(&main_ready, &helpers, &legal_roots).is_none());

    let main_empty = result(TITANIUM_NO_MOVE, 0, 0);
    let adopted = TitaniumSearch::lazy_smp_helper_partial(&main_empty, &helpers, &legal_roots)
        .expect("legal helper result");
    assert_eq!(adopted.mv, 33);
    assert_eq!(adopted.depth, 4);
}

#[test]
fn route_touch_ordering_flag_defaults_off() {
    let g = GameState::new();
    let search = TitaniumSearch::with_ti_movegen(g);
    assert!(!search.cfg.route_touch_ordering);
}

#[test]
fn enable_route_touch_ordering_sets_flag_and_propagates_to_workers() {
    let mut search = TitaniumSearch::with_ti_movegen(GameState::new());
    search.enable_route_touch_ordering();
    assert!(search.cfg.route_touch_ordering);
    let worker = search.fork_lazy_worker(search.g.clone());
    assert!(worker.cfg.route_touch_ordering);
}

#[test]
fn q_search_defaults_off_and_has_an_explicit_setter() {
    let search = TitaniumSearch::with_ti_movegen(GameState::new());
    assert!(!search.q_search_enabled());
    let mut search = search;
    search.enable_q_search();
    assert!(search.q_search_enabled());
}

#[test]
fn enable_q_search_propagates_to_workers() {
    let mut search = TitaniumSearch::grafted_v17(GameState::new(), None);
    search.enable_q_search();
    let worker = search.fork_lazy_worker(search.g.clone());
    assert!(worker.cfg.q_search);
    assert_eq!(worker.cfg.q_max, Q_SEARCH_MAX_DEFAULT);
}

#[test]
fn ace_rfp_defaults_off_and_propagates_to_workers() {
    let mut search = TitaniumSearch::grafted_v17(GameState::new(), None);
    assert!(!search.ace_rfp_enabled());
    search.set_ace_rfp(true);
    assert!(search.ace_rfp_enabled());
    let worker = search.fork_lazy_worker(search.g.clone());
    assert!(worker.ace_rfp_enabled());
}

#[test]
fn v17_ab_controls_default_on_and_propagate_to_workers() {
    let search = TitaniumSearch::grafted_v17(GameState::new(), None);
    assert!(search.partial_iter_enabled());
    assert!(search.predict_stop_enabled());
    let worker = search.fork_lazy_worker(search.g.clone());
    assert!(worker.partial_iter_enabled());
    assert!(worker.predict_stop_enabled());
}

#[test]
fn v17_ab_controls_can_be_disabled_independently() {
    let mut search = TitaniumSearch::grafted_v17(GameState::new(), None);
    search.set_partial_iter(false);
    assert!(!search.partial_iter_enabled());
    assert!(search.predict_stop_enabled());
    search.set_predict_stop(false);
    assert!(!search.partial_iter_enabled());
    assert!(!search.predict_stop_enabled());
    let worker = search.fork_lazy_worker(search.g.clone());
    assert!(!worker.partial_iter_enabled());
    assert!(!worker.predict_stop_enabled());
}

#[test]
fn probcut_defaults_off_and_has_an_explicit_setter() {
    let mut search = TitaniumSearch::new(GameState::new());
    assert!(!search.cfg.probcut);
    search.set_probcut(true);
    assert!(search.cfg.probcut);
}

#[test]
fn sf_history_defaults_off_and_has_an_explicit_setter() {
    let mut search = TitaniumSearch::new(GameState::new());
    assert!(!search.hist.sf_history);
    search.set_sf_history(true);
    assert!(search.hist.sf_history);
}

fn two_wall_fixture(p0: &str, p1: &str, hands: [i32; 2], turn: usize) -> GameState {
    GameState::from_parts(
        [
            algebraic_to_move_id(p0) as usize,
            algebraic_to_move_id(p1) as usize,
        ],
        hands,
        turn,
    )
}

fn pawn_sq_fixture(p0: usize, p1: usize, hands: [i32; 2], turn: usize) -> GameState {
    GameState::from_parts([p0, p1], hands, turn)
}

fn enabled_two_wall_search(game: GameState) -> TitaniumSearch {
    let mut search = TitaniumSearch::new(game);
    search.prover.two_wall_race_resolved = Some(true);
    search.prover.cache.build_ok = true;
    search.prover.cache.count_cap = u32::MAX;
    search.prover.cache.solve_cap = None;
    search
}

fn enabled_one_wall_search(game: GameState) -> TitaniumSearch {
    let mut search = enabled_two_wall_search(game);
    search.prover.one_wall_race_resolved = Some(true);
    search.prover.two_wall_race_resolved = Some(false);
    search
}

/// Oracle-certified empty-board (p0, p1) with turn=0 where STM wins (`stm_wins`)
/// or loses the pure race. Builds the empty topology race table once.
fn find_empty_board_pure_race_pair(stm_wins: bool) -> (usize, usize) {
    let mut search = enabled_two_wall_search(pawn_sq_fixture(76, 4, [0, 0], 0));
    let mut host = TestHost::new();
    let slot = search
        .prover
        .cache
        .race_tbl(&search.g, true, &mut host)
        .expect("empty-board race_tbl must build under test caps");
    for p0 in 0..81usize {
        for p1 in 0..81usize {
            if p0 == p1 {
                continue;
            }
            let g = pawn_sq_fixture(p0, p1, [0, 0], 0);
            let rv = search.prover.cache.race_value(slot, &g);
            if rv == 0 {
                continue;
            }
            if (rv > 0) == stm_wins {
                return (p0, p1);
            }
        }
    }
    panic!("no empty-board pure-race fixture for stm_wins={stm_wins}");
}

#[test]
fn one_wall_subset_accepts_holder_pure_race_win_as_bound() {
    let game = two_wall_fixture("a6", "i4", [1, 0], 0);
    let mut search = enabled_one_wall_search(game);
    let mut host = TestHost::new();
    assert_eq!(
        search.prover.one_wall_race_bound(&mut search.g, &mut host),
        RaceBound::Lower(RACE_WIN_FLOOR)
    );
    assert_eq!(search.prover.stats.one_wall_decisive, 1);
}

#[test]
fn one_wall_subset_declines_when_delayed_wall_can_matter() {
    // The holder loses the pure race, but the opponent is not one step
    // from goal. A delayed placement may matter, so the subset must fall
    // back instead of manufacturing a loss.
    let game = two_wall_fixture("a2", "i5", [1, 0], 0);
    let mut search = enabled_one_wall_search(game);
    let mut host = TestHost::new();
    assert_eq!(
        search.prover.one_wall_race_bound(&mut search.g, &mut host),
        RaceBound::Unknown
    );
}

#[test]
fn two_wall_subset_is_default_off() {
    let game = two_wall_fixture("a7", "i4", [2, 0], 0);
    let mut search = TitaniumSearch::new(game);
    let mut host = TestHost::new();
    search.prover.two_wall_race_resolved = Some(false);
    assert_eq!(
        search
            .prover
            .two_wall_monopoly_race_bound(&mut search.g, &mut host),
        RaceBound::Unknown
    );
    assert_eq!(search.prover.stats.two_wall_calls, 0);
}

#[test]
fn two_wall_subset_accepts_monopoly_pure_race_win_as_bound() {
    let game = two_wall_fixture("a7", "i4", [2, 0], 0);
    let mut search = enabled_two_wall_search(game);
    let mut host = TestHost::new();
    assert_eq!(
        search
            .prover
            .two_wall_monopoly_race_bound(&mut search.g, &mut host),
        RaceBound::Lower(RACE_WIN_FLOOR)
    );
    assert_eq!(search.prover.stats.two_wall_decisive, 1);
}

#[test]
fn two_wall_forced_placement_fixture_matches_ordinary_search_winner() {
    let game = two_wall_fixture("a7", "i2", [2, 0], 0);
    let mut proof = enabled_two_wall_search(game.clone());
    let mut host = TestHost::new();
    let bound = proof
        .prover
        .two_wall_monopoly_race_bound(&mut proof.g, &mut host);
    assert_ne!(bound, RaceBound::Unknown, "forced-wall subset declined");

    let mut ordinary = TitaniumSearch::new(game);
    ordinary.prover.two_wall_race_resolved = Some(false);
    let result = ordinary.think(30_000, 5, true, &mut host);
    assert!(
        result.score.abs() >= MATE - 1_000,
        "ordinary depth-5 search did not prove the fixture: {}",
        result.score
    );
    assert_eq!(bound.signum(), result.score.signum());
}

#[test]
fn two_wall_subset_rejects_split_nonholder_and_interacting_pawns() {
    let cases = [
        two_wall_fixture("a7", "i2", [1, 1], 0),
        two_wall_fixture("a7", "i2", [0, 2], 0),
        two_wall_fixture("e5", "e6", [2, 0], 0),
    ];
    for game in cases {
        let mut search = enabled_two_wall_search(game);
        let mut host = TestHost::new();
        assert_eq!(
            search
                .prover
                .two_wall_monopoly_race_bound(&mut search.g, &mut host),
            RaceBound::Unknown
        );
    }
}

#[test]
fn broke_side_lower_when_opp_out_of_walls_and_stm_wins_pure_race() {
    let (p0, p1) = find_empty_board_pure_race_pair(true);
    let game = pawn_sq_fixture(p0, p1, [3, 0], 0);
    let mut search = enabled_two_wall_search(game);
    let mut host = TestHost::new();
    match search.prover.one_side_broke_race_bound(&search.g, &mut host) {
        RaceBound::Lower(v) => {
            assert!(
                v > RACE_WIN_FLOOR && v <= RACE_MATE,
                "expected DTM-preserving Lower, got {v}"
            );
        }
        other => panic!("expected Lower, got {other:?} (p0={p0} p1={p1})"),
    }
    assert_eq!(search.prover.stats.broke_decisive, 1);
}

#[test]
fn broke_side_lower_jump_path_fixture() {
    // P0 can jump over P1 (46 -> 28) on the exact empty-board race path.
    // With P1 unable to place, the refuse-to-place theorem must preserve
    // that jump-aware winner as a Lower bound.
    let game = pawn_sq_fixture(46, 37, [3, 0], 0);
    let mut search = enabled_two_wall_search(game);
    let mut host = TestHost::new();
    match search.prover.one_side_broke_race_bound(&search.g, &mut host) {
        RaceBound::Lower(v) => assert!(v > RACE_WIN_FLOOR && v <= RACE_MATE),
        other => panic!("expected jump-aware Lower, got {other:?}"),
    }
    assert_eq!(search.prover.stats.broke_decisive, 1);
}

#[test]
fn broke_side_upper_when_stm_out_of_walls_and_loses_pure_race() {
    let (p0, p1) = find_empty_board_pure_race_pair(false);
    let game = pawn_sq_fixture(p0, p1, [0, 4], 0);
    let mut search = enabled_two_wall_search(game);
    let mut host = TestHost::new();
    match search.prover.one_side_broke_race_bound(&search.g, &mut host) {
        RaceBound::Upper(v) => {
            assert!(
                v < -RACE_WIN_FLOOR && v >= -RACE_MATE,
                "expected DTM-preserving Upper, got {v}"
            );
        }
        other => panic!("expected Upper, got {other:?} (p0={p0} p1={p1})"),
    }
    assert_eq!(search.prover.stats.broke_decisive, 1);
}

#[test]
fn broke_side_declines_when_wallless_player_wins_but_opp_still_has_walls() {
    // STM has 0 walls and wins pure race, but opp still has walls and can
    // spoil — must NOT emit Lower.
    let (p0, p1) = find_empty_board_pure_race_pair(true);
    let game = pawn_sq_fixture(p0, p1, [0, 3], 0);
    let mut search = enabled_two_wall_search(game);
    let mut host = TestHost::new();
    assert_eq!(
        search.prover.one_side_broke_race_bound(&search.g, &mut host),
        RaceBound::Unknown
    );
    assert_eq!(search.prover.stats.broke_unknown, 1);
}

#[test]
fn broke_side_declines_when_walled_stm_loses_pure_race() {
    // STM has walls, opp has none, but STM loses pure race — STM may still
    // spend walls to reverse. Must NOT emit Upper (and must not Lower).
    let (p0, p1) = find_empty_board_pure_race_pair(false);
    let game = pawn_sq_fixture(p0, p1, [4, 0], 0);
    let mut search = enabled_two_wall_search(game);
    let mut host = TestHost::new();
    assert_eq!(
        search.prover.one_side_broke_race_bound(&search.g, &mut host),
        RaceBound::Unknown
    );
    assert_eq!(search.prover.stats.broke_unknown, 1);
}

#[test]
fn broke_side_declines_when_both_armed_or_both_broke() {
    let (p0, p1) = find_empty_board_pure_race_pair(true);
    let mut host = TestHost::new();
    let both_armed = pawn_sq_fixture(p0, p1, [2, 2], 0);
    let mut search = enabled_two_wall_search(both_armed);
    assert_eq!(
        search.prover.one_side_broke_race_bound(&search.g, &mut host),
        RaceBound::Unknown
    );
    assert_eq!(search.prover.stats.broke_calls, 0);

    let both_broke = pawn_sq_fixture(p0, p1, [0, 0], 0);
    let mut search = enabled_two_wall_search(both_broke);
    assert_eq!(
        search.prover.one_side_broke_race_bound(&search.g, &mut host),
        RaceBound::Unknown
    );
    assert_eq!(search.prover.stats.broke_calls, 0);
}

#[test]
fn thinking_returns_a_legal_move_and_keeps_the_position() {
    for flag in 0..4 {
        let g = play(&["e2", "e8", "e3h", "d6h", "e3", "e7"]);
        let key = (g.hash_lo, g.hash_hi);
        let mut search = match flag {
            0 => TitaniumSearch::grafted(g, Some(14)),
            1 => TitaniumSearch::with_ti_movegen_deadzone(g),
            2 => TitaniumSearch::with_ti_movegen_and_cat(g),
            _ => TitaniumSearch::grafted_v17(g, Some(14)),
        };
        if flag == 3 {
            search.enable_q_search();
            search.enable_cat_path_lmr();
            search.enable_eme();
            search.set_sf_history(true);
            search.set_probcut(true);
            search.enable_route_touch_ordering();
        }
        let mut host = TestHost::new();
        let result = search.think(2_000, 2, true, &mut host);
        assert_eq!((search.g.hash_lo, search.g.hash_hi), key);
        let legal = TiBridge::from_game(&search.g).gen_legal_ace();
        assert!(legal.contains(&result.mv));
        assert_eq!(result.depth, 2);
        assert_eq!(result.stop_reason, "max_depth_completed");
        assert_eq!(result.depth_log.len(), 2);
        assert!(result.nodes > 0);
        assert!(host.reports > 0);
        assert_eq!(host.depths, [1, 2]);
    }
}

#[test]
fn a_win_in_one_is_found_and_a_lost_race_is_labelled() {
    // Player 0 stands one step from its goal row.
    let g = GameState::from_parts([13, 40], [2, 2], 0);
    let mut search = TitaniumSearch::grafted(g, Some(14));
    let mut host = TestHost::new();
    let result = search.think(5_000, 3, true, &mut host);
    assert!(result.mv < 9);
    assert_eq!(result.score, MATE - 1);
    assert_eq!(result.stop_reason, "forced_mate_or_loss");

    let race = GameState::from_parts([40, 31], [0, 0], 0);
    let mut search = TitaniumSearch::grafted(race, Some(14));
    let result = search.think(5_000, 3, true, &mut host);
    assert_eq!(result.stop_reason, "race_proof_root_table");
    assert_eq!(result.depth, 99);
    assert!(result.race.exact_dtm.is_some());
    assert_eq!((search.rp_root_solves, search.rp_demotions), (1, 0));
}

#[test]
fn the_book_answers_without_a_search() {
    let mut search = fresh();
    let mut host = TestHost::new();
    host.direct = Some(67);
    let result = search.think(1_000, 3, true, &mut host);
    assert_eq!(result.mv, 67);
    assert_eq!(result.nodes, 0);
    assert_eq!(result.stop_reason, "opening-book");
    assert_eq!((result.white_dist, result.black_dist), (8, 8));
}

#[test]
fn a_repetition_on_the_line_is_a_draw() {
    let mut search = fresh();
    let mut host = TestHost::new();
    search.path[0] = (search.g.hash_lo, search.g.hash_hi);
    let r = search.ab(3, -INF, INF, 1, true, 0, 0, &mut host);
    assert_eq!(r.ok(), Some(0));
    assert_eq!(search.windows[1].min_ply, 0);
    let won = GameState::from_parts([4, 40], [2, 2], 1);
    let mut search = TitaniumSearch::grafted(won, Some(14));
    assert_eq!(search.ab(3, -INF, INF, 2, true, 4, 0, &mut host).ok(), Some(-(MATE - 2)));
    let mut deep = fresh();
    assert_eq!(deep.ab(3, -INF, INF, 63, true, 0, 0, &mut host).ok(), Some(0));
    assert_eq!(deep.windows[63].min_ply, -1);
}

#[test]
fn root_passes_pick_and_report() {
    let g = GameState::from_parts([40, 58], [0, 1], 0);
    let mut search = TitaniumSearch::grafted(g, Some(14));
    let mut host = TestHost::new();
    search.root_defense_verify(1, &mut host).ok().unwrap();
    assert_eq!(search.root_defense_diag.len(), 4);
    assert!(search.root_defense_diag.iter().any(|d| d.mv == search.root_best));
    let (score, cands) = search.root_clean_win_verify(1, &mut host).ok().unwrap();
    assert_eq!(cands.len(), 4);
    assert_eq!(score, search.root_score);
}

#[test]
fn one_thread_matches_existing_search_at_fixed_depth() {
    let mut host = TestHost::new();
    let mut old = fresh();
    let mut new = fresh();
    let a = old.think(10_000, 2, true, &mut host);
    let b = think_with_threads(&mut new, 10_000, 2, 1);
    assert_eq!(a.mv, b.mv);
    assert_eq!(a.score, b.score);
    assert_eq!(a.depth, b.depth);
    assert_eq!(a.nodes, b.nodes);
    assert_eq!(a.depth_log.len(), b.depth_log.len());
}

/// Workers one after the other instead of side by side.
fn think_with_threads(
    search: &mut TitaniumSearch,
    time_ms: u64,
    depth: i32,
    threads: usize,
) -> ThinkResult {
    let mut host = TestHost::new();
    search.leave_lazy_smp();
    if thread_count(threads) <= 1 {
        return search.think(time_ms, depth, true, &mut host);
    }
    let pool = search.plan_pool(threads, &mut host).expect("root moves");
    host.shared = Some(SharedTitaniumTt::from_search(search));
    let mut helpers = Vec::new();
    for w in 1..threads {
        let (moves, map) = worker_share(&pool, w);
        let allowed = pool.plans[w].allowed_root_moves();
        let mut worker = search.fork_lazy_worker(search.g.clone());
        worker.install_lazy_smp_context(w, moves, map, allowed);
        let r = worker.think_search(time_ms, depth, true, true, &mut host);
        insert_helper(&mut helpers, (w, r, worker.lazy.visits.clone()));
    }
    let (moves, map) = worker_share(&pool, 0);
    let allowed = moves.len();
    search.install_lazy_smp_context(0, moves, map, allowed);
    let main = search.think_search(time_ms, depth, true, true, &mut host);
    let visits = search.lazy.visits.clone();
    search.leave_lazy_smp();
    merge_workers(main, &helpers, visits, pool)
}

#[test]
fn root_filtering_limits_each_worker_to_its_width() {
    let mut search = fresh();
    let result = think_with_threads(&mut search, 1_000, 1, 5);
    assert_eq!(result.root_widths.len(), 5);
    assert_eq!(result.root_move_ids.len(), 5);

    let retained_sets: Vec<std::collections::HashSet<i16>> = result
        .root_move_ids
        .iter()
        .map(|ids| ids.iter().copied().collect())
        .collect();

    for plan in &result.root_widths {
        let visits = &result.root_visits[plan.worker_id];
        let retained = &result.root_move_ids[plan.worker_id];
        assert_eq!(retained.len(), plan.root_move_count);

        for &idx in visits {
            assert!(
                idx < retained.len(),
                "worker {} visited index {} outside its retained list of {}",
                plan.worker_id,
                idx,
                retained.len()
            );
        }

        let unique = visits
            .iter()
            .copied()
            .collect::<std::collections::HashSet<_>>();
        assert!(
            unique.len() <= plan.root_move_count,
            "worker {} visited {} unique root moves but only retained {}",
            plan.worker_id,
            unique.len(),
            plan.root_move_count
        );

        if plan.worker_id == 0 {
            assert_eq!(plan.root_value_threshold_pct, 20);
        }
    }

    for pair in result.root_widths.windows(2) {
        let looser = &retained_sets[pair[0].worker_id];
        let stricter = &retained_sets[pair[1].worker_id];
        if pair[0].root_value_threshold_pct <= pair[1].root_value_threshold_pct {
            assert!(
                stricter.is_subset(looser),
                "worker {} (threshold {}) retained a move worker {} (threshold {}) dropped",
                pair[1].worker_id,
                pair[1].root_value_threshold_pct,
                pair[0].worker_id,
                pair[0].root_value_threshold_pct
            );
        }
    }
}

#[test]
fn lazy_topn_only_limits_last_worker_when_pool_has_three_threads() {
    let mut search = fresh();
    search.enable_lazy_topn();
    let result = think_with_threads(&mut search, 1_000, 1, 3);
    assert_eq!(result.root_widths.len(), 3);
    assert_eq!(result.root_widths[0].top_n_override, None);
    assert_eq!(result.root_widths[1].top_n_override, None);
    assert_eq!(result.root_widths[2].top_n_override, Some(3));
    assert_eq!(result.root_widths[2].allowed_root_moves(), 3);
    assert!(
        result.root_visits[2].iter().copied().max().unwrap_or(0) < 3,
        "last worker visited outside its effective top-N"
    );
}

#[test]
fn helper_depth_does_not_replace_main_authority() {
    let mut search = fresh();
    let result = think_with_threads(&mut search, 1_000, 2, 4);
    assert_eq!(result.depth, result.main_completed_depth);
    assert_eq!(
        result.main_thread_nodes + result.helper_nodes.iter().sum::<u64>(),
        result.total_nodes
    );
    assert_eq!(result.nodes, result.total_nodes);
}

#[test]
fn race_stress_no_illegal_moves_or_hangs() {
    for _ in 0..8 {
        let mut search = fresh();
        let result = think_with_threads(&mut search, 250, 3, 4);
        let legal = TiBridge::from_game(&search.g).gen_legal_ace();
        assert!(!legal.is_empty());
        assert!(legal.contains(&result.mv));
    }
}

#[test]
fn bridges_mirror_the_game() {
    let g = play(&["e2", "e8", "e3h"]);
    let mut b = TiBridge::from_game(&g);
    assert_eq!((b.board.hash_lo, b.board.hash_hi), (g.hash_lo, g.hash_hi));
    b.push(algebraic_to_move_id("e7"));
    assert_eq!(b.ahead, 1);
    b.pop();
    assert_eq!((b.board.hash_lo, b.board.hash_hi), (g.hash_lo, g.hash_hi));
    b.pop();
    assert_eq!(b.ahead, 0);
}

#[test]
fn reports_are_written() {
    let mut search = fresh();
    let mut host = TestHost::new();
    let r = search.think(1_000, 1, true, &mut host);
    let line = session_info_line("titanium-v15", &r);
    assert!(line.starts_with("info json {\"engine\":\"titanium-v15\",\"stoppedBy\":\"max_depth_completed\",\"searchDepth\":1,"));
    assert!(line.ends_with("\"helperCompletedDepths\":[]}"));
    let json = think_result_progress_json("titanium-v15", &r, true, 1);
    assert!(json.ends_with("\"scoreKind\":\"score\",\"scoreProven\":false,\"raceOutcome\":0,\"estimatedPlies\":null,\"estimateTolerancePlies\":0,\"dtm\":null}"));
    assert!(json.contains("\"depthLog\":[{\"depth\":1,"));
    let facts = board_facts(&search.g, 255, 7);
    let mut tel = PonderTelemetry::default();
    tel.predicted = 67;
    tel.hit = true;
    let info = info_json_line("titanium-v15", &r, &tel, &facts);
    assert!(info.contains("\"ponderPredicted\":\"e2\",\"ponderHit\":true,\"wallsP0\":10,\"wallsP1\":10,\"pawnP0\":76,\"pawnP1\":4,\"turn\":0,\"histLen\":0,\"distP0\":8,\"distP1\":8,\"jaDistP0\":-1,\"jaDistP1\":7,\"minRemainingPlies\":7,\"wallDiffSide\":0}"));
}

#[test]
fn dumps_are_written() {
    let mut search = fresh();
    let mut host = TestHost::new();
    let maps = HeatMaps {
        witness_p0: [1; 81],
        witness_p1: [2; 81],
        propagated_p0: [300; 81],
        propagated_p1: [4; 81],
        propagated: [5; 81],
    };
    let cells = CellFeatures {
        cat_best_p0: 6,
        cat_best_p1: -7,
        maps,
        pawn_fwd_p0: [0; 81],
        pawn_fwd_p1: [0; 81],
        corridor_delta_p0: [0; 81],
        corridor_delta_p1: [0; 81],
        choke_p0: [0; 81],
        choke_p1: [0; 81],
        contested: [0; 81],
        route_p0: [0; 81],
        route_p1: [0; 81],
        flank_p0: [0; 81],
        flank_p1: [0; 81],
    };
    let json = search.eval_dump_json(&cells, &mut host);
    assert!(json.starts_with("{\"turn\":0,\"pawn0\":76,\"pawn1\":4,\"wl0\":10,\"wl1\":10,\"d0\":8,\"d1\":8,\"legal_wall_count\":0,"));
    assert!(json.contains("\"cat_best_p0\":6,\"cat_best_p1\":-7,\"cat_witness_p0_field\":[1,1,"));
    assert!(json.contains("\"corridor_width0\":9,\"corridor_width1\":9,\"goal_inv_p0_field\":[0,0,"));
    assert!(json.ends_with("],\"net_eval\":0,\"eval\":0}"));
    let packed = pack_eval_dump(3, "s1", &json);
    assert!(packed.starts_with("{\"row\":3,\"ok\":true,\"feature_schema\":\"s1\",\"protocol\":\"eval-packed-v1\",\"turn\":0,"));
    assert_eq!(search.eval_dump_json_packed(3, "s1", &cells, &mut host), packed);
    let cat = cat_dump_json_packed(4, &maps);
    assert!(cat.starts_with("{\"row\":4,\"ok\":true,\"protocol\":\"catv5-precise-packed-v2\",\"cat_witness_p0_field\":[1,"));
    assert!(cat.ends_with(",5]}"));
}

#[test]
fn played_moves_and_new_positions() {
    let mut search = fresh();
    search.apply_move(algebraic_to_move_id("e2"));
    assert_eq!(search.g.pawn, [67, 4]);
    let gen = search.table.tt_gen;
    search.root_score = 40;
    assert_eq!(search.surprise(-160), 200);
    let scaled = || Statistics {
        history_tbl: vec![7; 256],
        hist_sf0: vec![-3; 256],
        hist_sf1: vec![0; 256],
        cont_hist: vec![5; 65_536],
    };
    assert!(search.migrate_root(algebraic_to_move_id("e8"), scaled()));
    assert_eq!(search.table.tt_gen, gen + 1);
    assert_eq!(search.hist.history_tbl[9], 7);
    let mut odd = scaled();
    odd.hist_sf1[3] = 1_048_577;
    odd.history_tbl[9] = 8;
    assert!(!search.decay_history_by_surprise(odd));
    assert_eq!(search.hist.history_tbl[9], 7);
    search.set_position(GameState::new());
    assert_eq!(search.g.pawn, [76, 4]);
    let mut host = TestHost::new();
    assert_eq!(search.eval_position(&mut host), 0);
    search.enable_reduction_probe(None, 10, 1);
    assert!(search.reduction_probe_events().is_empty());
}

#[test]
fn warm_engines_keep_a_game() {
    let mut e = WasmEngine::new(0);
    assert_eq!(e.search.cfg.weights, NetWeights::Frozen);
    assert_eq!(e.engine_label, "titanium-v15-frozen");
    assert_eq!(WasmEngine::new(1).search.cfg.weights, NetWeights::Medium);
    assert_eq!(WasmEngine::new(2).engine_label, "titanium-v15");
    assert_eq!(e.position("e2 e8").ok(), Some(2));
    assert_eq!(e.position("e2 zz").err().unwrap(), "move zz cannot be played");
    assert_eq!(e.search.g.pawn, [67, 13]);
    assert!(e.make_move("e3"));
    assert!(!e.make_move("zz"));
    assert_eq!(e.winner(), -1);
    let mut host = TestHost::new();
    let a = e.go_with_profile(300, 7, 3, 140, -1, &mut host);
    let r = a.result.expect("a search");
    assert_eq!(a.text, titanium::moves::move_id_to_algebraic(r.mv));
    assert_eq!(e.last_search_depth(), r.depth);
    assert_eq!(e.last_search_nodes(), r.nodes);
    assert_eq!((e.profile.worker_id, e.profile.late_wall_skip_pct), (3, 100));
    assert_eq!(e.legal_moves(), "");
    let won = "e2 a8 e3 a9 e4 a8 e5 a9 e6 a8 e7 a9 e8 a8 e9";
    assert_eq!(e.position(won).ok(), Some(15));
    assert_eq!(e.winner(), 0);
    let a = e.go(300, 0, &mut host);
    assert_eq!(a.text, "(none)");
    assert!(a.result.is_none());
    e.reset();
    assert_eq!(e.search.g.pawn, [76, 4]);
    assert_eq!(e.search.table.base.filled, 0);
    assert!(e.search.hist.history_tbl.iter().all(|h| *h == 0));
    assert!(e.search.hist.killers.iter().all(|k| *k == (0, 0)));
    // Far cells and walls that do not fit are not legal.
    assert!(!e.make_move("e5"));
    assert!(e.make_move("e4h"));
    assert!(!e.make_move("e4v"));
    assert_eq!(e.search.g.pawn, [76, 4]);
}

#[test]
fn one_shot_engines_answer() {
    let mut host = TestHost::new();
    let e = WasmAceEngine::new();
    match e.genmove("e2 e8", 200, 1, "ace-v13-ti", &mut host) {
        AceAnswer::Move(t, book, found) => {
            assert!(t != "(none)" && !book);
            assert_eq!(found.map(|r| titanium::moves::move_id_to_algebraic(r.mv)), Some(t));
        }
        AceAnswer::Older(_) => panic!("this mode is current"),
    }
    match e.genmove("e2 zz", 200, 1, "ace-v13", &mut host) {
        AceAnswer::Move(t, _, _) => assert_eq!(t, "(none)"),
        AceAnswer::Older(_) => panic!("this mode is current"),
    }
    match e.genmove("", 200, 0, "ace-v12-ti", &mut host) {
        AceAnswer::Older(p) => assert!(p.ti_movegen && p.max_depth == 30 && p.time_ms == 200),
        AceAnswer::Move(..) => panic!("this mode is older"),
    }
}

#[test]
fn a_root_score_inside_the_window_is_the_best_moves() {
    let mut search = TitaniumSearch::grafted(play(&["e2", "e8"]), Some(14));
    let mut host = TestHost::new();
    let v = search.ab(1, -INF, INF, 0, true, 0, 0, &mut host).ok().unwrap();
    assert_eq!(search.root_score, v);
    let best = search.root_moves.iter().map(|x| x.1).max();
    assert_eq!(best, Some(v));
    assert!(search
        .root_moves
        .iter()
        .any(|x| x.0 == search.root_best && x.1 == v));
}

#[test]
fn route_cells_follow_the_shortest_way() {
    let g = GameState::new();
    let r = current_route_cells(&g);
    // On the empty board the only shortest route of a pawn is its own file.
    for c in 0..81 {
        assert_eq!(r.route0[c] != 0, c % 9 == 4);
        assert_eq!(r.near0[c] != 0, c % 9 == 3 || c % 9 == 5);
        assert_eq!(r.contested[c] != 0, c % 9 >= 3 && c % 9 <= 5);
    }
    let f0 = compute_dist(&g.hw, &g.vw, 0);
    let f1 = compute_dist(&g.hw, &g.vw, 1);
    let touch = route_touches(&g, &f0, &f1);
    assert!(touch[algebraic_to_move_id("e5h") as usize]);
    assert!(touch[algebraic_to_move_id("d5v") as usize]);
    assert!(!touch[algebraic_to_move_id("a5h") as usize]);
    assert!(!touch[40]);
}

#[test]
fn stricter_workers_keep_fewer_moves() {
    let roots: Vec<i16> = (81..101).collect();
    let base: Vec<i32> = (0..256).map(|m| m - 80).collect();
    let pool = pool_for(roots.clone(), &base, 4, true);
    assert_eq!(pool.kept[0], roots[3..].to_vec());
    assert_eq!(pool.kept[1], roots[5..].to_vec());
    assert_eq!(pool.kept[2], roots[7..].to_vec());
    assert_eq!(pool.kept[3], pool.kept[2]);
    assert_eq!(pool.plans[3].top_n_override, Some(3));
    let cold = pool_for(roots.clone(), &Vec::new(), 2, true);
    assert_eq!(cold.kept[1], roots);
}

#[test]
fn the_clock_is_looked_at_on_every_64th_node() {
    let mut host = TestHost::new();
    host.stop = true;
    let mut search = fresh();
    search.refresh_dist(0);
    assert!(search.ab(0, -INF, INF, 1, true, 0, 0, &mut host).is_ok());
    assert_eq!(search.nodes, 1);
    search.nodes = 63;
    assert!(search.ab(0, -INF, INF, 1, true, 0, 0, &mut host).is_err());
    assert_eq!(search.nodes, 64);
    // A root move is not searched once time is up.
    let m = algebraic_to_move_id("e2");
    assert!(search.probe_root_move(true, m, 1, &mut host).is_err());
    assert_eq!(search.nodes, 64);
    let p = search.probe_root_move(false, m, 0, &mut host).ok().unwrap();
    assert_eq!((p.nodes, p.own_dist_after, p.opp_dist_after), (1, 7, 8));
}

#[test]
fn passes_over_no_moves_leave_the_root() {
    let mut host = TestHost::new();
    host.stop = true;
    let mut search = fresh();
    search.refresh_dist(0);
    search.root_best = 67;
    search.root_score = 12;
    assert_eq!(search.defend_among(&Vec::new(), 3, &mut host).ok(), Some(12));
    let (v, found) = search.win_among(&Vec::new(), &Vec::new(), 3, &mut host).ok().unwrap();
    assert_eq!((v, found.len(), search.root_best), (12, 0, 67));
    let gen = search.table.tt_gen;
    assert!(search.root_clean_win_verify(3, &mut host).is_err());
    assert_eq!(search.table.tt_gen, gen + 1);
    assert_eq!((search.root_best, search.root_score), (67, 12));
}

#[test]
fn race_cuts_come_from_the_table() {
    let mut host = TestHost::new();
    let game = pawn_sq_fixture(46, 37, [3, 0], 0);
    let mut search = enabled_two_wall_search(game);
    assert_eq!(search.race_cuts(-100, 100, &mut host), Some(100));
    let game = pawn_sq_fixture(46, 37, [0, 0], 0);
    let mut search = enabled_two_wall_search(game);
    let v = search.race_cuts(-100, 100, &mut host).expect("a solved race");
    assert!(v > RACE_WIN_FLOOR && v <= RACE_MATE);
    let mut open = fresh();
    assert_eq!(open.race_cuts(-100, 100, &mut host), None);
    let mut asked = TitaniumSearch::grafted_wall_ignore_experimental(GameState::new(), Some(14));
    asked.refresh_dist(1);
    assert!(asked.ab(0, -INF, INF, 1, true, 0, 0, &mut host).is_ok());
    assert_eq!(asked.prover.stats.wall_ignore_calls, 1);
    assert_eq!(asked.prover.stats.wall_ignore_unknown, 1);
}

#[test]
fn advice_is_taken_or_left() {
    let mut search = fresh();
    let mut host = TestHost::new();
    let advice = BookAdvice { direct: Some(67), order: Vec::new(), attention: Vec::new() };
    let r = search.think_advised(advice, 1_000, 2, true, &mut host);
    assert_eq!((r.mv, r.nodes, r.stop_reason), (67, 0, "opening-book"));
    let none = BookAdvice { direct: None, order: Vec::new(), attention: Vec::new() };
    let r = search.think_advised(none, 5_000, 2, true, &mut host);
    assert_eq!((r.depth, r.stop_reason), (2, "max_depth_completed"));
    assert_eq!(r.depth_log.last().map(|e| (e.depth, e.score)), Some((2, r.score)));
    assert_eq!(r.depth_log[1].pv, titanium::moves::move_id_to_algebraic(r.mv));
}

#[test]
fn evaluations_come_from_where_they_should() {
    let mut host = TestHost::new();
    // A side out of walls that has lost the race.
    let mut search = enabled_two_wall_search(pawn_sq_fixture(46, 37, [3, 0], 0));
    search.refresh_dist(0);
    assert_eq!(search.evaluate(0, &mut host), 1800);
    let mut other = enabled_two_wall_search(pawn_sq_fixture(46, 37, [3, 0], 1));
    other.refresh_dist(0);
    let v = other.evaluate(0, &mut host);
    assert!(v == -1800 || v.abs() < 2000);
    // Otherwise the network.
    let mut plain = TitaniumSearch::grafted(play(&["e2"]), Some(14));
    plain.refresh_dist(0);
    assert_eq!(plain.evaluate(0, &mut host), -40);
    assert_eq!(plain.eval_position(&mut host), -40);
}

#[test]
fn the_earliest_end_is_a_bound() {
    let mut facts = board_facts(&GameState::from_parts([13, 4], [1, 1], 0), 255, 255);
    assert_eq!((facts.dist_p0, facts.dist_p1), (1, 8));
    let r = fresh().think(500, 1, true, &mut TestHost::new());
    let tel = PonderTelemetry::default();
    assert!(info_json_line("x", &r, &tel, &facts).contains("\"minRemainingPlies\":1,"));
    facts.turn = 1;
    assert!(info_json_line("x", &r, &tel, &facts).contains("\"minRemainingPlies\":2,"));
}

#[test]
fn denied_moves_are_left_out_of_the_root() {
    let mut host = TestHost::new();
    host.denied = Some(algebraic_to_move_id("e2"));
    let mut search = fresh();
    let list = search.ordered_root_moves_snapshot(&mut host);
    assert_eq!(list.len(), 130);
    assert!(!list.contains(&algebraic_to_move_id("e2")));
    search.root_defense_verify(1, &mut host).ok().unwrap();
    assert_eq!(search.root_defense_diag.len(), 130);
}

#[test]
fn a_pool_begins_where_there_is_something_to_share() {
    assert_eq!(pool_entry(true, Some(67), true), PoolEntry::Alone);
    assert_eq!(pool_entry(false, Some(67), true), PoolEntry::Book);
    assert_eq!(pool_entry(false, None, true), PoolEntry::Pool);
    assert_eq!(pool_entry(false, None, false), PoolEntry::Alone);
}

fn deepening(last_best: i16, last_score: i32, stable: u32) -> IdState {
    IdState {
        last_best,
        last_score,
        last_depth: 9,
        stable,
        best_move_changes: 0,
        score_delta: 0,
        last_pawn_best: 67,
        last_pawn_score: Some(-30),
        partial_iter_used: false,
    }
}

#[test]
fn a_last_wall_gives_way_only_to_a_shown_loss() {
    let st = deepening(200, 15, 0);
    let t = settle_wall(st, Some(true));
    assert_eq!((t.last_best, t.last_score, t.last_depth), (67, -30, 9));
    assert_eq!(settle_wall(st, Some(false)), st);
    assert_eq!(settle_wall(st, None), st);
}

#[test]
fn a_full_search_knows_no_soft_limit() {
    let easy = deepening(67, 20, 3);
    assert_eq!(stop_after_depth(&easy, 9, false, 400, 1_000, 500), Some(StopReason::EasyMove));
    assert_eq!(stop_after_depth(&easy, 9, true, 400, 1_000, 500), None);
    assert_eq!(stop_after_depth(&easy, 8, false, 600, 1_000, 500), Some(StopReason::SoftBudgetAfter));
    assert_eq!(stop_after_depth(&easy, 8, true, 600, 1_000, 500), None);
    let mate = deepening(67, MATE - 5, 0);
    assert_eq!(stop_after_depth(&mate, 1, true, 0, 1_000, 500), Some(StopReason::Forced));
}

#[test]
fn jump_distances_replace_known_distances() {
    assert_eq!(with_jumps(0, 4, 6, Some((3, 255))), (3, 6));
    assert_eq!(with_jumps(1, 4, 6, Some((3, 255))), (4, 3));
    assert_eq!(with_jumps(1, 4, 6, None), (4, 6));
    // The evaluation hands them on with the position.
    let mut host = TestHost::new();
    let mut search = TitaniumSearch::grafted(play(&["e2"]), Some(14));
    search.refresh_dist(0);
    search.evaluate(0, &mut host);
    assert_eq!(host.distances, Some((8, 7)));
}

#[test]
fn the_books_order_is_kept() {
    let mut search = fresh();
    let mut host = TestHost::new();
    let order: Vec<i16> = (0..30).collect();
    let advice = BookAdvice { direct: None, order: order.clone(), attention: vec![5; 30] };
    search.think_advised(advice, 5_000, 1, true, &mut host);
    assert_eq!(search.book_order, order);
    assert_eq!(search.book_attention, vec![5; 30]);
}

#[test]
fn setup_is_skipped_on_request() {
    let mut search = fresh();
    let mut host = TestHost::new();
    let gen = search.table.tt_gen;
    search.think_search(5_000, 1, true, true, &mut host);
    assert_eq!(search.table.tt_gen, gen);
    search.think_search(5_000, 1, true, false, &mut host);
    assert_eq!(search.table.tt_gen, gen + 1);
}

#[test]
fn a_table_entry_ends_a_node() {
    let mut search = fresh();
    let mut host = TestHost::new();
    search.refresh_dist(1);
    let v = search.ab(2, -INF, INF, 1, true, 0, 0, &mut host).ok().unwrap();
    let spent = search.nodes;
    assert!(spent > 1);
    // The same node again is found in the table, at its own depth.
    let stored = search.table.base.probe(search.g.hash_lo, search.g.hash_hi).unwrap();
    assert_eq!(tt_unpack_depth(stored.meta), 2);
    assert_eq!(search.ab(2, -INF, INF, 1, true, 0, 0, &mut host).ok(), Some(v));
    assert_eq!(search.nodes, spent + 1);
}

#[test]
fn a_search_cut_short_answers_a_completed_move() {
    // Time runs out on a node count that falls inside a later depth.
    let mut host = TestHost::new();
    let mut search = fresh();
    search.refresh_dist(0);
    let v = search.ab(1, -INF, INF, 0, true, 0, 0, &mut host).ok().unwrap();
    let (best, score) = (search.root_best, search.root_score);
    assert_eq!(score, v);
    search.root_moves = Vec::new();
    host.stop = true;
    search.nodes = 0;
    assert!(search.ab(2, -INF, INF, 0, true, 0, 0, &mut host).is_err());
    assert_eq!(search.nodes, 64);
    // What stands at the root was searched to the end, or stood there before.
    let kept = (search.root_best, search.root_score) == (best, score);
    let noted = search
        .root_moves
        .iter()
        .any(|&(m, s)| (m, s) == (search.root_best, search.root_score));
    assert!(kept || noted);
}

#[test]
fn nothing_happens_in_still_surroundings() {
    let mut host = StillHost;
    let mut search = fresh();
    let a = search.think(1_000, 2, true, &mut host);
    let mut again = fresh();
    let b = again.think(1_000, 2, true, &mut host);
    assert_eq!((a.mv, a.score, a.depth, a.nodes), (b.mv, b.score, 2, b.nodes));
    assert_eq!(a.stop_reason, "max_depth_completed");
    search.refresh_dist(0);
    assert_eq!(search.evals.get(&search.g), Some(0));
}

#[test]
fn a_solved_race_is_won_by_the_fastest_move() {
    // Nearest win: straight up, four steps, the opponent far behind.
    let race = GameState::from_parts([40, 31], [0, 0], 0);
    let mut search = TitaniumSearch::grafted(race.clone(), Some(14));
    let mut host = TestHost::new();
    let r = search.think(5_000, 3, true, &mut host);
    assert_eq!(r.nodes, race.gen_pawn_moves().len() as u64);
    let plies = r.race.exact_dtm.unwrap();
    assert_eq!(r.score.abs(), RACE_MATE - i32::from(plies));
    // After the move the other side is one ply nearer to the same end.
    let mut next = race;
    next.make_move(r.mv);
    let mut search = TitaniumSearch::grafted(next, Some(14));
    let s = search.think(5_000, 3, true, &mut host);
    assert_eq!(s.race.exact_dtm, Some(plies - 1));
    assert_eq!(s.score.signum(), -r.score.signum());
    assert_eq!(host.told, None);
}

#[test]
fn a_judged_race_is_told_at_once() {
    let race = GameState::from_parts([13, 31], [0, 0], 0);
    let mut search = TitaniumSearch::with_ti_movegen_cheap_cert(race, Some(14));
    let mut host = TestHost::new();
    let r = search.think(5_000, 3, true, &mut host);
    assert_eq!((r.stop_reason, r.score), ("semi_terminal_race_exact", RACE_MATE - 1));
    assert_eq!(host.told, Some((r.nodes, RACE_MATE - 1)));
}

#[test]
fn a_full_table_does_not_grow() {
    let mut search = fresh();
    search.table.tt_max = search.table.base.bits;
    let before = search.table.base.slots.clone();
    search.table.tt_grow();
    assert!(search.table.base.slots == before);
    assert_eq!(search.table.base.bits, search.table.tt_max);
}

use titanium::game::GameState;
use titanium::hygiene::{glob_match, reason};
use titanium::browser::{answer_text, late_wall_skip, replay_moves, tier_label};
use titanium::modes::{
    cat_lmr_tuning_percent, is_titanium_v15_mode, titanium_v15_params_from_mode, ProgressClock,
};
use titanium::ponder::{
    split_line, Heard, PonderAction, PonderSession, PonderStep, Pondering, Slice, TimedKind,
};
use titanium::session::{
    bestmove_line, build_search, engine_kind, replay, split_words, EngineKind, SessionAction,
    TitaniumSession,
};

#[test]
fn glob_match_works() {
    assert!(glob_match("*handoff*", "training_handoff.md"));
    assert!(glob_match("*handoff*", "handoff.md"));
    assert!(glob_match("*.log", "loop.log"));
    assert!(glob_match("progress.txt", "progress.txt"));
    assert!(glob_match("baseline_v*.txt", "baseline_v18.txt"));
    assert!(glob_match("morning_brief*", "morning_brief_2026-08-16.md"));

    assert!(!glob_match("*handoff*", "readme.md"));
    assert!(!glob_match("*.log", "logic.rs"));
    assert!(!glob_match("progress.txt", "progress.md"));
    assert!(!glob_match("baseline_v*.txt", "baseline.md"));
}

#[test]
fn reasons_name_the_rule() {
    assert_eq!(reason("Training/run.py"), Some("lives under `training/`".to_string()));
    assert_eq!(reason("docs/Session_Handoff.md"), Some("matches `*handoff*`".to_string()));
    assert_eq!(reason("a/b/c.LOG"), Some("matches `*.log`".to_string()));
    assert_eq!(reason("src/weights/net.npz"), None);
    assert_eq!(reason("src/lib.rs"), None);
}

#[test]
fn v17_route_touch_session_enables_experiments() {
    let search = build_search("titanium-v17-route-touch", GameState::new());
    assert!(search.route_touch_ordering_enabled());
    assert!(!search.q_search_enabled());
}

#[test]
fn v17_session_enables_qsearch_without_route_touch() {
    let search = build_search("titanium-v17", GameState::new());
    assert!(search.q_search_enabled());
    assert!(!search.route_touch_ordering_enabled());
}

#[test]
fn v17_qsearch_session_enables_experiments() {
    let search = build_search("titanium-v17-qsearch", GameState::new());
    assert!(search.q_search_enabled());
    assert!(!search.route_touch_ordering_enabled());
}

#[test]
fn v17_cat_path_lmr_inherits_v17_and_only_enables_path_flag() {
    let search = build_search("titanium-v17-cat-path-lmr", GameState::new());
    assert!(search.q_search_enabled());
    assert!(search.cat_path_lmr_enabled());
    assert!(!search.route_touch_ordering_enabled());
    assert!(search.sf_history_enabled());
}

#[test]
fn default_v17_enables_cat_path_lmr() {
    let search = build_search("titanium-v17", GameState::new());
    assert!(search.cat_path_lmr_enabled());
}

#[test]
fn v17_lazy_topn_inherits_v17_and_only_enables_lazy_topn() {
    let search = build_search("titanium-v17-lazy-topn", GameState::new());
    assert!(search.sf_history_enabled());
    assert!(search.q_search_enabled());
    assert!(search.cat_path_lmr_enabled());
    assert!(search.lazy_topn_enabled());
    assert!(!search.route_touch_ordering_enabled());
}

#[test]
fn default_v17_enables_lazy_topn() {
    let search = build_search("titanium-v17", GameState::new());
    assert!(search.lazy_topn_enabled());
}

#[test]
fn v17_defaults_to_ace_lmp_and_compatibility_label_matches() {
    let candidate = build_search("titanium-v17-lmp-ace", GameState::new());
    let default = build_search("titanium-v17", GameState::new());
    assert!(candidate.sf_history_enabled());
    assert!(candidate.q_search_enabled());
    assert!(candidate.cat_path_lmr_enabled());
    assert!(candidate.lazy_topn_enabled());
    assert!(candidate.ace_lmp_enabled());
    assert!(default.ace_lmp_enabled());
}

#[test]
fn v17_no_partial_iter_disables_only_partial_iteration() {
    let candidate = build_search("titanium-v17-no-partial-iter", GameState::new());
    let default = build_search("titanium-v17", GameState::new());
    assert!(!candidate.partial_iter_enabled());
    assert!(candidate.predict_stop_enabled());
    assert!(default.partial_iter_enabled());
    assert!(default.predict_stop_enabled());
}

#[test]
fn v17_no_predict_stop_disables_only_predictive_stop() {
    let candidate = build_search("titanium-v17-no-predict-stop", GameState::new());
    assert!(candidate.partial_iter_enabled());
    assert!(!candidate.predict_stop_enabled());
}

#[test]
fn v17_no_partial_no_predict_disables_both_controls() {
    let candidate = build_search("titanium-v17-no-partial-no-predict", GameState::new());
    assert!(!candidate.partial_iter_enabled());
    assert!(!candidate.predict_stop_enabled());
}

#[test]
fn v17_rfp_ace_inherits_v17_and_only_changes_rfp() {
    let candidate = build_search("titanium-v17-rfp-ace", GameState::new());
    let default = build_search("titanium-v17", GameState::new());
    assert!(candidate.sf_history_enabled());
    assert!(candidate.q_search_enabled());
    assert!(candidate.cat_path_lmr_enabled());
    assert!(candidate.lazy_topn_enabled());
    assert!(candidate.ace_rfp_enabled());
    assert!(!default.ace_rfp_enabled());
}

#[test]
fn labels_choose_engines() {
    assert_eq!(engine_kind("titanium-v15"), EngineKind::Grafted);
    assert_eq!(engine_kind("titanium-v15-frozen"), EngineKind::Frozen);
    assert_eq!(engine_kind("titanium-v15-medium"), EngineKind::Medium);
    assert_eq!(engine_kind("ace-v13-pure"), EngineKind::Plain);
    assert_eq!(engine_kind("ace-v13-ti-pure"), EngineKind::TiPure);
    assert_eq!(engine_kind("titanium-v16"), EngineKind::HeatReductions);
    assert_eq!(engine_kind("ace-v13-grafted-no-raceproof"), EngineKind::NoRaceproof);
    assert_eq!(engine_kind("something"), EngineKind::TiMovegen);
    assert!(!build_search("titanium-v15-no-raceproof", GameState::new()).prover.race_proof);
}

fn reply(a: SessionAction) -> String {
    match a {
        SessionAction::Reply(t) => t,
        _ => panic!("expected a reply"),
    }
}

#[test]
fn a_session_follows_its_protocol() {
    let mut s = TitaniumSession::new("titanium-v15");
    assert!(matches!(s.handle("   "), SessionAction::Ignore));
    assert_eq!(reply(s.handle("position e2 e8")), "ready 2");
    assert_eq!(s.search.g.pawn, [67, 13]);
    assert_eq!(reply(s.handle("position e2 e8 e3h")), "ready 3");
    assert_eq!(s.search.g.wl, [9, 10]);
    assert_eq!(reply(s.handle("makemove e7")), "ready");
    assert_eq!(s.applied.len(), 4);
    assert_eq!(reply(s.handle("makemove")), "error makemove requires a move");
    assert_eq!(reply(s.handle("makemove zz")), "error move zz cannot be played");
    assert!(matches!(s.handle("go 2.5"), SessionAction::Think(Some(t)) if t == "2.5"));
    assert!(matches!(s.handle("go"), SessionAction::Think(None)));
    assert_eq!(reply(s.handle("position e2")), "ready 1");
    assert_eq!(s.search.g.wl, [10, 10]);
    assert_eq!(reply(s.handle("dance")), "error unknown command");
    assert_eq!(reply(s.handle("reset")), "ready");
    assert_eq!(s.search.g.pawn, [76, 4]);
    assert!(matches!(s.handle("quit"), SessionAction::Quit));
}

#[test]
fn finished_games_take_no_more_moves() {
    let moves: Vec<String> = ["e9", "e8", "d9"].iter().map(|s| s.to_string()).collect();
    let err = replay(&moves).err().unwrap();
    assert_eq!(err, "move e8 past terminal position");
    let mut s = TitaniumSession::new("titanium-v15");
    assert_eq!(reply(s.handle("position e9")), "ready 1");
    assert_eq!(reply(s.handle("go 1")), "error terminal position");
    assert_eq!(reply(s.handle("makemove e8")), "error terminal position");
    assert_eq!(
        reply(s.handle("position e9 e8")),
        "error move e8 past terminal position"
    );
}

#[test]
fn words_and_parts_split_differently() {
    assert_eq!(split_words("  a  b\tc "), vec!["a", "b", "c"]);
    assert_eq!(split_line("  go  5 x y z "), vec!["go", "", "5", "x y z"]);
    assert!(split_line(" \t ").is_empty());
    assert_eq!(bestmove_line(-1), "bestmove (none)");
    assert_eq!(bestmove_line(67), "bestmove e2");
}

fn said(a: PonderAction) -> String {
    match a {
        PonderAction::Reply(t) => t,
        PonderAction::SetGame(t) => t,
        _ => panic!("expected a line"),
    }
}

#[test]
fn a_pondering_session_follows_its_protocol() {
    let mut s = PonderSession::new(true);
    assert_eq!(said(s.handle("position e2 e8")), "ready 2");
    assert!(matches!(s.handle("go infinite e3"), PonderAction::Ponder(58)));
    assert_eq!(s.ponder_mv, 58);
    assert!(
        matches!(s.handle("ponderhit 3"), PonderAction::Timed(TimedKind::PonderHit, Some(t)) if t == "3")
    );
    assert_eq!(s.g.pawn, [58, 13]);
    assert_eq!(s.ponder_mv, -1);
    assert_eq!(s.applied, vec!["e2", "e8", "e3"]);
    assert!(
        matches!(s.handle("movemiss e7 2"), PonderAction::Timed(TimedKind::MoveMiss, Some(t)) if t == "2")
    );
    assert_eq!(s.g.pawn, [58, 22]);
    assert_eq!(said(s.handle("movemiss")), "error movemiss requires MOVE TIME_MS");
    assert!(
        matches!(s.handle("go rem 30"), PonderAction::Timed(TimedKind::GoRemaining, Some(t)) if t == "30")
    );
    let (line, on) = s.after_go(49);
    assert_eq!(line, "bestmove e4");
    assert!(on);
    assert_eq!(s.g.pawn, [49, 22]);
    assert!(matches!(s.handle("stop"), PonderAction::Stop));
    assert!(matches!(s.handle("quit"), PonderAction::Quit));
    assert_eq!(said(s.handle("reset")), "ready");
    assert_eq!(s.g.pawn, [76, 4]);
}

#[test]
fn pondering_chooses_stands_and_credits() {
    let g = GameState::new();
    let mut p = Pondering::start(-1);
    let slice = Slice { mv: 67, nodes: 10, ms: 50 };
    for _ in 0..7 {
        assert_eq!(p.after_slice(slice, &g), None);
    }
    assert_eq!(p.after_slice(slice, &g), Some(67));
    assert_eq!(p.tel.nodes, 80);
    assert_eq!(p.tel.chunks, 8);
    assert_eq!(p.tel.predicted, 67);
    let (lo, hi) = p.stands_on.unwrap();
    assert_eq!(p.hear(Heard::GoTimed(5)), PonderStep::ThinkAfterReturn(5));
    assert_eq!(p.hear(Heard::Stop), PonderStep::Answer(67));
    assert_eq!(p.hear(Heard::SetGame(lo, hi)), PonderStep::Replace);
    assert!(p.tel.hit);
    assert!(p.choosing);
    assert_eq!(p.last_mv, -1);
    let mut hinted = Pondering::start(67);
    assert_eq!(hinted.after_slice(slice, &g), Some(67));
    assert_eq!(hinted.hear(Heard::PonderHit(9)), PonderStep::ThinkHere(9));
    assert!(hinted.tel.hit);
    assert_eq!(hinted.hear(Heard::Quit), PonderStep::Leave);
    assert_eq!(hinted.hear(Heard::Nothing), PonderStep::GoOn);
    assert_eq!(hinted.hear(Heard::MoveMiss(3)), PonderStep::ThinkOnNewGame(3));
}

#[test]
fn browser_modes() {
    let p = titanium_v15_params_from_mode("ace-v13-ti-pmc", 0, 0);
    assert_eq!(p.time_ms, 1);
    assert_eq!(p.max_depth, 30);
    assert!(p.ti_movegen && p.eme);
    assert!(is_titanium_v15_mode("ace-v13-x"));
    assert!(!is_titanium_v15_mode("ace-v12"));
    assert_eq!(tier_label(0), "titanium-v15-frozen");
    assert_eq!(tier_label(1), "titanium-v15-medium");
    assert_eq!(tier_label(9), "titanium-v15");
    assert_eq!(late_wall_skip(250), 100);
    assert_eq!(answer_text(-1), "(none)");
    assert_eq!(answer_text(4), "e9");
    assert_eq!(cat_lmr_tuning_percent(None), -177);
    assert_eq!(cat_lmr_tuning_percent(Some(900)), 150);
    let (g, n) = replay_moves("e2 e8").ok().unwrap();
    assert_eq!(n, 2);
    assert_eq!(g.pawn, [67, 13]);
    let won = "e2 a8 e3 a9 e4 a8 e5 a9 e6 a8 e7 a9 e8 a8 e9 a9";
    assert_eq!(
        replay_moves(won).err().unwrap(),
        "illegal replay past terminal: a9"
    );
}

#[test]
fn progress_is_throttled() {
    let mut c = ProgressClock { last_nodes: 0, last_ms: 0 };
    assert!(!c.report(false, 0, 500));
    assert!(!c.report(false, 65_535, 500));
    assert!(!c.report(false, 65_536, 99));
    assert!(c.report(false, 65_536, 100));
    assert!(!c.report(false, 65_536, 900));
    assert!(c.report(true, 65_536, 901));
}

#[test]
fn a_refused_continuation_stays_where_it_got_to() {
    let won = "e2 a8 e3 a9 e4 a8 e5 a9 e6 a8 e7 a9 e8 a8 e9";
    let mut s = TitaniumSession::new("ace-v13-pure");
    assert!(matches!(s.handle("position e2 a8"), SessionAction::Reply(t) if t == "ready 2"));
    let line = format!("position {won} a9");
    assert!(matches!(
        s.handle(&line),
        SessionAction::Reply(t) if t == "error move a9 past terminal position"
    ));
    assert_eq!(s.search.g.winner(), 0);
    assert_eq!(s.applied.len(), 2);
    // A list from the start is refused as a whole.
    assert!(matches!(s.handle("reset"), SessionAction::Reply(t) if t == "ready"));
    assert!(matches!(s.handle(&line), SessionAction::Reply(t) if t.starts_with("error ")));
    assert_eq!(s.search.g.pawn, [76, 4]);
    let mut p = PonderSession::new(false);
    p.handle("position e2 a8");
    p.handle(&line);
    assert_eq!((p.g.winner(), p.applied.len()), (0, 2));
}

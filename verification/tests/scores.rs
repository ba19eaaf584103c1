use titanium::history::{sf_pawn_history_tiebreak, SF_HIST_MAX};
use titanium::json::{ace_progress_json, format_root_defense_diag_json};
use titanium::moves::{
    algebraic_to_move_id, board_move_to_move_id, is_pawn_move, is_wall_move, move_id_to_algebraic,
    move_id_to_board, wall_touches_route, BoardMove, WallOrientation,
};
use titanium::pruning::{
    ace_graduated_eme_extension, probcut_is_eligible, reverse_futility_margin,
    rfp_depth_for_budget, PROBCUT_MAX_ABS_BETA,
};
use titanium::race_root::{race_candidate_definitely_best, RaceRootCandidate};
use titanium::root_select::{defense_selection_key, RootDefenseDiag};
use titanium::score::{
    is_proven_loss_score, is_proven_win_score, proven_score_dtm, score_label, score_result_class,
    RaceResultInfo, MATE, RACE_MATE, RACE_WIN_FLOOR,
};

#[test]
fn labels_race_scores_as_forced_races() {
    assert_eq!(score_label(RACE_MATE - 30), "race win in 30");
    assert_eq!(score_label(-(RACE_MATE - 17)), "race loss in 17");
}

#[test]
fn labels_true_mate_scores_separately_from_races() {
    assert_eq!(score_label(MATE - 5), "mate in 5");
    assert_eq!(score_label(-(MATE - 9)), "mated in 9");
    assert_eq!(score_label(42), "cp 42");
}

#[test]
fn bound_is_proven_but_never_decoded_as_exact_dtm() {
    assert_eq!(score_label(RACE_WIN_FLOOR), "proven race win");
    assert_eq!(score_label(-RACE_WIN_FLOOR), "proven race loss");
    assert_eq!(proven_score_dtm(RACE_WIN_FLOOR), None);
    assert_eq!(proven_score_dtm(-RACE_WIN_FLOOR), None);
}

#[test]
fn exact_race_band_uses_the_declared_maximum_not_a_magic_thousand() {
    let longest_exact = RACE_WIN_FLOOR + 1;
    assert_eq!(
        proven_score_dtm(longest_exact),
        Some(RACE_MATE - longest_exact)
    );
}

#[test]
fn approximate_race_tie_break_requires_disjoint_tolerance_intervals() {
    let fast = RaceRootCandidate {
        mv: 1,
        root_wins: true,
        approximate_plies: Some(5),
        exact_dtm: None,
    };
    let overlaps = RaceRootCandidate {
        mv: 2,
        root_wins: true,
        approximate_plies: Some(7),
        exact_dtm: None,
    };
    let separated = RaceRootCandidate {
        mv: 3,
        root_wins: true,
        approximate_plies: Some(8),
        exact_dtm: None,
    };
    assert!(!race_candidate_definitely_best(fast, &[fast, overlaps]));
    assert!(race_candidate_definitely_best(fast, &[fast, separated]));

    let slow_loss = RaceRootCandidate {
        mv: 4,
        root_wins: false,
        approximate_plies: Some(12),
        exact_dtm: None,
    };
    let quick_loss = RaceRootCandidate {
        mv: 5,
        root_wins: false,
        approximate_plies: Some(9),
        exact_dtm: None,
    };
    assert!(race_candidate_definitely_best(
        slow_loss,
        &[slow_loss, quick_loss]
    ));
}

#[test]
fn root_moves_progress_json_includes_rank_and_multipv() {
    let root_moves = vec![(76i16, 80i32), (4i16, 123i32)];
    let json = ace_progress_json(
        "test",
        &[],
        1,
        0,
        0,
        &[],
        0,
        123,
        &root_moves,
        5,
        5,
        0,
        true,
        2,
    );
    assert!(json.contains(r#""rank":1"#));
    assert!(json.contains(r#""rank":2"#));
    assert!(json.contains(r#""move":"e9"#));
    assert!(json.contains(r#""move":"e1"#));
    assert!(json.contains(r#""multiPv":["#));
    assert!(json.contains(r#""score":123"#));
    assert!(json.contains(r#""score":80"#));

    let json_off = ace_progress_json(
        "test",
        &[],
        1,
        0,
        0,
        &[],
        0,
        123,
        &root_moves,
        5,
        5,
        0,
        false,
        2,
    );
    assert!(json_off.contains(r#""rootMoves":[]"#));
    assert!(json_off.contains(r#""multiPv":["#));
}

#[test]
fn progress_json_is_exact() {
    let json = ace_progress_json(
        "lab", &[], 3, 7, 7, &[1, 2], 10, -12, &[(76, 80), (4, 123)], 5, 6, 9, true, 1,
    );
    assert_eq!(
        json,
        r#"{"engine":"lab","stoppedBy":"lab","searchDepth":3,"nodes":7,"mainThreadNodes":7,"helperNodes":[1,2],"totalNodes":10,"totalNodesAcrossWorkers":10,"rootScore":-12,"rootScoreText":"cp -12","whiteDist":5,"blackDist":6,"elapsedMs":9,"depthLog":[],"rootMoves":[{"move":"e9","score":123,"rank":1},{"move":"e1","score":80,"rank":2}],"multiPv":[{"move":"e9","score":123,"rank":1}]}"#
    );
}

#[test]
fn dense_history_codes_cover_all_move_ids() {
    for m in [0, 80, 81, 144, 145, 208] {
        assert!(is_pawn_move(m) || is_wall_move(m));
        assert_eq!(m as usize, m as usize);
    }
    for invalid in [-2, 209, 511] {
        assert!(!is_pawn_move(invalid) && !is_wall_move(invalid));
    }
}

#[test]
fn sf_pawn_history_tiebreak_cannot_overturn_one_step_of_progress() {
    assert_eq!(sf_pawn_history_tiebreak(SF_HIST_MAX), 499);
    assert_eq!(sf_pawn_history_tiebreak(-SF_HIST_MAX), -499);
    assert_eq!(sf_pawn_history_tiebreak(i32::MAX), 499);
    assert_eq!(sf_pawn_history_tiebreak(i32::MIN), -499);

    let faster_with_worst_history = 1_000_000 - 5 * 1000 - 499;
    let slower_with_best_history = 1_000_000 - 6 * 1000 + 499;
    assert!(faster_with_worst_history > slower_with_best_history);
}

#[test]
fn probcut_gate_requires_a_safe_non_root_fail_high_plausibility() {
    assert!(probcut_is_eligible(6, 99, 100, 1, true, 300));
    assert!(!probcut_is_eligible(5, 99, 100, 1, true, 300));
    assert!(!probcut_is_eligible(6, 99, 100, 0, true, 300));
    assert!(!probcut_is_eligible(6, 99, 100, 1, false, 300));
    assert!(!probcut_is_eligible(6, 98, 100, 1, true, 300));
    assert!(!probcut_is_eligible(
        6,
        PROBCUT_MAX_ABS_BETA - 1,
        PROBCUT_MAX_ABS_BETA,
        1,
        true,
        2_300
    ));
    assert!(!probcut_is_eligible(6, 99, 100, 1, true, 299));
}

#[test]
fn rfp_margin_preserves_v17_and_uses_ace_candidate_only_when_enabled() {
    assert_eq!(reverse_futility_margin(3, true, false, 3), Some(210));
    assert_eq!(reverse_futility_margin(4, false, false, 3), Some(360));
    assert_eq!(reverse_futility_margin(4, true, true, 3), None);
    assert_eq!(reverse_futility_margin(3, false, true, 3), Some(300));
    assert_eq!(reverse_futility_margin(4, true, true, 4), Some(400));
    assert_eq!(rfp_depth_for_budget(true, 200), 4);
    assert_eq!(rfp_depth_for_budget(true, 201), 3);
    assert_eq!(rfp_depth_for_budget(false, 100), 3);
}

fn mask_with(cells: &[(u8, u8)]) -> [u8; 81] {
    let mut m = [0u8; 81];
    for &(r, c) in cells {
        m[(r as usize) * 9 + c as usize] = 1;
    }
    m
}

#[test]
fn wall_touching_route_cell_is_detected() {
    // Horizontal wall at (row=3, col=4) touches cells
    // (3,4) (3,5) (4,4) (4,5). Put a route cell at one of them.
    let route0 = mask_with(&[(4, 5)]);
    let route1 = [0u8; 81];
    assert!(wall_touches_route(
        3,
        4,
        WallOrientation::Horizontal,
        &route0,
        &route1
    ));
}

#[test]
fn wall_touching_neither_players_route_is_not_detected() {
    let route0 = mask_with(&[(0, 0)]);
    let route1 = mask_with(&[(8, 8)]);
    assert!(!wall_touches_route(
        3,
        4,
        WallOrientation::Horizontal,
        &route0,
        &route1
    ));
}

#[test]
fn wall_touching_either_players_route_counts() {
    let route0 = [0u8; 81];
    let route1 = mask_with(&[(3, 4)]); // top-left corner of the wall's 4 cells
    assert!(wall_touches_route(
        3,
        4,
        WallOrientation::Vertical,
        &route0,
        &route1
    ));
}

#[test]
fn every_move_survives_both_notations() {
    for m in 0i16..209 {
        assert_eq!(board_move_to_move_id(move_id_to_board(m)), m);
        assert_eq!(algebraic_to_move_id(&move_id_to_algebraic(m)), m);
    }
    assert_eq!(move_id_to_algebraic(76), "e1");
    assert_eq!(move_id_to_algebraic(4), "e9");
    assert_eq!(
        board_move_to_move_id(BoardMove::Pawn { row: 0, col: 4 }),
        76
    );
    assert_eq!(
        board_move_to_move_id(BoardMove::Wall {
            row: 0,
            col: 0,
            orientation: WallOrientation::Vertical
        }),
        145 + 56
    );
}

#[test]
fn proven_bands_are_classified() {
    assert!(is_proven_win_score(MATE - 3));
    assert!(is_proven_loss_score(-(MATE - 3)));
    assert!(is_proven_win_score(RACE_MATE - 2));
    assert!(is_proven_loss_score(-(RACE_MATE - 2)));
    assert!(!is_proven_win_score(2500));
    assert!(!is_proven_loss_score(-RACE_WIN_FLOOR));
    assert_eq!(score_result_class(MATE - 3), "mate_win");
    assert_eq!(score_result_class(-(MATE - 3)), "mate_loss");
    assert_eq!(score_result_class(RACE_MATE - 3), "race_win");
    assert_eq!(score_result_class(-(RACE_MATE - 3)), "race_loss");
    assert_eq!(score_result_class(7), "cp");
    assert_eq!(proven_score_dtm(MATE - 3), Some(3));
}

#[test]
fn race_info_tells_exact_from_approximate() {
    let exact = RaceResultInfo::from_score(-(RACE_MATE - 8));
    assert_eq!(exact.outcome, -1);
    assert_eq!(exact.exact_dtm, Some(8));
    let bound = RaceResultInfo::from_score(RACE_WIN_FLOOR);
    assert_eq!(bound.outcome, 0);
    assert_eq!(bound.exact_dtm, None);
    let near = RaceResultInfo::approximate(1, Some(9));
    assert_eq!(near.approximation_tolerance, 1);
    assert_eq!(near.exact_dtm, None);
}

#[test]
fn defence_key_and_json_are_exact() {
    assert_eq!(defense_selection_key(-(MATE - 9), 0, true, 4, 6), -2_999_404);
    assert_eq!(defense_selection_key(MATE - 9, 0, false, 4, 6), 999_991);
    assert_eq!(defense_selection_key(33, -21, false, 4, 6), -21);
    let d = RootDefenseDiag::record(76, 4, -(MATE - 9), -30, 12, 3, 4, 6);
    assert_eq!(
        format_root_defense_diag_json(&[d]),
        r#"[{"move":"e1","fullDepthSearched":true,"childDepthUsed":4,"resultClass":"mate_loss","dtm":9,"searchScore":-99991,"staticEval":-30,"nodes":12,"finalSelectionKey":-2999404,"ownDistBefore":3,"ownDistAfter":4,"oppDistAfter":6}]"#
    );
    assert_eq!(format_root_defense_diag_json(&[]), "[]");
}

#[test]
fn early_walls_are_extended() {
    assert_eq!(ace_graduated_eme_extension(1, 8), 2);
    assert_eq!(ace_graduated_eme_extension(1, 7), 1);
    assert_eq!(ace_graduated_eme_extension(2, 9), 1);
}

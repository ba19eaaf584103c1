use titanium::time_alloc::{
    eval_race_own_moves_lb, expected_own_moves, fit_budget, geometric_terminal_ply_lb,
    own_moves_lb_from_plies, own_turns_lb, plannable_ms, reserve_own_moves_p95_hundredths,
    rows_to_goal, safety_ms, spend_policy, LengthBound,
};
use titanium::timing::{
    gate_reserve_ms, iter_costs_ms, predicted_over_time_budget, stability_soft_ms,
    stability_soft_share, AceDepthLogEntry, TimingDiag,
};
use titanium::tt_sizing::{cache_tier_bits, scan_cache_leaves, tier_bits_for, CacheLeaf};

#[test]
fn length_bound_merge_tightens() {
    let a = LengthBound::with_min(7).merge(LengthBound::exact(12));
    // exact(12) min=12 beats with_min(7); max=12 kept.
    assert_eq!(a, LengthBound::exact(12));
    let b = LengthBound::exact(8).merge(LengthBound {
        min_plies: Some(3),
        max_plies: Some(20),
    });
    assert_eq!(b.min_plies, Some(8));
    assert_eq!(b.max_plies, Some(8));
}

#[test]
fn length_bound_raises_late_game_horizon() {
    let lb = LengthBound::optimistic_board(0, [76, 4]);
    assert_eq!(lb.min_plies, Some(7));
    assert!(lb.max_plies.is_none());
    assert_eq!(lb.min_own_moves(), 4);
    // Late ply: plan_tail=1, length own=4 raises expected.
    assert_eq!(lb.min_plies, Some(geometric_terminal_ply_lb(0, [76, 4])));
    assert!(expected_own_moves(80, None, None, lb) >= 4);
}

#[test]
fn eval_min_dist_raises_plan_never_shrinks() {
    let lb = LengthBound::optimistic_board(0, [76, 4]);
    assert_eq!(expected_own_moves(0, None, None, lb), 30);

    // min(8, 12) = 8 < 30: stay on mean-game plan.
    assert_eq!(expected_own_moves(0, Some(8), Some(12), lb), 30);

    // min(40, 55) = 40 raises above plan-30 (long game via extension).
    assert_eq!(expected_own_moves(0, Some(40), Some(55), lb), 40);

    // Only one side: that value is the lb.
    assert_eq!(expected_own_moves(0, Some(45), None, lb), 45);
}

#[test]
fn exact_max_plies_shrinks_horizon() {
    let board = LengthBound::optimistic_board(0, [76, 4]);
    assert_eq!(expected_own_moves(0, None, None, board), 30);

    // Startpos geom min=7; exact(12) tightens to min=max=12: 6 own moves.
    let short = board.merge(LengthBound::exact(12));
    assert_eq!(short, LengthBound::exact(12));
    assert_eq!(expected_own_moves(0, None, None, short), 6);

    // max < geom min: drop max (refuse unsound short-game dump).
    let bad = board.merge(LengthBound {
        min_plies: None,
        max_plies: Some(3),
    });
    assert!(bad.max_plies.is_none());
    assert_eq!(expected_own_moves(0, None, None, bad), 30);
}

#[test]
fn p95_knots_exact() {
    assert_eq!(reserve_own_moves_p95_hundredths(0), 3850);
    assert_eq!(reserve_own_moves_p95_hundredths(20), 2850);
    assert_eq!(reserve_own_moves_p95_hundredths(40), 1850);
    assert_eq!(reserve_own_moves_p95_hundredths(80), 500);
    assert_eq!(reserve_own_moves_p95_hundredths(100), 500);
}

#[test]
fn p95_runs_straight_between_knots() {
    assert_eq!(reserve_own_moves_p95_hundredths(10), 3350);
    assert_eq!(reserve_own_moves_p95_hundredths(45), 1625);
    assert_eq!(reserve_own_moves_p95_hundredths(55), 1250);
    assert_eq!(reserve_own_moves_p95_hundredths(65), 1000);
    assert_eq!(reserve_own_moves_p95_hundredths(75), 700);
}

#[test]
fn budgets_fit_the_clock() {
    for rem in [1u64, 50, 100, 500, 5_000, 60_000] {
        let spendable = rem - safety_ms(rem);
        for wish in [0u64, 1, 40, 1_000, 1_000_000] {
            let (soft, hard) = fit_budget(wish, 10, spendable);
            assert!(soft <= hard);
            assert!(hard <= spendable.max(1));
            assert!(soft >= 1);
        }
    }
    assert_eq!(fit_budget(1_000, 0, 30_000), (1_000, 1_250));
    assert_eq!(fit_budget(1_001, 0, 30_000), (1_001, 1_251));
    assert_eq!(fit_budget(3, 0, 30_000), (50, 63));
    assert_eq!(fit_budget(90_000, 0, 1_000), (531, 664));
}

#[test]
fn small_clock_formulas() {
    assert_eq!(safety_ms(60_000), 300);
    assert_eq!(safety_ms(5_000), 100);
    assert_eq!(safety_ms(40), 40);
    assert_eq!(spend_policy(45_000), (135, 20));
    assert_eq!(spend_policy(15_000), (100, 20));
    assert_eq!(spend_policy(14_999), (75, 10));
    assert_eq!(plannable_ms(10_000, 30), 9_500);
    assert_eq!(plannable_ms(10_000, 2), 9_800);
    assert_eq!(plannable_ms(100, 30), 50);
    assert_eq!(rows_to_goal(0, 76), 8);
    assert_eq!(rows_to_goal(1, 76), 0);
    assert_eq!(own_turns_lb(7), 4);
    assert_eq!(own_moves_lb_from_plies(0), 0);
    assert_eq!(own_moves_lb_from_plies(7), 4);
    assert_eq!(eval_race_own_moves_lb(Some(0), Some(9)), 9);
    assert_eq!(eval_race_own_moves_lb(None, None), 0);
    assert_eq!(LengthBound::with_min(4).max_own_moves(), None);
    assert_eq!(LengthBound::exact(0).max_own_moves(), Some(1));
    assert_eq!(gate_reserve_ms(1_000, 6, true), 150);
    assert_eq!(gate_reserve_ms(50, 6, true), 15);
    assert_eq!(gate_reserve_ms(1_000, 6, false), 0);
}

#[test]
fn stability_soft_extends_on_instability_and_shortens_when_quiet() {
    let base = stability_soft_share(0, 0, 0, 0);
    assert_eq!(base, 85);
    let unstable = stability_soft_share(0, 3, -50, 0);
    assert!(unstable > base);
    assert!(unstable <= 100);
    let quiet = stability_soft_share(0, 0, 0, 3);
    assert!(quiet < base);
    assert!(quiet >= 55);
    let losing_base = stability_soft_share(-100, 0, 0, 0);
    assert_eq!(losing_base, 92);
}

fn entry(depth: i32, elapsed_ms: u64) -> AceDepthLogEntry {
    AceDepthLogEntry {
        depth,
        score: 0,
        nodes: 0,
        elapsed_ms,
        marginal_nodes: 0,
        pv: String::new(),
    }
}

#[test]
fn iteration_costs_and_predictions() {
    let log = vec![entry(1, 10), entry(2, 50), entry(3, 80)];
    assert_eq!(iter_costs_ms(&log), (30, 40));
    assert_eq!(iter_costs_ms(&vec![]), (0, 0));
    assert!(!predicted_over_time_budget(100, 140, &log));
    assert!(predicted_over_time_budget(101, 140, &log));
    assert!(!predicted_over_time_budget(1_000, 1, &vec![]));
    assert!(!predicted_over_time_budget(80, 100, &vec![entry(1, 3)]));
    assert!(predicted_over_time_budget(81, 100, &vec![entry(1, 3)]));
    assert_eq!(stability_soft_ms(1_000, 0, 0, 0, 0), 850);
    assert_eq!(stability_soft_ms(10, 0, 0, 0, 0), 9);
    let t = TimingDiag::from_think(1_000, 100, 950, &log, 2, true, 850);
    assert_eq!(t.searchable_ms, 900);
    assert_eq!(t.hard_overshoot_ms, 50);
    assert_eq!(t.soft_overshoot_ms, 100);
    assert_eq!(t.soft_fraction_bp, 8_500);
    assert_eq!((t.last_iter_ms, t.prev_iter_ms), (30, 40));
}

#[test]
fn cache_tiers_by_size() {
    assert_eq!(tier_bits_for(25, None), (9, 11, 16));
    assert_eq!(
        tier_bits_for(25, Some((32 * 1024, 256 * 1024, 8 * 1024 * 1024))),
        (10, 13, 18)
    );
    assert_eq!(tier_bits_for(25, Some((10, 10, 10))), (8, 9, 10));
    let (a, b, c) = cache_tier_bits(25);
    assert!(8 <= a && a < b && b < c && c <= 29);
}

#[test]
fn cache_leaves_are_read_until_the_list_ends() {
    // 32 KiB data, 32 KiB code, 256 KiB unified, 8 MiB unified.
    let leaf = |kind: u32, level: u32, line: u32, parts: u32, ways: u32, sets: u32| CacheLeaf {
        sub: 0,
        eax: kind | (level << 5),
        ebx: (line - 1) | ((parts - 1) << 12) | ((ways - 1) << 22),
        ecx: sets - 1,
    };
    let mut leaves = vec![
        leaf(1, 1, 64, 1, 8, 64),
        leaf(2, 1, 64, 1, 8, 64),
        leaf(3, 2, 64, 1, 8, 512),
        leaf(3, 3, 64, 1, 16, 8192),
    ];
    assert_eq!(
        scan_cache_leaves(&leaves),
        Some((32 * 1024, 256 * 1024, 8 * 1024 * 1024))
    );
    leaves[2] = CacheLeaf { sub: 2, eax: 0, ebx: 0, ecx: 0 };
    assert_eq!(scan_cache_leaves(&leaves), None);
}

use titanium::eval::{
    eval_cache_slot, field_width, plan_wall_inputs, settle_eval, wall_slot_bits, CertMemo,
    EvalCache, WallInputs,
};
use titanium::fx::FxHasher;
use titanium::game::GameState;
use titanium::history::{gravity_step, History};
use titanium::lazy_smp::{
    gcd_usize, lazy_smp_allowed_root_moves, lazy_smp_profile_root_moves,
    lazy_smp_value_filtered_moves, lazy_smp_value_threshold_pct, lazy_smp_width_percent,
    thread_count, worker_plans, WorkerPlan, LAZY_SMP_LAST_WORKER_TOP_N,
};
use titanium::ordering::{order_moves_prior, rank_by_score, BookHints};
use titanium::pruning::{
    absorb_child, fence_claim, late_wall_is_skipped, plan_child, reduce_depth, research_due,
    table_cutoff, ChildPlan, LmrGate, NodeState, PlanSwitches,
};
use titanium::tt::{
    score_from_table, score_to_table, tt_pack, tt_pack_depth, tt_unpack_depth, SharedTitaniumTt,
    SharedTtEntry, TitaniumTt,
};

#[test]
fn tt_depth_field_is_eight_bits_clamped_to_255() {
    assert_eq!(tt_unpack_depth(tt_pack_depth(0)), 0);
    assert_eq!(tt_unpack_depth(tt_pack_depth(128)), 128);
    assert_eq!(tt_unpack_depth(tt_pack_depth(255)), 255);
    assert_eq!(tt_unpack_depth(tt_pack_depth(256)), 255);
    assert_eq!(tt_unpack_depth(tt_pack_depth(10_000)), 255);
    // High garbage bits above the 8-bit depth field must be ignored.
    let dirty = tt_pack_depth(42) | (0x7F << 20);
    assert_eq!(tt_unpack_depth(dirty), 42);
}

#[test]
fn root_width_calculation_uses_ceiling_and_min_one() {
    let cases = [
        (30, 100, 30),
        (30, 80, 24),
        (30, 60, 18),
        (30, 40, 12),
        (30, 20, 6),
        (1, 20, 1),
        (2, 20, 1),
        (3, 20, 1),
        (4, 20, 1),
        (5, 20, 1),
        (6, 20, 2),
        (0, 100, 0),
    ];
    for (root_count, percent, expected) in cases {
        assert_eq!(lazy_smp_allowed_root_moves(root_count, percent), expected);
    }
}

#[test]
fn value_filtered_moves_are_monotonic_by_threshold() {
    let root_moves: Vec<i16> = (0..40).collect();
    let mut heat_by_id = [0i32; 256];
    // Deliberately non-uniform, non-monotonic-by-id heat so the test
    // isn't accidentally satisfied by move ordering alone.
    for (i, &mv) in root_moves.iter().enumerate() {
        heat_by_id[mv as usize] = ((i * 37) % 200) as i32;
    }
    let max_heat = heat_by_id.iter().copied().max().unwrap();

    let mut thresholds: Vec<i32> = (0..8).map(lazy_smp_value_threshold_pct).collect();
    thresholds.sort_unstable();
    thresholds.dedup();

    let kept_sets: Vec<std::collections::HashSet<i16>> = thresholds
        .iter()
        .map(|&pct| {
            lazy_smp_value_filtered_moves(&root_moves, &heat_by_id, max_heat, pct)
                .into_iter()
                .collect()
        })
        .collect();

    for w in kept_sets.windows(2) {
        let (looser, stricter) = (&w[0], &w[1]);
        // The empty-kept-set fallback (`lazy_smp_value_filtered_moves`
        // returning everything) is the only case allowed to break strict
        // subset-ness; with this heat distribution no threshold empties
        // out, so the invariant must hold exactly.
        assert!(
            stricter.is_subset(looser),
            "a stricter threshold retained a move the looser one dropped: \
             looser={looser:?} stricter={stricter:?}"
        );
    }
}

#[test]
fn filter_falls_back_to_all_moves() {
    let heat = [0i32; 256];
    assert_eq!(lazy_smp_value_filtered_moves(&[3, 4], &heat, 0, 40), vec![3, 4]);
    let mut one = [0i32; 256];
    one[200] = 10;
    assert_eq!(lazy_smp_value_filtered_moves(&[3, 4], &one, 10, 40), vec![3, 4]);
    one[4] = 9;
    assert_eq!(lazy_smp_value_filtered_moves(&[3, 4], &one, 10, 40), vec![4]);
}

#[test]
fn helper_root_profiles_are_diversified() {
    let root_moves = (0..20).collect::<Vec<i16>>();
    let (main_moves, main_idx) = lazy_smp_profile_root_moves(&root_moves, 0, 20, false);
    let (helper_moves, helper_idx) = lazy_smp_profile_root_moves(&root_moves, 1, 12, false);
    assert_eq!(main_moves, root_moves);
    assert_eq!(main_idx, (0..20).collect::<Vec<_>>());
    assert_eq!(helper_moves.len(), 12);
    assert_eq!(helper_idx.len(), 12);
    assert_ne!(helper_idx, (0..12).collect::<Vec<_>>());
}

#[test]
fn helper_walks_are_exact() {
    // Worker 1 of 20: stride 3, offset 37 mod 20 = 17.
    let root_moves = (0..20).collect::<Vec<i16>>();
    let (_, idx) = lazy_smp_profile_root_moves(&root_moves, 1, 5, false);
    assert_eq!(idx, vec![17, 0, 3, 6, 9]);
    // Worker 2 of 15: strides 5 fails, 7 is coprime; offset 74 mod 15 = 14.
    let (_, idx) = lazy_smp_profile_root_moves(&root_moves[..15], 2, 3, false);
    assert_eq!(idx, vec![14, 6, 13]);
    assert_eq!(gcd_usize(12, 18), 6);
    assert_eq!(gcd_usize(7, 0), 7);
    assert_eq!(lazy_smp_width_percent(0), 95);
    assert_eq!(lazy_smp_width_percent(9), 80);
    assert_eq!(thread_count(0), 1);
    assert_eq!(thread_count(99), 16);
}

#[test]
fn top_n_worker_plan_limits_effective_root_width() {
    let plan = WorkerPlan {
        worker_id: 4,
        root_move_count: 12,
        root_moves_before_filter: 20,
        root_value_threshold_pct: 40,
        top_n_override: Some(LAZY_SMP_LAST_WORKER_TOP_N),
    };
    assert_eq!(plan.allowed_root_moves(), 3);
    assert_eq!(
        lazy_smp_profile_root_moves(&(0..12).collect::<Vec<i16>>(), 4, 3, true),
        (vec![0, 1, 2], vec![0, 1, 2])
    );
}

#[test]
fn only_the_last_of_three_goes_for_depth() {
    let kept = vec![vec![1i16, 2, 3, 4], vec![1, 2, 3], vec![1, 2, 3, 4, 5]];
    let plans = worker_plans(&kept, 9, true);
    assert_eq!(plans[0].top_n_override, None);
    assert_eq!(plans[1].top_n_override, None);
    assert_eq!(plans[2].top_n_override, Some(3));
    assert_eq!(plans[2].allowed_root_moves(), 3);
    assert_eq!(plans[1].root_value_threshold_pct, 30);
    assert_eq!(plans[0].root_moves_before_filter, 9);
    assert!(worker_plans(&kept[..2].to_vec(), 9, true)
        .iter()
        .all(|p| p.top_n_override.is_none()));
}

fn entry(lo: u32, hi: u32, depth: i32, score: i32, gen: u8) -> SharedTtEntry {
    SharedTtEntry {
        key_hi: hi,
        key_lo: lo,
        meta: tt_pack(42, 0, depth),
        score,
        rep: 0,
        anc_lo: 0,
        anc_hi: 0,
        entry_gen: gen,
    }
}

#[test]
fn shared_table_replaces_by_depth_and_generation() {
    let mut t = SharedTitaniumTt::new(4);
    assert!(t.store(123, 456, 7, false, entry(123, 456, 5, 99, 7)));
    assert_eq!(t.probe(123, 456).unwrap().score, 99);
    assert_eq!(t.probe(123, 457), None);
    // Shallower, same generation: kept.
    t.store(123, 456, 7, false, entry(123, 456, 4, 1, 7));
    assert_eq!(t.probe(123, 456).unwrap().score, 99);
    // Shallower, new generation: replaced.
    t.store(123, 456, 8, false, entry(123, 456, 4, 2, 8));
    assert_eq!(t.probe(123, 456).unwrap().score, 2);
    // In pure mode generations do not count.
    t.store(123, 456, 9, true, entry(123, 456, 3, 3, 9));
    assert_eq!(t.probe(123, 456).unwrap().score, 2);
    assert_eq!(t.filled, 1);
}

#[test]
fn growing_loses_nothing() {
    let mut t = TitaniumTt::new();
    t.enable_adaptive_tt((3, 5, 7));
    assert_eq!(t.base.bits, 3);
    let mut keys = Vec::new();
    for i in 0..4u32 {
        let lo = i * 9 + 1;
        keys.push(lo);
        t.tt_store(false, entry(lo, lo ^ 77, 6, i as i32, 0));
    }
    assert_eq!(t.base.bits, 5);
    for (i, lo) in keys.iter().enumerate() {
        assert_eq!(t.base.probe(*lo, lo ^ 77).unwrap().score, i as i32);
    }
    assert_eq!(t.base.filled, 4);
    t.next_generation();
    assert_eq!(t.tt_gen, 1);
    t.resize_tt(6);
    assert_eq!(t.base.filled, 0);
    assert_eq!(t.base.probe(1, 76), None);
}

#[test]
fn mate_scores_are_stored_by_distance() {
    assert_eq!(score_to_table(99_990, 4), 99_994);
    assert_eq!(score_from_table(99_994, 6), 99_988);
    assert_eq!(score_to_table(-99_990, 4), -99_994);
    assert_eq!(score_to_table(120, 4), 120);
}

#[test]
fn tainted_entries_never_cut() {
    let mut e = entry(1, 2, 9, 50, 0);
    assert_eq!(table_cutoff(&e, 5, 1, 0, 100), Some(50));
    assert_eq!(table_cutoff(&e, 10, 1, 0, 100), None);
    assert_eq!(table_cutoff(&e, 5, 0, 0, 100), None);
    e.rep = 1;
    assert_eq!(table_cutoff(&e, 5, 1, 0, 100), None);
    let mut lower = entry(1, 2, 9, 50, 0);
    lower.meta = tt_pack(42, 1, 9);
    assert_eq!(table_cutoff(&lower, 5, 1, 0, 50), Some(50));
    assert_eq!(table_cutoff(&lower, 5, 1, 0, 51), None);
    assert_eq!(fence_claim(0, 5, true), (1, false));
    assert_eq!(fence_claim(0, -5, true), (2, false));
    assert_eq!(fence_claim(2, 5, true), (2, true));
    assert_eq!(fence_claim(1, -5, true), (1, true));
    assert_eq!(fence_claim(0, 0, true), (0, true));
    assert_eq!(fence_claim(0, 0, false), (0, false));
}

#[test]
fn nodes_take_the_best_child() {
    let start = NodeState { alpha: 10, best: None, best_move: 0, flag: 2 };
    let a = absorb_child(start, 5, 7, false, 50);
    assert_eq!((a.state.best, a.state.best_move, a.state.flag, a.state.alpha), (Some(5), 7, 2, 10));
    let b = absorb_child(a.state, 20, 8, false, 50);
    assert!(b.raised && !b.cutoff);
    assert_eq!((b.state.alpha, b.state.flag), (20, 0));
    let c = absorb_child(b.state, 60, 9, false, 50);
    assert!(c.cutoff);
    assert_eq!((c.state.best, c.state.flag), (Some(60), 1));
    let same = absorb_child(b.state, 20, 9, false, 50);
    assert_eq!(same.state, b.state);
    let preferred = absorb_child(b.state, 20, 9, true, 50);
    assert_eq!(preferred.state.best_move, 9);
}

#[test]
fn children_are_planned_by_place_and_kind() {
    let gate = LmrGate { after_move: 4, min_depth: 3 };
    let s = PlanSwitches { multipv: 1, eme: true, cat_lmr_v16: true, gate };
    assert_eq!(plan_child(s, 0, 8, 1, 5, 0), ChildPlan::Window);
    assert_eq!(plan_child(s, 1, 8, 1, 100, 0), ChildPlan::Extended(2));
    assert_eq!(plan_child(s, 2, 8, 1, 100, 0), ChildPlan::Extended(1));
    assert_eq!(plan_child(s, 5, 8, 1, 100, 0), ChildPlan::ReducedWall);
    assert_eq!(plan_child(s, 5, 8, 1, 100, 100), ChildPlan::Scout);
    assert_eq!(plan_child(s, 5, 8, 1, 12, 0), ChildPlan::ReducedPawn);
    assert_eq!(plan_child(s, 5, 2, 1, 100, 0), ChildPlan::Scout);
    let wide = PlanSwitches { multipv: 2, ..s };
    assert_eq!(plan_child(wide, 5, 8, 0, 100, 0), ChildPlan::Open);
    assert_eq!(reduce_depth(5, 2, true), 2);
    assert_eq!(reduce_depth(5, 9, false), 0);
    assert_eq!(reduce_depth(5, -3, false), 5);
    assert!(research_due(ChildPlan::ReducedWall, 60, 10, 50));
    assert!(!research_due(ChildPlan::Scout, 60, 10, 50));
    assert!(research_due(ChildPlan::Scout, 30, 10, 50));
    assert!(late_wall_is_skipped(8, 2, 1, false, false, 100, 0, 0, 0));
    assert!(!late_wall_is_skipped(8, 2, 1, true, false, 100, 0, 0, 0));
    assert!(!late_wall_is_skipped(8, 2, 1, false, false, 100, 0, 1, 0));
    assert!(late_wall_is_skipped(24, 3, 1, false, true, 100, 0, 0, 0));
}

#[test]
fn gravity_saturates() {
    assert_eq!(gravity_step(0, 100), 100);
    assert_eq!(gravity_step(1_048_576, 100), 1_048_576);
    assert_eq!(gravity_step(-1_048_576, 100), -1_048_376);
    assert_eq!(gravity_step(524_288, 1_000), 524_788);
}

#[test]
fn sf_history_switch_reads_pawn_destination_from_the_selected_table() {
    let mut hist = History::new();
    let pawn_destination = 42i16;
    let pawn_hist = pawn_destination as usize;
    hist.history_tbl[pawn_hist] = 17;
    hist.hist_sf0[pawn_hist] = -29;

    assert_eq!(hist.move_hist(0, pawn_destination), 17);
    hist.sf_history = true;
    assert_eq!(hist.move_hist(0, pawn_destination), -29);
}

#[test]
fn cutoffs_teach_the_tables() {
    let mut h = History::new();
    h.sf_history = true;
    h.credit_cutoff(0, 100, 5, 4, &vec![90, 100], &vec![7]);
    assert_eq!(h.hist_sf0[100], 16);
    assert_eq!(h.hist_sf0[90], -16);
    assert_eq!(h.hist_sf0[7], -16);
    assert_eq!(h.cont_hist_read(5, 100), 16);
    assert_eq!(h.cont_hist_read(5, 90), -16);
    assert_eq!(h.cont_hist_read(5, 7), 0);
    h.note_killer(3, 100);
    h.note_killer(3, 90);
    h.note_killer(3, 90);
    assert_eq!(h.killers[3], (90, 100));
    h.count_cutoff(100, 10);
    assert_eq!(h.history_tbl[100], 100);
    h.history_tbl[90] = 99_999_999;
    h.count_cutoff(90, 10);
    assert_eq!(h.history_tbl[90], 50_000_049);
    assert_eq!(h.history_tbl[100], 50);
    h.age();
    assert_eq!(h.history_tbl[100], 25);
    assert_eq!(h.hist_sf0[90], -8);
    let g = GameState::new();
    h.learn_correction(&g, 0, 500, 100, 3);
    assert_eq!(h.correction(&g, 0), 25);
    h.learn_correction(&g, 0, 1_900, -1_900, 30);
    assert_eq!(h.correction(&g, 0), 256);
    assert_eq!(h.correction(&g, 1), 0);
}

#[test]
fn ordering_is_stable_and_descending() {
    assert_eq!(rank_by_score(&vec![3, 9, 3, 12]), vec![3, 1, 0, 2]);
    let h = History::new();
    let mut dist = [9u8; 81];
    dist[10] = 4;
    dist[11] = 3;
    let book = BookHints { order: vec![], attention: vec![], denied: vec![] };
    let out = order_moves_prior(&h, &dist, 0, 1, &vec![10, 100, 11, 120], 120, 0, 0, None, &book);
    assert_eq!(out, vec![120, 11, 10, 100]);
    let mut heat = vec![0i32; 256];
    heat[100] = 50;
    heat[101] = 5;
    let out = order_moves_prior(
        &h,
        &dist,
        0,
        1,
        &vec![102, 101, 100],
        0,
        0,
        0,
        Some((&heat, 50)),
        &book,
    );
    assert_eq!(out, vec![100, 102, 101]);
    let opening = BookHints { order: vec![100], attention: vec![7], denied: vec![true] };
    let out = order_moves_prior(&h, &dist, 0, 0, &vec![10, 100, 11], 11, 0, 0, None, &opening);
    assert_eq!(out, vec![100, 11, 10]);
}

#[test]
fn evaluation_cache_and_memo() {
    let g = GameState::new();
    let mut c = EvalCache::new(6);
    assert_eq!(c.get(&g), None);
    c.put(&g, 77);
    assert_eq!(c.get(&g), Some(77));
    let mut fewer = g.clone();
    fewer.wl = [9, 10];
    assert_eq!(c.get(&fewer), None);
    assert_eq!(eval_cache_slot(12345, 0), 0);
    assert!(eval_cache_slot(12345, 6) < 64);

    let mut m = CertMemo::new();
    assert!(!m.cert_win_cache_hit(&g, 0));
    m.record(&g, 0, 1_200, false, 300);
    assert_eq!(m.lookup(&g, 0), Some(-300));
    m.record(&g, 0, 1_200, false, 100);
    assert_eq!(m.lookup(&g, 0), Some(-300));
    m.record(&g, 0, 1_200, true, 5);
    assert_eq!(m.lookup(&g, 0), Some(1));
    assert!(m.cert_win_cache_hit(&g, 0));
    assert_eq!(m.lookup(&g, 1), None);
    assert_eq!(settle_eval(1_990, false, 256), 1_999);
    assert_eq!(settle_eval(2_000, false, 256), 2_000);
    assert_eq!(settle_eval(10, true, 256), 2_500);
    assert_eq!(field_width(&titanium::board::compute_dist(&g.hw, &g.vw, 0), 3), 9);
}

#[test]
fn wall_inputs_follow_the_board() {
    let mut slots = [0u8; 64];
    slots[0] = 1;
    slots[63] = 1;
    assert_eq!(wall_slot_bits(&slots), 1 | (1 << 63));
    let state = WallInputs { hbits: 0b101, vbits: 0, b0: 3, b1: 4 };
    let same = plan_wall_inputs(state, 0b110, 0b1, 3, 4);
    assert!(!same.rebuild);
    assert_eq!(same.changes, vec![(0, false), (1, true), (64, true)]);
    let fresh = plan_wall_inputs(state, 0b110, 0b1, 3, 5);
    assert!(fresh.rebuild);
    assert_eq!(fresh.changes, vec![(1, true), (2, true), (64, true)]);
}

#[test]
fn fx_hash_mixes_words() {
    let mut h = FxHasher::default();
    h.add(1);
    assert_eq!(h.hash, 0x517c_c1b7_2722_0a95);
    let mut k = FxHasher::default();
    k.add_all(&vec![1, 2]);
    h.add(2);
    assert_eq!(h.hash, k.hash);
    assert_ne!(h.hash, 0);
}

use titanium::board::{compute_dist, is_goal_cell};
use titanium::corridor::{
    any_goal_reachable_without_edge, build_column_four_corridor_fixture,
    detect_zero_delay_corridor, reconstruct_shortest_goal_path, shortest_distance,
    walls_that_block_edge, BoardEdge, CorridorScratch, RunnerGuaranteeKind,
};
use titanium::dist_cache::{
    dist_topo_entry_size_bytes, dist_topo_layer_bytes, dist_topo_scalar_bytes, fill_dist_layers,
    wall_incr_refresh_flags, DistCache,
};
use titanium::game::GameState;
use titanium::movegen::{gen_moves_inner, reachable_mask, wall_in_dead_zone, WallPolicy};
use titanium::moves::{algebraic_to_move_id, wall_move, wall_slot};

fn apply_moves(moves: &[&str]) -> GameState {
    let mut g = GameState::new();
    for m in moves {
        g.make_move(algebraic_to_move_id(m));
    }
    g
}

#[test]
fn basic_zero_delay_corridor_detected() {
    let g = build_column_four_corridor_fixture();
    let mut scratch = CorridorScratch::new();
    let guarantee = detect_zero_delay_corridor(&g, 0, &mut scratch).expect("corridor");
    assert!(guarantee.max_own_moves_to_goal > 0);
    assert_eq!(
        guarantee.protected_edges.len(),
        guarantee.max_own_moves_to_goal as usize
    );
    assert_eq!(guarantee.path.first().copied(), Some(g.pawn[0]));
    assert!(is_goal_cell(0, *guarantee.path.last().unwrap()));
}

#[test]
fn wall_anchor_audit_illegal_for_protected_edges() {
    let g = build_column_four_corridor_fixture();
    let mut scratch = CorridorScratch::new();
    let guarantee = detect_zero_delay_corridor(&g, 0, &mut scratch).expect("corridor");
    for edge in &guarantee.protected_edges {
        for mv in walls_that_block_edge(*edge) {
            let slot = if mv < 200 {
                (mv - 100) as usize
            } else {
                (mv - 200) as usize
            };
            let wtype = if mv < 200 { 0 } else { 1 };
            assert!(
                !g.wall_legal(wtype, slot),
                "blocking wall {mv} on edge {:?} must be illegal",
                edge
            );
        }
    }
}

#[test]
fn unique_shortest_with_longer_bypass_rejected() {
    // Short prefix + chokepoint + goal — bypass via long prefix exists.
    let g = apply_moves(&["e2", "e8", "e3", "e7", "d3h", "f6h", "e4h"]);
    let mut scratch = CorridorScratch::new();
    assert!(
        detect_zero_delay_corridor(&g, 0, &mut scratch).is_none(),
        "longer bypass must prevent zero-delay certificate"
    );
}

#[test]
fn distances_and_paths_on_the_open_board() {
    let g = GameState::new();
    let mut scratch = CorridorScratch::new();
    assert_eq!(shortest_distance(&g, 0), 8);
    let path = reconstruct_shortest_goal_path(&g, 0, &mut scratch).expect("path");
    assert_eq!(path.len(), 9);
    assert_eq!(path[0], 76);
    assert!(is_goal_cell(0, path[8]));
    assert!(any_goal_reachable_without_edge(
        &g,
        0,
        76,
        BoardEdge::new(76, 67),
        &mut scratch
    ));
    let fixture = build_column_four_corridor_fixture();
    let guarantee = detect_zero_delay_corridor(&fixture, 0, &mut scratch).expect("corridor");
    assert!(matches!(
        guarantee.kind,
        RunnerGuaranteeKind::ZeroDelayCorridor
    ));
    for edge in &guarantee.protected_edges {
        assert!(!any_goal_reachable_without_edge(
            &fixture,
            0,
            fixture.pawn[0],
            *edge,
            &mut scratch
        ));
    }
}

#[test]
fn cache_entry_sizes() {
    assert_eq!(dist_topo_scalar_bytes(), 174);
    assert_eq!(dist_topo_layer_bytes(), 512);
    assert_eq!(dist_topo_entry_size_bytes(), 688);
}

#[test]
fn refreshed_fields_match_a_plain_flood() {
    let moves = ["e2", "e8", "e3h", "d6h", "c3h", "f6h", "e3", "b5v", "g4v", "e7"];
    let mut g = GameState::new();
    let mut cache = DistCache::new(true, 2, 6, true);
    for (i, m) in moves.iter().enumerate() {
        g.make_move(algebraic_to_move_id(m));
        cache.refresh_dist_inner(&g, i + 1);
        for side in 0..2 {
            let field = compute_dist(&g.hw, &g.vw, side);
            for cell in 0..81 {
                assert_eq!(cache.distance(side, cell), field[cell]);
            }
        }
    }
    // Back to the start and up another line: the stores must not mix topologies.
    let mut h = GameState::new();
    cache.invalidate();
    for (i, m) in ["e2", "e8", "d6h", "e3h", "f6h"].iter().enumerate() {
        h.make_move(algebraic_to_move_id(m));
        cache.refresh_dist_inner(&h, i + 1);
        let field = compute_dist(&h.hw, &h.vw, 0);
        assert_eq!(cache.distance(0, 76), field[76]);
    }
}

#[test]
fn walls_off_every_route_keep_the_field() {
    let g = GameState::new();
    let d0 = compute_dist(&g.hw, &g.vw, 0);
    let d1 = compute_dist(&g.hw, &g.vw, 1);
    // A vertical wall stands between equal distances on the open board.
    let v = algebraic_to_move_id("e4v");
    assert_eq!(wall_incr_refresh_flags(&d0, &d1, v), (false, false));
    let h = algebraic_to_move_id("e4h");
    assert_eq!(wall_incr_refresh_flags(&d0, &d1, h), (true, true));
    let mut after = GameState::new();
    after.make_move(v);
    assert_eq!(compute_dist(&after.hw, &after.vw, 0), d0);
}

#[test]
fn layers_partition_the_board() {
    let g = GameState::new();
    let d0 = compute_dist(&g.hw, &g.vw, 0);
    let layers = fill_dist_layers(&d0);
    assert_eq!(layers.len(), 9);
    let mut all = 0u128;
    for l in &layers {
        assert_eq!(l.count_ones(), 9);
        assert_eq!(all & l, 0);
        all |= l;
    }
    assert_eq!(all.count_ones(), 81);
    assert_eq!(layers[0], 0x1FF);
}

#[test]
fn walls_in_a_void_are_left_out() {
    // Close off the corner square a9 with two walls.
    let mut g = GameState::new();
    for m in ["a8h", "e8", "a8v"] {
        let id = algebraic_to_move_id(m);
        if g.accepts_move(id) {
            g.make_move(id);
        }
    }
    let reach = reachable_mask(&g.hw, &g.vw, g.pawn[0]);
    assert!(reach[76]);
    let ms = gen_moves_inner(&g, 1, WallPolicy::DeadZone, &vec![], 0);
    let lazy = gen_moves_inner(&g, 1, WallPolicy::Lazy, &vec![], 0);
    assert!(ms.len() <= lazy.len());
    for m in &lazy {
        if *m >= 81 {
            let dead = wall_in_dead_zone(
                wall_slot(*m),
                &reachable_mask(&g.hw, &g.vw, g.pawn[0]),
                &reachable_mask(&g.hw, &g.vw, g.pawn[1]),
            );
            assert_eq!(!dead, ms.contains(m));
        }
    }
}

#[test]
fn legal_moves_of_the_start_position() {
    let g = GameState::new();
    let ms = gen_moves_inner(&g, 0, WallPolicy::Legal, &vec![], 0);
    assert_eq!(ms.len(), 3 + 128);
    let mut relevant = vec![false; 256];
    relevant[wall_move(0, 5) as usize] = true;
    let filtered = gen_moves_inner(&g, 1, WallPolicy::Relevant, &relevant, wall_move(1, 7));
    assert_eq!(filtered[3..], [wall_move(0, 5), wall_move(1, 7)]);
}

#[test]
fn moves_are_taken_back_exactly() {
    let mut g = GameState::new();
    let before = g.clone();
    for m in ["e2", "e8", "e3h", "d6v"] {
        g.make_move(algebraic_to_move_id(m));
    }
    assert_eq!(g.wl, [9, 9]);
    for _ in 0..4 {
        g.unmake_move();
    }
    assert_eq!(g.pawn, before.pawn);
    assert_eq!(g.wl, before.wl);
    assert_eq!((g.hash_lo, g.hash_hi), (before.hash_lo, before.hash_hi));
    assert_eq!(g.hw, before.hw);
    let mut t = g.clone();
    t.pass_turn();
    assert_ne!((t.hash_lo, t.hash_hi), (g.hash_lo, g.hash_hi));
    t.pass_turn();
    assert_eq!((t.hash_lo, t.hash_hi), (g.hash_lo, g.hash_hi));
}

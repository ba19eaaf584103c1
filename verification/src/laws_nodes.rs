//! What nodes and whole searches promise beyond their own scores: a cut by a race is true of the
//! real game, the root's records hold what was searched, a cutoff teaches its own move, and
//! deepening goes ply by ply.

use crate::board;
use crate::config::SearchConfig;
use crate::game;
use crate::host::SearchHost;
use crate::laws_play;
use crate::laws_races;
use crate::pruning;
use crate::pruning::Visit;
use crate::race;
use crate::race::{RaceBound, RaceProver};
use crate::race_cache;
use crate::race_root;
use crate::race_table;
use crate::race_theorems;
use crate::root_moves;
use crate::root_select;
use crate::root_select::{CleanWinCandidate, RootDefenseDiag};
use crate::root_verify;
use crate::root_verify::ProbeTrace;
use crate::score;
use crate::search;
use crate::search::TitaniumSearch;
use crate::think;
use crate::think::{Deepened, DepthStep, IdState, ThinkResult};
use crate::trace;
use crate::trace::{Asked, Call, Trace};
use crate::tt::SharedTtEntry;
use vstd::prelude::*;

verus! {

// Cuts by races.

/// With a wall left, a cut by the race layers is true of the real game: it is at beta where the
/// side to move wins, walls and all, and at alpha where it loses.
pub proof fn law_race_cut_is_true<H: SearchHost>(
    s: TitaniumSearch,
    after: RaceProver,
    alpha: i32,
    beta: i32,
    v: i32,
)
    requires
        search::race_cut_follows::<H>(s, after, alpha, beta, Some(v)),
        game::position_ok(s.g@),
        laws_races::running(s.g@),
        s.g@.wl0 + s.g@.wl1 > 0,
    ensures
        (v == beta && laws_races::wins_the_game(s.g@, s.g@.turn)) || (v == alpha
            && laws_races::wins_the_game(s.g@, 1 - s.g@.turn)),
{
    let p = s.g@;
    let b = choose|b: RaceBound| #[trigger] search::race_bound_cuts::<H>(s, b, alpha, beta, v);
    assert(search::race_bound_cuts::<H>(s, b, alpha, beta, v));
    if (p.wl0 == 0) != (p.wl1 == 0) && exists|x: i32| #[trigger]
        race_cache::race_score_is(p, Some(x)) && b == race::broke_bound(p, Some(x)) {
        let x = choose|x: i32| #[trigger]
            race_cache::race_score_is(p, Some(x)) && b == race::broke_bound(p, Some(x));
        race_theorems::law_broke_bound_is_sound(p, x);
        match b {
            RaceBound::Lower(y) => {
                assert(laws_races::wins_within(p, p.turn, (50_000 - x) as nat));
            },
            RaceBound::Upper(y) => {
                assert(laws_races::wins_within(p, 1 - p.turn, (50_000 + x) as nat));
            },
            _ => {},
        }
    } else if p.wl0 + p.wl1 == 1 {
        let x = if b is Lower {
            p.turn
        } else {
            1 - p.turn
        };
        if race::holder_verdict(p, x) {
            laws_races::law_holder_verdict_is_true(p, x);
        } else {
            laws_races::law_nonholder_verdict_is_true(p, x);
        }
    } else {
        let x = if b is Lower {
            p.turn
        } else {
            1 - p.turn
        };
        laws_races::law_monopoly_verdict_is_true(p, x);
    }
}

/// With both hands empty and nothing deduced, a cut is the race's exact score: its sign names
/// the winner of the real game and its size the plies.
pub proof fn law_empty_hands_cut_is_true<H: SearchHost>(
    s: TitaniumSearch,
    after: RaceProver,
    alpha: i32,
    beta: i32,
    v: i32,
)
    requires
        search::race_cut_follows::<H>(s, after, alpha, beta, Some(v)),
        game::position_ok(s.g@),
        laws_races::running(s.g@),
        s.g@.wl0 == 0,
        s.g@.wl1 == 0,
        !s.cfg.cheap_cert,
    ensures
        v > 0 ==> race_theorems::game_decided(s.g@, true, (50_000 - v) as nat),
        v < 0 ==> race_theorems::game_decided(s.g@, false, (50_000 + v) as nat),
        v > 0 ==> !race_theorems::game_decided(s.g@, true, (50_000 - v - 1) as nat),
        v < 0 ==> !race_theorems::game_decided(s.g@, false, (50_000 + v - 1) as nat),
        v != 0,
{
    let p = s.g@;
    if exists|b: RaceBound| #[trigger] search::race_bound_cuts::<H>(s, b, alpha, beta, v) {
        let b = choose|b: RaceBound| #[trigger] search::race_bound_cuts::<H>(s, b, alpha, beta, v);
        assert(search::race_ground::<H>(s, b));
    }
    assert(race_cache::race_score_is(p, Some(v)));
    let i = race_cache::state_of(p);
    let x = choose|x: int|
        -13_122 <= x <= 13_122 && #[trigger] race_table::value_is(p.w, i, x)
            && race_cache::score_of_value(x) == Some(v);
    race_table::lemma_state_index(p.p0, p.p1, p.turn);
    assert(race_table::live(i));
    if x > 0 {
        race_theorems::law_empty_hands_are_a_race(p, true, x as nat);
        race_theorems::law_empty_hands_are_a_race(p, true, (x - 1) as nat);
    } else {
        race_theorems::law_empty_hands_are_a_race(p, false, (-x) as nat);
        race_theorems::law_empty_hands_are_a_race(p, false, (-x - 1) as nat);
    }
}

/// Where more than two walls are left and both players hold some, races say nothing.
pub proof fn law_races_need_few_walls<H: SearchHost>(
    s: TitaniumSearch,
    after: RaceProver,
    alpha: i32,
    beta: i32,
    cut: Option<i32>,
)
    requires
        search::race_cut_follows::<H>(s, after, alpha, beta, cut),
        s.g@.wl0 > 0,
        s.g@.wl1 > 0,
        s.g@.wl0 + s.g@.wl1 > 2,
    ensures
        cut is None,
{
}

// Results of searches.

/// A search of a finished game comes to a loss for the side to move, by its distance from the
/// root, whatever was asked; and one of a position that repeats an earlier one of the game, below
/// the root, comes to nothing.
pub proof fn law_ended_games_have_fixed_results<H: SearchHost>(
    b: TitaniumSearch,
    a: TitaniumSearch,
    c: Asked,
    v: int,
)
    requires
        trace::is_result::<H>(b, a, c, v),
        b.g@.turn == 0 || b.g@.turn == 1,
        0 <= c.ply < 64,
    ensures
        b.g@.turn == 0 && b.g@.p1 >= 72 ==> v == c.ply - 100_000,
        b.g@.turn == 1 && b.g@.p0 < 9 ==> v == c.ply - 100_000,
        c.ply > 0 && game::repeats_history(b.g@) && b.g@.p0 >= 9 && b.g@.p1 < 72 ==> v == 0,
{
    reveal_with_fuel(trace::is_result, 2);
    reveal(trace::node_rule);
}

/// A leaf that is looked at more closely is searched one ply deep, at the same place and in the
/// same window, with one extension fewer.
pub proof fn law_extended_leaves<H: SearchHost>(
    b: TitaniumSearch,
    a: TitaniumSearch,
    c: Asked,
    v: int,
    t: Trace,
)
    requires
        trace::node_rule::<H>(b, a, c, v, t),
        search::entry_score(b.g@, b.path@, c.ply) is None,
        t.verdict is Extend,
    ensures
        t.extended matches Some(k) && k.value == v && k.asked.depth == 1 && k.asked.q_left + 1
            == c.q_left && k.asked.q_left >= 0 && k.asked.alpha == c.alpha && k.asked.beta == c.beta
            && k.asked.ply == c.ply,
{
    reveal(trace::node_rule);
}

/// A shortcut that cuts gives beta, and nothing is listed; one that does not leaves the node to
/// its moves.
pub proof fn law_shortcuts_give_beta<H: SearchHost>(
    b: TitaniumSearch,
    a: TitaniumSearch,
    c: Asked,
    v: int,
    t: Trace,
)
    requires
        trace::node_rule::<H>(b, a, c, v, t),
        search::entry_score(b.g@, b.path@, c.ply) is None,
        t.verdict is Search,
        trace::probe_cuts(t.probe, c.beta as int) || trace::pass_cuts(t.pass, c.beta as int),
    ensures
        v == c.beta,
        a == t.opened,
{
    reveal(trace::node_rule);
}

// The root.

/// The best pawn move of the root is the one with the highest score of those searched, and none
/// only where none was searched.
pub proof fn law_root_pawn_best(visits: Seq<Visit>, i: int)
    requires
        0 <= i < visits.len(),
    ensures
        ({
            let (m, sc) = search::root_pawn_raised((-1i16, None), visits);
            &&& 0 <= visits[i].m < 81 ==> sc is Some && sc->0 >= visits[i].score
            &&& sc is Some ==> exists|k: int|
                0 <= k < visits.len() && (#[trigger] visits[k]).m == m && visits[k].score == sc->0
                    && 0 <= m < 81
        }),
    decreases visits.len(),
{
    let rest = visits.drop_last();
    let (m, sc) = search::root_pawn_raised((-1i16, None), rest);
    let (m1, sc1) = search::root_pawn_raised((-1i16, None), visits);
    assert(visits[visits.len() - 1] == visits.last());
    if rest.len() > 0 {
        law_root_pawn_best(
            rest,
            if i < rest.len() {
                i
            } else {
                0
            },
        );
        if sc is Some {
            let k = choose|k: int|
                0 <= k < rest.len() && (#[trigger] rest[k]).m == m && rest[k].score == sc->0 && 0 <= m
                    < 81;
            assert(visits[k] == rest[k]);
        }
        if i < rest.len() {
            assert(rest[i] == visits[i]);
        }
    }
}

/// A searched root move is recorded with its score, or keeps a better one; no other record
/// changes; and no move is recorded twice.
pub proof fn law_root_scores_are_recorded(ms: Seq<(i16, i32)>, m: i16, score: i32, k: int)
    requires
        0 <= k < ms.len(),
        forall|i: int, j: int| 0 <= i < j < ms.len() ==> (#[trigger] ms[i]).0 != (#[trigger] ms[j]).0,
    ensures
        ({
            let after = search::noted(ms, m, score);
            &&& ms.len() <= after.len() <= ms.len() + 1
            &&& ms[k].0 != m ==> after[k] == ms[k]
            &&& ms[k].0 == m ==> after[k].0 == m && after.len() == ms.len()
            &&& ms[k].0 == m && score >= ms[k].1 ==> after[k] == (m, score)
            &&& ms[k].0 == m && score < ms[k].1 ==> after[k] == ms[k]
            &&& after.len() > ms.len() ==> after[ms.len() as int] == (m, score)
            &&& exists|j: int| 0 <= j < after.len() && (#[trigger] after[j]).0 == m && after[j].1 >= score
        }),
    decreases ms.len(),
{
    let after = search::noted(ms, m, score);
    if ms[0].0 == m {
        assert(after[0].0 == m && after[0].1 >= score);
        if k > 0 {
            assert(ms[0].0 != ms[k].0);
        }
    } else {
        let rest = ms.drop_first();
        let tail = search::noted(rest, m, score);
        assert(after =~= seq![ms[0]] + tail);
        assert forall|i: int, j: int| 0 <= i < j < rest.len() implies (#[trigger] rest[i]).0 != (
        #[trigger] rest[j]).0 by {
            assert(rest[i] == ms[i + 1] && rest[j] == ms[j + 1]);
        }
        if rest.len() == 0 {
            assert(tail == seq![(m, score)]);
            assert(after[1] == (m, score));
        } else {
            law_root_scores_are_recorded(
                rest,
                m,
                score,
                if k > 0 {
                    k - 1
                } else {
                    0
                },
            );
            let j = choose|j: int|
                0 <= j < tail.len() && (#[trigger] tail[j]).0 == m && tail[j].1 >= score;
            assert(after[j + 1] == tail[j]);
            if k > 0 {
                assert(rest[k - 1] == ms[k]);
                assert(after[k] == tail[k - 1]);
            }
            assert(tail.len() > rest.len() ==> after[ms.len() as int] == tail[rest.len() as int]);
        }
    }
}

/// An equal score is preferred at the root alone, and only to get away from a repetition.
pub proof fn law_preferred_moves(
    p: game::Position,
    ply: int,
    state: pruning::NodeState,
    score: i32,
    m: i16,
)
    requires
        search::prefers_move(p, ply, state, score, m),
    ensures
        ply == 0,
        state.best == Some(score),
        game::repeats_history(game::played(p, state.best_move as int)),
        !game::repeats_history(game::played(p, m as int)),
{
}

// Learning from a cutoff.

/// A cutoff by a wall makes it the first killer of its ply and of no other; one by a pawn move
/// leaves the killers; the reply to the move before is remembered, and no other; and only the
/// statistics of the side to move change, its cutting move never for the worse.
pub proof fn law_cutoff_teaches(
    before: TitaniumSearch,
    after: TitaniumSearch,
    ply: int,
    m: i16,
    prev_move: i16,
    depth: int,
    walls: Seq<i16>,
    pawns: Seq<i16>,
    k: int,
)
    requires
        search::cutoff_learned(before, after, ply, m, prev_move, depth, walls, pawns),
        before.hist.wf(),
        0 <= ply < 64,
        0 <= k < 64,
        0 <= m < 209,
        prev_move < 256,
        0 <= depth <= 1000,
        before.g.turn == 0 || before.g.turn == 1,
        forall|i: int| 0 <= i < walls.len() ==> 0 <= #[trigger] walls[i] < 209,
        forall|i: int| 0 <= i < pawns.len() ==> 0 <= #[trigger] pawns[i] < 209,
    ensures
        m >= 81 ==> after.hist.killers@[ply].0 == m,
        m < 81 || k != ply ==> after.hist.killers@[k] == before.hist.killers@[k],
        prev_move >= 0 ==> after.hist.cm@[prev_move as int] == m,
        k != prev_move ==> after.hist.cm@[k] == before.hist.cm@[k],
        before.g.turn == 0 ==> after.hist.hist_sf1 == before.hist.hist_sf1 || after.hist.hist_sf1@
            == before.hist.hist_sf1@,
        before.g.turn == 1 ==> after.hist.hist_sf0 == before.hist.hist_sf0 || after.hist.hist_sf0@
            == before.hist.hist_sf0@,
        before.g.turn == 0 ==> after.hist.hist_sf0@[m as int] >= before.hist.hist_sf0@[m as int],
        before.g.turn == 1 ==> after.hist.hist_sf1@[m as int] >= before.hist.hist_sf1@[m as int],
        before.g.turn == 0 && k != m ==> after.hist.hist_sf0@[k] <= before.hist.hist_sf0@[k],
        before.g.turn == 1 && k != m ==> after.hist.hist_sf1@[k] <= before.hist.hist_sf1@[k],
        after.hist.corr0 == before.hist.corr0,
        after.hist.corr1 == before.hist.corr1,
        after.g == before.g,
        after.table == before.table,
{
    let tried = walls + pawns;
    assert(0 <= depth * depth <= 1_000_000) by (nonlinear_arith)
        requires
            0 <= depth <= 1000,
    ;
    assert forall|i: int| 0 <= i < tried.len() implies 0 <= #[trigger] tried[i] < 256 by {
        if i < walls.len() {
            assert(tried[i] == walls[i]);
        } else {
            assert(tried[i] == pawns[i - walls.len()]);
        }
    }
    if before.g.turn == 0 {
        laws_play::law_credit_goes_to_the_cut(before.hist.hist_sf0@, m, depth * depth, tried, m as int);
        laws_play::law_credit_goes_to_the_cut(before.hist.hist_sf0@, m, depth * depth, tried, k);
    } else {
        laws_play::law_credit_goes_to_the_cut(before.hist.hist_sf1@, m, depth * depth, tried, m as int);
        laws_play::law_credit_goes_to_the_cut(before.hist.hist_sf1@, m, depth * depth, tried, k);
    }
}

/// Standing still gains nothing; an own step gains one; a step the opponent loses gains one.
pub proof fn law_gain_in_race(our: int, opp: int, saved: int, lost: int)
    ensures
        search::gain_in_race(our, opp, our, opp) == 0,
        search::gain_in_race(our, opp, our - saved, opp) == saved,
        search::gain_in_race(our, opp, our, opp + lost) == lost,
        search::gain_in_race(our, opp, our - saved, opp + lost) == saved + lost,
{
}

/// An evaluation swings by as much as it changed for one and the same player; the one of the
/// position before is the opponent's.
pub proof fn law_swing(mine: int, before: int, enough: int)
    requires
        enough > 0,
    ensures
        pruning::swing_enough(mine, -before, enough) <==> mine - before >= enough || before - mine
            >= enough,
        pruning::swing_enough(mine, -before, 0),
{
}

/// What leans on a repetition leans on the earliest one below it.
pub proof fn law_earliest_repetition(a: pruning::RepWindow, b: pruning::RepWindow, ply: int)
    ensures
        pruning::leans_outside(pruning::merged(a, b), ply) <==> pruning::leans_outside(a, ply)
            || pruning::leans_outside(b, ply),
        pruning::merged(a, b).min_ply <= a.min_ply,
        pruning::merged(a, b).min_ply <= b.min_ply,
        0 <= ply < 64 ==> !pruning::leans_outside(pruning::no_repetition(), ply),
{
}

/// The clock is looked at on every sixty-fourth node, and nothing else ends a search.
pub proof fn law_clock_is_looked_at<H: SearchHost>(nodes: u64, up: bool)
    requires
        search::time_checked::<H>(nodes, up),
    ensures
        nodes % 64 != 0 ==> !up,
{
}

// Passes over the root.

/// The search behind a probe of a root move.
pub open spec fn probe_call<H: SearchHost>(p: game::Position, m: i16, depth: int, value: int, k: Call) -> bool {
    &&& trace::is_result::<H>(k.before, k.after, k.asked, k.value)
    &&& k.before.g@ == game::played(p, m as int)
    &&& k.asked.depth == depth
    &&& k.asked.ply == 1
    &&& k.asked.alpha == -200_000
    &&& k.asked.beta == 200_000
    &&& k.value + value == 0
}

/// The value of a probed root move is what a search of the position after it, with an open
/// window, came to for the opponent, with the sign turned.
pub proof fn law_probe_is_a_full_search<H: SearchHost>(
    now: TitaniumSearch,
    end: TitaniumSearch,
    m: i16,
    depth: int,
    static_eval: int,
    value: int,
)
    requires
        root_verify::probed::<H>(now, end, m, depth, static_eval, value),
    ensures
        exists|k: Call| #[trigger] probe_call::<H>(now.g@, m, depth, value, k),
        end.g@ == now.g@,
{
    reveal(root_verify::probed_by);
    let t = choose|t: ProbeTrace| #[trigger]
        root_verify::probed_by::<H>(now, end, m, depth, static_eval, value, t);
    assert(probe_call::<H>(now.g@, m, depth, value, t.call));
}

/// A defence is recorded with the distances of its own mover before and after it, and with the
/// opponent's after it. A pawn move leaves the opponent's where it was.
pub proof fn law_defence_record<H: SearchHost>(
    now: TitaniumSearch,
    end: TitaniumSearch,
    d: RootDefenseDiag,
    depth: int,
)
    requires
        root_verify::defence_recorded::<H>(now, end, d, depth),
        now.g@.turn == 0 || now.g@.turn == 1,
    ensures
        ({
            let p = now.g@;
            let q = game::played(p, d.mv as int);
            &&& p.turn == 0 ==> board::dist_value(p.w, 0, p.p0, d.own_dist_before as int)
                && board::dist_value(q.w, 0, q.p0, d.own_dist_after as int) && board::dist_value(
                q.w,
                1,
                q.p1,
                d.opp_dist_after as int,
            )
            &&& p.turn == 1 ==> board::dist_value(p.w, 1, p.p1, d.own_dist_before as int)
                && board::dist_value(q.w, 1, q.p1, d.own_dist_after as int) && board::dist_value(
                q.w,
                0,
                q.p0,
                d.opp_dist_after as int,
            )
            &&& 0 <= d.mv < 81 ==> board::dist_value(
                p.w,
                1 - p.turn,
                if p.turn == 0 {
                    p.p1
                } else {
                    p.p0
                },
                d.opp_dist_after as int,
            )
        }),
{
}

/// After a pass over a lost root the root's move is one of those searched, with the score that
/// its own search gave; without any the root stands.
pub proof fn law_defence_stands_at_the_root<H: SearchHost>(
    before: TitaniumSearch,
    after: TitaniumSearch,
    cands: Seq<i16>,
    depth: int,
    v: i32,
)
    requires
        root_verify::defended_among::<H>(before, after, cands, depth, v),
    ensures
        after.root_score == v,
        cands.len() == 0 ==> after.root_best == before.root_best && v == before.root_score,
        cands.len() > 0 ==> cands.contains(after.root_best) && exists|i: int|
            0 <= i < cands.len() && (#[trigger] after.root_defense_diag@[i]).mv == after.root_best
                && after.root_defense_diag@[i].search_score == v,
{
    let ds = after.root_defense_diag@;
    if cands.len() > 0 {
        let b = choose|b: int|
            0 <= b < ds.len() && after.root_best == (#[trigger] ds[b]).mv && v == ds[b].search_score
                && forall|i: int|
                0 <= i < ds.len() && i != b ==> root_select::outranks(
                    ds[b].rank(b),
                    #[trigger] ds[i].rank(i),
                );
        assert(ds[b].mv == cands[b]);
    }
}

/// The pass over a lost root that a depth of so many plies makes searches each move one ply less
/// deep.
pub proof fn law_pass_depth<H: SearchHost>(
    mid: TitaniumSearch,
    after: TitaniumSearch,
    sc: i32,
    d: i32,
    v: i32,
    i: int,
)
    requires
        think::pass_made::<H>(mid, after, sc, d, v),
        score::proven_loss(sc as int),
        0 <= i < after.root_defense_diag@.len(),
    ensures
        after.root_defense_diag@[i].child_depth_used == d - 1,
        after.root_score == v,
{
    let (opened, cands) = choose|opened: TitaniumSearch, cands: Seq<i16>| #[trigger]
        root_verify::defended_among::<H>(opened, after, cands, d - 1, v)
            && root_verify::pass_opened(mid, opened) && root_moves::root_list_of::<H>(
            mid,
            mid.hist,
            root_verify::root_hint(mid),
            cands,
        );
    assert(root_verify::defended_among::<H>(opened, after, cands, d - 1, v));
    let states = choose|states: Seq<TitaniumSearch>| #[trigger]
        root_verify::defences_recorded::<H>(states, cands, after.root_defense_diag@, d - 1)
            && states[0] == opened && root_verify::pass_left(states.last(), after);
    assert(after.root_defense_diag@[i].mv == cands[i]);
}

/// The same of a pass over a won root.
pub proof fn law_win_stands_at_the_root<H: SearchHost>(
    before: TitaniumSearch,
    after: TitaniumSearch,
    cands: Seq<i16>,
    heat: Seq<i32>,
    depth: int,
    v: i32,
    cs: Seq<CleanWinCandidate>,
)
    requires
        root_verify::won_among::<H>(before, after, cands, heat, depth, v, cs),
    ensures
        after.root_score == v,
        cands.len() == 0 ==> after.root_best == before.root_best && v == before.root_score,
        cands.len() > 0 ==> cands.contains(after.root_best) && exists|i: int|
            0 <= i < cands.len() && (#[trigger] cs[i]).mv == after.root_best && cs[i].search_score
                == v,
{
    if cands.len() > 0 {
        let b = choose|b: int|
            0 <= b < cs.len() && after.root_best == (#[trigger] cs[b]).mv && v == cs[b].search_score
                && forall|i: int|
                0 <= i < cs.len() && i != b ==> root_select::outranks(
                    cs[b].rank(b),
                    #[trigger] cs[i].rank(i),
                );
        assert(cs[b].mv == cands[b]);
    }
}

/// A win is recorded with the opponent's distance after it.
pub proof fn law_win_record<H: SearchHost>(
    now: TitaniumSearch,
    end: TitaniumSearch,
    heat: Seq<i32>,
    c: CleanWinCandidate,
    depth: int,
)
    requires
        root_verify::win_recorded::<H>(now, end, heat, c, depth),
    ensures
        ({
            let q = game::played(now.g@, c.mv as int);
            &&& now.g@.turn == 0 ==> board::dist_value(q.w, 1, q.p1, c.opp_dist_after as int)
            &&& now.g@.turn == 1 ==> board::dist_value(q.w, 0, q.p0, c.opp_dist_after as int)
            &&& 0 <= c.mv < heat.len() ==> c.cat_heat == heat[c.mv as int]
        }),
{
}

/// A pass over the root makes the table's entries old, unless nothing may.
pub proof fn law_pass_generation(s: TitaniumSearch)
    ensures
        s.cfg.pure_mode || s.cfg.is_pondering ==> root_verify::pass_generation(s) == s.table.tt_gen,
        !s.cfg.pure_mode && !s.cfg.is_pondering ==> root_verify::pass_generation(s)
            != s.table.tt_gen,
{
}

// Deepening.

/// Deepening goes ply by ply: the entries of its log are of consecutive depths, each as deep as
/// its own step.
pub proof fn law_deepening_goes_ply_by_ply<H: SearchHost>(
    b: TitaniumSearch,
    a: TitaniumSearch,
    time_ms: int,
    t0: u64,
    max_depth: int,
    full: bool,
    r: Deepened,
    entry: Option<SharedTtEntry>,
    steps: Seq<DepthStep>,
    i: int,
)
    requires
        think::deepened_by::<H>(b, a, time_ms, t0, max_depth, full, r, entry, steps),
        0 <= i < r.log@.len(),
    ensures
        i + 1 < r.log@.len() ==> r.log@[i + 1].depth == r.log@[i].depth + 1,
        i == 0 && entry is None ==> r.log@[i].depth == 1,
        r.log@[i].depth == steps[i].d,
{
    lemma_entry_depth::<H>(b, a, time_ms, t0, max_depth, full, r, entry, steps, i);
    if i + 1 < r.log@.len() {
        lemma_entry_depth::<H>(b, a, time_ms, t0, max_depth, full, r, entry, steps, i + 1);
    }
}

proof fn lemma_entry_depth<H: SearchHost>(
    b: TitaniumSearch,
    a: TitaniumSearch,
    time_ms: int,
    t0: u64,
    max_depth: int,
    full: bool,
    r: Deepened,
    entry: Option<SharedTtEntry>,
    steps: Seq<DepthStep>,
    i: int,
)
    requires
        think::deepened_by::<H>(b, a, time_ms, t0, max_depth, full, r, entry, steps),
        0 <= i < r.log@.len(),
    ensures
        r.log@[i].depth == think::resume_point(b.cfg.pure_mode, entry).0 + i,
        steps[i].d == r.log@[i].depth,
{
    reveal(think::depths_follow);
    reveal(think::depth_at);
    let (start, seed) = think::resume_point(b.cfg.pure_mode, entry);
    assert(think::depth_at::<H>(b, start, seed as i32, full, time_ms, t0, steps, i));
    let s = steps[i];
    assert(s.out.entry == Some(r.log@[i]));
    let (sc, mid) = choose|sc: i32, mid: TitaniumSearch| #[trigger]
        think::iteration_left::<H>(s.before, mid, s.st, s.d, think::root_extensions(b.cfg), sc)
            && think::passed_over::<H>(mid, s.after, s.st, sc, s.d, time_ms, s.out)
            && s.out.entry->0.marginal_nodes == mid.nodes - s.before.nodes;
    assert(think::carries(r.log@[i], s.out.state) || think::carries(
        r.log@[i],
        think::completed(s.st, sc, s.d, think::report_of(mid)),
    ));
}

/// The wall that gives way is the last in the hand, another move takes its place, and the
/// demotion is counted; where nothing was shown of the position after it, it stands.
pub proof fn law_last_wall_is_checked<H: SearchHost>(
    time_ms: u64,
    before: TitaniumSearch,
    after: TitaniumSearch,
    st: IdState,
    t: IdState,
)
    requires
        think::wall_checked::<H>(time_ms, before, after, st, t),
        before.g@.turn == 0 || before.g@.turn == 1,
    ensures
        t.last_best == st.last_best || t.last_best == st.last_pawn_best,
        t.last_best != st.last_best ==> before.prover.race_proof && 81 <= st.last_best < 209,
        t.last_best != st.last_best && before.g@.turn == 0 ==> before.g@.wl0 == 1,
        t.last_best != st.last_best && before.g@.turn == 1 ==> before.g@.wl1 == 1,
        t.last_best != st.last_best && before.rp_demotions < u64::MAX ==> after.rp_demotions
            == before.rp_demotions + 1,
        after.rp_demotions == before.rp_demotions && before.rp_demotions < u64::MAX ==> t == st,
        t.last_depth == st.last_depth,
        t.last_pawn_best == st.last_pawn_best,
{
}

/// Short searches reach one ply further with reverse futility where that follows the clock.
pub proof fn law_reach_of_futility(c: SearchConfig, time_ms: int)
    ensures
        c.rfp_tc_adaptive && time_ms <= 200 ==> think::think_config(c, time_ms).ace_rfp_max_depth == 4,
        !c.rfp_tc_adaptive || time_ms > 200 ==> think::think_config(c, time_ms).ace_rfp_max_depth == 3,
        think::think_config(c, time_ms).ace_rfp == c.ace_rfp,
        think::think_config(c, time_ms).q_max == c.q_max,
{
}

/// Race tables are opened from the sixth depth on, and at once for a pure race under proof.
pub proof fn law_tables_open(prev: TitaniumSearch, now: TitaniumSearch, d: int)
    requires
        think::depth_begun(prev, now, d),
    ensures
        d >= 6 ==> now.prover.cache.build_ok,
        prev.prover.race_proof && prev.g@.wl0 == 0 && prev.g@.wl1 == 0 ==> now.prover.cache.build_ok,
        d < 6 && (prev.g@.wl0 != 0 || prev.g@.wl1 != 0) ==> !now.prover.cache.build_ok,
        now.g == prev.g,
        now.table == prev.table,
{
}

// Answers.

/// An answered race has the race's own score: so many plies from a won end, or from a lost one;
/// and the move it names is a pawn move that takes the race there.
pub proof fn law_answered_race(p: game::Position, r: ThinkResult, v: int)
    requires
        think::answers_race(p, r),
        p.wl0 == 0,
        p.wl1 == 0,
        p.p0 >= 9,
        p.p1 < 72,
        race_table::race_value_is(p.w, race_cache::state_of(p), v),
        v != 0,
        -13_122 <= v <= 13_122,
    ensures
        v > 0 ==> r.score == 50_000 - v,
        v < 0 ==> r.score == -50_000 - v,
        v > 0 ==> r.race.outcome == 1 && r.race.exact_dtm == Some(v as u16),
        v < 0 ==> r.race.outcome == -1 && r.race.exact_dtm == Some((-v) as u16),
        game::pawn_moves(p).contains(r.mv),
        race_root::is_best_race_move(p, r.mv),
{
}

/// The reason of an answered race says whether it is exact.
pub proof fn law_reasons_tell_proofs(s: race_root::RaceRootSolution)
    ensures
        think::is_race_reason(think::solution_reason(s, true)),
        think::is_race_reason(think::solution_reason(s, false)),
        s.exact ==> think::solution_reason(s, false) == "semi_terminal_race_exact"@,
        !s.exact ==> think::solution_reason(s, false) == "semi_terminal_race_bound"@,
{
}

/// An answer is a legal move wherever there is one.
pub proof fn law_answers_are_legal<H: SearchHost>(s: TitaniumSearch, searched: i16, mv: i16)
    requires
        think::guarded::<H>(s, searched, mv),
    ensures
        think::legal_moves(s.g@).len() > 0 ==> think::legal_moves(s.g@).contains(mv),
        think::legal_moves(s.g@).len() == 0 ==> mv == -1,
        searched >= 0 && think::legal_moves(s.g@).contains(searched) ==> mv == searched,
{
}

} // verus!

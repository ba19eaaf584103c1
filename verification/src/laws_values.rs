//! How values go together: a race from one move to the next, estimates with each other, what is
//! learned with what is read, and what a cache keeps apart.

use crate::board;
use crate::config::SearchConfig;
use crate::eval;
use crate::game;
use crate::history;
use crate::history::History;
use crate::host::SearchHost;
use crate::hygiene;
use crate::laws_play;
use crate::laws_rules;
use crate::movegen;
use crate::movegen::WallPolicy;
use crate::moves;
use crate::num;
use crate::ordering;
use crate::pruning;
use crate::race;
use crate::race::{RaceBound, RaceProver};
use crate::race_cache;
use crate::race_root;
use crate::race_root::RaceRootCandidate;
use crate::race_table;
use crate::root_select;
use crate::routes;
use crate::score;
use crate::search;
use crate::search::TitaniumSearch;
use crate::think;
use crate::think::{Deepened, ThinkResult};
use crate::time_alloc;
use crate::timing;
use crate::tt;
use vstd::prelude::*;

verus! {

// Races.

/// A race move is worth one ply more than what it leaves the opponent, with the sign turned; an
/// arrival is a win in one; and what is undecided stays so.
pub proof fn law_move_values(tbl: Seq<i16>, i: int, m: int)
    ensures
        ({
            let u = tbl[race_table::child_index(i, m)] as int;
            let home = board::is_goal(race_table::turn_at(i), m);
            let v = race_root::move_value(tbl, i, m);
            &&& home ==> v == Some(1int)
            &&& !home && u == 0 ==> v is None
            &&& !home && u > 0 ==> v is Some && v->0 + u == -1
            &&& !home && u < 0 ==> v is Some && v->0 + u == 1
        }),
{
}

/// Of race moves that win equally fast or lose equally slowly the best leaves its pawn no
/// further from home than any other.
pub proof fn law_race_ties(p: game::Position, tbl: Seq<i16>, k: int, j: int)
    requires
        race_root::best_upto(p, tbl, game::pawn_moves(p).len() as int, k),
        0 <= j < game::pawn_moves(p).len(),
        race_root::has_value(p, tbl, j),
        race_root::move_value(tbl, race_cache::state_of(p), game::pawn_moves(p)[k] as int)
            == race_root::move_value(tbl, race_cache::state_of(p), game::pawn_moves(p)[j] as int),
    ensures
        board::goal_distance(p.w, p.turn, game::pawn_moves(p)[k] as int) <= board::goal_distance(
            p.w,
            p.turn,
            game::pawn_moves(p)[j] as int,
        ),
{
}

/// The best move of a decided race keeps its value: a won race is won in one ply fewer after it,
/// a lost one lost in one ply fewer; and a race won in one is won by arriving.
pub proof fn law_best_race_move_keeps_the_value(p: game::Position, mv: i16, v: int)
    requires
        9 <= p.p0 < 81,
        0 <= p.p1 < 72,
        p.turn == 0 || p.turn == 1,
        race_root::is_best_race_move(p, mv),
        race_table::race_value_is(p.w, race_cache::state_of(p), v),
        v != 0,
    ensures
        game::pawn_moves(p).contains(mv),
        board::is_goal(p.turn, mv as int) ==> v == 1,
        v == 1 ==> board::is_goal(p.turn, mv as int),
        v > 1 ==> race_table::race_value_is(
            p.w,
            race_cache::state_of(game::played(p, mv as int)),
            -(v - 1),
        ),
        v < 0 ==> race_table::race_value_is(
            p.w,
            race_cache::state_of(game::played(p, mv as int)),
            -v - 1,
        ),
{
    let ms = game::pawn_moves(p);
    let i = race_cache::state_of(p);
    let (tbl, k) = choose|tbl: Seq<i16>, k: int|
        #![trigger race_root::best_upto(p, tbl, game::pawn_moves(p).len() as int, k)]
        race_table::solves(p.w, tbl) && race_root::best_upto(
            p,
            tbl,
            game::pawn_moves(p).len() as int,
            k,
        ) && mv == game::pawn_moves(p)[k];
    race_table::lemma_state_index(p.p0, p.p1, p.turn);
    assert(race_table::live(i));
    assert(race_table::race_moves(p.w, i) == ms);
    assert(ms[k] == mv);
    lemma_child_value(p, tbl, k);
    if v > 0 {
        lemma_best_of_a_won_race(p, tbl, k, v);
    } else {
        lemma_best_of_a_lost_race(p, tbl, k, v);
    }
}

/// The best move of a won race is worth what the race is.
#[verifier::spinoff_prover]
proof fn lemma_best_of_a_won_race(p: game::Position, tbl: Seq<i16>, k: int, v: int)
    requires
        9 <= p.p0 < 81,
        0 <= p.p1 < 72,
        p.turn == 0 || p.turn == 1,
        race_table::solves(p.w, tbl),
        race_root::best_upto(p, tbl, game::pawn_moves(p).len() as int, k),
        race_table::race_value_is(p.w, race_cache::state_of(p), v),
        v > 0,
    ensures
        race_root::move_value(tbl, race_cache::state_of(p), game::pawn_moves(p)[k] as int) == Some(v),
{
    let ms = game::pawn_moves(p);
    let i = race_cache::state_of(p);
    race_table::lemma_state_index(p.p0, p.p1, p.turn);
    assert(race_table::race_moves(p.w, i) == ms);
    let j = choose|j: int|
        0 <= j < ms.len() && (board::is_goal(p.turn, #[trigger] ms[j] as int)
            || race_table::decided_within(
            p.w,
            race_table::child_index(i, ms[j] as int),
            false,
            (v - 1) as nat,
        ));
    lemma_child_value(p, tbl, j);
    lemma_child_value(p, tbl, k);
    let c = race_table::child_index(i, ms[j] as int);
    let y = race_root::move_value(tbl, i, ms[j] as int);
    if !board::is_goal(p.turn, ms[j] as int) {
        lemma_lost_within(p.w, c, tbl[c] as int, (v - 1) as nat);
    }
    assert(y is Some && 0 < y->0 <= v);
    assert(race_root::has_value(p, tbl, j));
    let x = race_root::move_value(tbl, i, ms[k] as int)->0;
    assert(0 < x <= v);
    if x < v {
        let d = race_table::child_index(i, ms[k] as int);
        if !board::is_goal(p.turn, ms[k] as int) {
            race_table::lemma_decided_grows(p.w, d, false, (x - 1) as nat, (v - 2) as nat);
        }
        assert(board::is_goal(p.turn, ms[k] as int) || race_table::decided_within(
            p.w,
            d,
            false,
            (v - 2) as nat,
        ));
        assert(race_table::decided_within(p.w, i, true, (v - 1) as nat));
    }
}

/// A state lost within some plies has a value that says so.
proof fn lemma_lost_within(w: board::Topo, c: int, u: int, n: nat)
    requires
        race_table::race_value_is(w, c, u),
        race_table::decided_within(w, c, false, n),
    ensures
        u < 0,
        -u <= n,
{
    if u > 0 {
        race_table::law_race_outcome_is_unique(w, c, u as nat, n);
    } else if u < 0 && -u > n {
        race_table::lemma_decided_grows(w, c, false, n, (-u - 1) as nat);
    } else if u == 0 {
        assert(!race_table::decided_within(w, c, true, n));
    }
}

/// The best move of a lost race leaves the opponent the longest way.
#[verifier::spinoff_prover]
proof fn lemma_best_of_a_lost_race(p: game::Position, tbl: Seq<i16>, k: int, v: int)
    requires
        9 <= p.p0 < 81,
        0 <= p.p1 < 72,
        p.turn == 0 || p.turn == 1,
        race_table::solves(p.w, tbl),
        race_root::best_upto(p, tbl, game::pawn_moves(p).len() as int, k),
        race_table::race_value_is(p.w, race_cache::state_of(p), v),
        v < 0,
    ensures
        ({
            let m = game::pawn_moves(p)[k] as int;
            &&& !board::is_goal(p.turn, m)
            &&& tbl[race_table::child_index(race_cache::state_of(p), m)] == -v - 1
        }),
{
    let ms = game::pawn_moves(p);
    let i = race_cache::state_of(p);
    race_table::lemma_state_index(p.p0, p.p1, p.turn);
    assert(race_table::race_moves(p.w, i) == ms);
    lemma_lost_child(p, tbl, k, v);
    let uk = tbl[race_table::child_index(i, ms[k] as int)] as int;
    if uk < -v - 1 {
        assert forall|j: int| 0 <= j < ms.len() implies !board::is_goal(p.turn, #[trigger] ms[j] as int)
            && race_table::decided_within(
            p.w,
            race_table::child_index(i, ms[j] as int),
            true,
            (-v - 2) as nat,
        ) by {
            lemma_lost_child(p, tbl, j, v);
            let c = race_table::child_index(i, ms[j] as int);
            let u = tbl[c] as int;
            lemma_no_slower(p, tbl, k, j);
            race_table::lemma_decided_grows(p.w, c, true, u as nat, (-v - 2) as nat);
        }
        assert(race_table::decided_within(p.w, i, false, (-v - 1) as nat));
    }
}

/// Where the best move loses, no other leaves the opponent a longer way.
proof fn lemma_no_slower(p: game::Position, tbl: Seq<i16>, k: int, j: int)
    requires
        p.turn == 0 || p.turn == 1,
        race_table::turn_at(race_cache::state_of(p)) == p.turn,
        race_root::best_upto(p, tbl, game::pawn_moves(p).len() as int, k),
        0 <= j < game::pawn_moves(p).len(),
        !board::is_goal(p.turn, game::pawn_moves(p)[k] as int),
        !board::is_goal(p.turn, game::pawn_moves(p)[j] as int),
        tbl[race_table::child_index(race_cache::state_of(p), game::pawn_moves(p)[k] as int)] > 0,
        tbl[race_table::child_index(race_cache::state_of(p), game::pawn_moves(p)[j] as int)] > 0,
    ensures
        tbl[race_table::child_index(race_cache::state_of(p), game::pawn_moves(p)[j] as int)]
            <= tbl[race_table::child_index(
            race_cache::state_of(p),
            game::pawn_moves(p)[k] as int,
        )],
{
    assert(race_root::has_value(p, tbl, j));
    assert(race_root::has_value(p, tbl, k));
}

/// What a solving table holds of the position after a race move.
proof fn lemma_child_value(p: game::Position, tbl: Seq<i16>, k: int)
    requires
        9 <= p.p0 < 81,
        0 <= p.p1 < 72,
        p.turn == 0 || p.turn == 1,
        race_table::solves(p.w, tbl),
        0 <= k < game::pawn_moves(p).len(),
    ensures
        ({
            let m = game::pawn_moves(p)[k] as int;
            let c = race_table::child_index(race_cache::state_of(p), m);
            &&& 0 <= m < 81
            &&& c == race_cache::state_of(game::played(p, m))
            &&& race_table::turn_at(race_cache::state_of(p)) == p.turn
            &&& -13_122 <= tbl[c] <= 13_122
            &&& !board::is_goal(p.turn, m) ==> race_table::race_value_is(p.w, c, tbl[c] as int)
        }),
{
    let i = race_cache::state_of(p);
    race_table::lemma_state_index(p.p0, p.p1, p.turn);
    assert(race_table::race_moves(p.w, i) == game::pawn_moves(p));
    race_table::lemma_race_moves_on_board(p.w, i, k);
    let m = game::pawn_moves(p)[k] as int;
    let c = race_table::child_index(i, m);
    if p.turn == 0 {
        race_table::lemma_state_index(m, p.p1, 1);
    } else {
        race_table::lemma_state_index(p.p0, m, 0);
    }
    assert(race_table::value_is(p.w, c, tbl[c] as int));
    if !board::is_goal(p.turn, m) {
        race_table::lemma_child_is_live(i, m);
    }
}

/// After every move of a lost race the opponent wins, in fewer plies.
proof fn lemma_lost_child(p: game::Position, tbl: Seq<i16>, k: int, v: int)
    requires
        9 <= p.p0 < 81,
        0 <= p.p1 < 72,
        p.turn == 0 || p.turn == 1,
        race_table::solves(p.w, tbl),
        0 <= k < game::pawn_moves(p).len(),
        race_table::race_value_is(p.w, race_cache::state_of(p), v),
        v < 0,
    ensures
        ({
            let m = game::pawn_moves(p)[k] as int;
            let c = race_table::child_index(race_cache::state_of(p), m);
            &&& !board::is_goal(p.turn, m)
            &&& 0 < tbl[c] <= -v - 1
            &&& race_table::race_value_is(p.w, c, tbl[c] as int)
        }),
{
    let i = race_cache::state_of(p);
    let ms = game::pawn_moves(p);
    race_table::lemma_state_index(p.p0, p.p1, p.turn);
    assert(race_table::race_moves(p.w, i) == ms);
    lemma_child_value(p, tbl, k);
    let c = race_table::child_index(i, ms[k] as int);
    assert(race_table::decided_within(p.w, i, false, (-v) as nat));
    assert(!board::is_goal(p.turn, ms[k] as int));
    assert(race_table::decided_within(p.w, c, true, (-v - 1) as nat));
    let u = tbl[c] as int;
    if u < 0 {
        race_table::law_race_outcome_is_unique(p.w, c, (-v - 1) as nat, (-u) as nat);
    } else if u > -v - 1 {
        race_table::lemma_decided_grows(p.w, c, true, (-v - 1) as nat, (u - 1) as nat);
    }
}

/// An estimate may be off by a ply either way, so one candidate is surely better only where the
/// estimates lie more than two plies apart: the sooner win, the later loss.
pub proof fn law_estimates(c: RaceRootCandidate, peer: RaceRootCandidate, a: u16, b: u16)
    requires
        c.mv != peer.mv,
        c.approximate_plies == Some(a),
        peer.approximate_plies == Some(b),
        0 < a < 60_000,
        0 < b < 60_000,
    ensures
        c.root_wins ==> (race_root::beats_peer(c, peer) <==> b - a > 2),
        !c.root_wins ==> (race_root::beats_peer(c, peer) <==> a - b > 2),
{
}

/// A move without an estimate is never surely better.
pub proof fn law_no_estimate(c: RaceRootCandidate, peers: Seq<RaceRootCandidate>)
    requires
        c.approximate_plies is None,
    ensures
        !race_root::definitely_best(c, peers),
{
}

/// A corridor cuts at beta for the side to move and at alpha against it, and only where a proven
/// race reaches over that end of the window.
pub proof fn law_corridor_cut<H: SearchHost>(
    before: TitaniumSearch,
    after: TitaniumSearch,
    alpha: i32,
    beta: i32,
    v: i32,
)
    requires
        search::corridor_follows::<H>(before, after, alpha, beta, Some(v)),
    ensures
        before.prover.race_proof,
        before.cfg.wall_ignore_cert == Some(true),
        before.g@.wl0 + before.g@.wl1 != 0,
        (v == beta && beta <= 36_877) || (v == alpha && alpha >= -36_877),
{
}

/// A verdict that the tables at hand decide is owed.
pub proof fn law_verdicts_are_owed(s: RaceProver, p: game::Position, x: int)
    requires
        s.race_proof,
        forall|w: board::Topo| #[trigger] s.cache.cached(w),
        race::pure_winner_is(p, 0) || race::pure_winner_is(p, 1),
        p.turn == 0 || p.turn == 1,
        race::holder_verdict(p, x),
    ensures
        race::holder_owed(s, p, x),
{
}

/// A proven score encodes its plies, whoever it is for; an ordinary one encodes none.
pub proof fn law_plies_of_scores(n: int, ordinary: int)
    requires
        0 <= n < 1000,
        -30_000 < ordinary < 30_000,
    ensures
        score::dtm(100_000 - n) == Some(n),
        score::dtm(n - 100_000) == Some(n),
        score::dtm(50_000 - n) == Some(n),
        score::dtm(n - 50_000) == Some(n),
        score::dtm(ordinary) is None,
        score::info_of_score(50_000 - n).exact_dtm == Some(n as u16),
        score::info_of_score(50_000 - n).outcome == 1,
        score::info_of_score(n - 50_000).exact_dtm == Some(n as u16),
        score::info_of_score(n - 50_000).outcome == -1,
        score::info_of_score(ordinary).outcome == 0,
        score::info_of_score(ordinary).exact_dtm is None,
{
}

/// A key shown for a defence is greater for the better one: not losing ground counts most, then
/// the opponent's distance, then the own; a sooner win has the greater key, and any win a greater
/// one than any loss.
pub proof fn law_shown_keys(worse: bool, own: int, opp: int, n: int)
    requires
        0 <= own < 99,
        0 <= opp < 99,
        0 <= n < 999,
    ensures
        root_select::selection_key(-99_999, 0, false, own, opp) > root_select::selection_key(
            -99_999,
            0,
            true,
            opp,
            own,
        ),
        root_select::selection_key(-99_999, 0, worse, own, opp + 1) > root_select::selection_key(
            -99_999,
            0,
            worse,
            0,
            opp,
        ),
        root_select::selection_key(-99_999, 0, worse, own, opp) > root_select::selection_key(
            -99_999,
            0,
            worse,
            own + 1,
            opp,
        ),
        root_select::selection_key(100_000 - n, 0, worse, own, opp) > root_select::selection_key(
            100_000 - n - 1,
            0,
            worse,
            own,
            opp,
        ),
        root_select::selection_key(100_000 - n, 0, worse, own, opp) > root_select::selection_key(
            -99_999,
            0,
            worse,
            own,
            opp,
        ),
{
}

// Pruning.

/// Reverse futility asks for so much a ply: a hundred where it is the adaptive kind, otherwise
/// seventy or, where the evaluation is not improving, ninety; up to the fourth ply, or as far as
/// the adaptive kind reaches.
pub proof fn law_margins(depth: int, beta: int, above: int, improving: bool, max_depth: int)
    requires
        1 <= depth,
        -2000 < beta < 2000,
        0 <= above,
        max_depth != 4,
    ensures
        pruning::futile(depth, beta - 1, beta, beta + above, improving, true, max_depth) <==> depth
            <= max_depth && above >= 100 * depth,
        pruning::futile(depth, beta - 1, beta, beta + above, true, false, max_depth) <==> depth <= 4
            && above >= 70 * depth,
        pruning::futile(depth, beta - 1, beta, beta + above, false, false, max_depth) <==> depth <= 4
            && above >= 90 * depth,
{
}

/// A pass cuts where it holds beta, short of a mate.
pub proof fn law_pass_cuts(ns: int, beta: int)
    ensures
        pruning::null_cut(ns, beta) <==> beta <= ns < 99_800,
{
}

/// Root walls are all checked for legality; below the root relevance goes before dead zones, and
/// legality is checked only where neither is on.
pub proof fn law_wall_policies(legal: bool, relevant: bool, dead: bool)
    ensures
        movegen::policy_of(legal, true, dead) == WallPolicy::Relevant,
        movegen::policy_of(legal, false, true) == WallPolicy::DeadZone,
        movegen::policy_of(true, false, false) == WallPolicy::Legal,
        movegen::policy_of(false, false, false) == WallPolicy::Lazy,
{
}

// Learning and evaluation.

/// Teaching moves the bias of its own side and wall structure towards the result, and no other.
pub proof fn law_teaching_is_local(
    before: History,
    after: History,
    bucket: int,
    side: int,
    best: int,
    ev: int,
    depth: int,
    other: int,
)
    requires
        before.wf(),
        history::taught(before, after, bucket, side, best, ev, depth),
        0 <= bucket < 16_384,
        0 <= other < 16_384,
        side == 0 || side == 1,
        -2000 < best < 2000,
        -2000 < ev < 2000,
        0 <= depth <= 1000,
    ensures
        after.corr0@.len() == before.corr0@.len(),
        side == 0 ==> after.corr1@ == before.corr1@,
        side == 1 ==> after.corr0@ == before.corr0@,
        other != bucket ==> after.corr0@[other] == before.corr0@[other] && after.corr1@[other]
            == before.corr1@[other],
        best >= ev ==> after.bias(side, bucket) >= before.bias(side, bucket),
        best <= ev ==> after.bias(side, bucket) <= before.bias(side, bucket),
        after.bias(1 - side, bucket) == before.bias(1 - side, bucket),
        before.bias(0, bucket) == before.corr0@[bucket],
        before.bias(1, bucket) == before.corr1@[bucket],
        after.killers == before.killers,
        after.history_tbl == before.history_tbl,
{
    laws_play::law_bias_follows_the_search(before.bias(side, bucket), best, ev, depth);
}

/// Learned credit of a wall is its own and half that of the reply, however the two add up.
pub proof fn law_learned_credit(
    h: History,
    dist: Seq<u8>,
    stm: int,
    ply: int,
    m: int,
    prev: int,
)
    requires
        h.wf(),
        0 <= stm <= 1,
        0 <= ply < 64,
        81 <= m < 209,
        0 <= prev < 256,
        h.killers@[ply].0 != m,
        h.killers@[ply].1 != m,
    ensures
        ({
            let s = ordering::move_score(h, dist, stm, ply, m, 0, 0, prev, None);
            let own = h.hist_of(stm, m);
            let reply = h.reply_of(prev, m);
            &&& -1 <= 2 * (s - own) - reply <= 1
            &&& reply % 2 == 0 ==> 2 * (s - own) == reply
        }),
{
    assert(0 <= prev * 256 + m < 65_536);
}

/// Certificates at leaves alone are asked for with both hands empty; otherwise the side to move
/// has at most two walls; and never where it is more than a step behind.
pub proof fn law_certificates_open(s: TitaniumSearch, depth: int, raw: int)
    requires
        search::certificate_may_open(s, depth, raw),
        s.g@.turn == 0 || s.g@.turn == 1,
    ensures
        s.prover.race_proof,
        s.cfg.cert_eval_leaves_only ==> s.g@.wl0 == 0 && s.g@.wl1 == 0 && depth <= 0,
        !s.cfg.cert_eval_leaves_only && s.g@.turn == 0 ==> s.g@.wl0 <= 2,
        !s.cfg.cert_eval_leaves_only && s.g@.turn == 1 ==> s.g@.wl1 <= 2,
        s.g@.turn == 0 ==> board::goal_distance(s.g@.w, 0, s.g@.p0) <= board::goal_distance(
            s.g@.w,
            1,
            s.g@.p1,
        ) + 1,
        s.g@.turn == 1 ==> board::goal_distance(s.g@.w, 1, s.g@.p1) <= board::goal_distance(
            s.g@.w,
            0,
            s.g@.p0,
        ) + 1,
{
}

/// A cached evaluation is of the same keys and hands.
pub proof fn law_cached_evaluations_are_apart(p: game::Position, q: game::Position)
    requires
        0 <= p.wl0 <= 200,
        0 <= p.wl1 <= 200,
        0 <= q.wl0 <= 200,
        0 <= q.wl1 <= 200,
        eval::hand_tag(p) == eval::hand_tag(q),
        eval::key_word(p) == eval::key_word(q),
    ensures
        p.wl0 == q.wl0,
        p.wl1 == q.wl1,
        p.hash_lo == q.hash_lo,
        p.hash_hi == q.hash_hi,
        0 <= eval::key_word(p) <= u64::MAX,
{
}

/// An attempt that asks for no effort gets the default, any other its own.
pub proof fn law_effort(budget: int)
    requires
        budget > 0,
    ensures
        eval::effort(budget) == budget,
        eval::effort(0) == 2500,
{
}

/// A slot that holds nothing takes whatever is offered.
pub proof fn law_empty_slots_are_filled(old_gen: u8, new_meta: int, gen: u8, pure_mode: bool)
    ensures
        tt::replaces(0, old_gen, new_meta, gen, pure_mode),
{
}

// Clocks.

/// The plan of a long game is made of straight pieces between these points.
pub proof fn law_long_game_points(ply: int)
    requires
        0 <= ply,
    ensures
        time_alloc::long_game(0) == 3850,
        time_alloc::long_game(20) == 2850,
        time_alloc::long_game(40) == 1850,
        time_alloc::long_game(50) == 1400,
        time_alloc::long_game(60) == 1100,
        time_alloc::long_game(70) == 900,
        time_alloc::long_game(80) == 500,
        ply / 10 == (ply + 1) / 10 ==> 2 * time_alloc::long_game(ply + 1) == time_alloc::long_game(
            ply,
        ) + time_alloc::long_game(ply + 2),
{
}

/// The costs of iterations are the times between their ends, and add up to the time at the end
/// of the last.
pub proof fn law_iteration_costs(log: Seq<timing::AceDepthLogEntry>)
    requires
        log.len() >= 2,
        log[log.len() - 2].elapsed_ms <= log[log.len() - 1].elapsed_ms,
        log.len() >= 3 ==> log[log.len() - 3].elapsed_ms <= log[log.len() - 2].elapsed_ms,
    ensures
        timing::iter_cost(log, 0) + log[log.len() - 2].elapsed_ms == log[log.len() - 1].elapsed_ms,
        log.len() >= 3 ==> timing::iter_cost(log, 1) + log[log.len() - 3].elapsed_ms
            == log[log.len() - 2].elapsed_ms,
        log.len() == 2 ==> timing::iter_cost(log, 0) + timing::iter_cost(log, 1)
            == log[1].elapsed_ms,
{
}

/// A share in basis points is that part of the whole, rounded to the nearest.
pub proof fn law_shares(soft: int, hard: int)
    requires
        0 <= soft,
        0 < hard,
    ensures
        2 * hard * timing::share_bp(soft, hard) <= 20_000 * soft + hard,
        20_000 * soft + hard < 2 * hard * (timing::share_bp(soft, hard) + 1),
{
    let a = soft * 20_000 + hard;
    let b = 2 * hard;
    let q = a / b;
    assert(b * q <= a && a < b * (q + 1)) by (nonlinear_arith)
        requires
            q == a / b,
            0 < b,
            0 <= a,
    ;
}

// Answers.

/// A book's move is the answer; without one the answer is found, and the book's order is kept
/// either way.
pub proof fn law_book_answers<H: SearchHost>(
    s: TitaniumSearch,
    after: TitaniumSearch,
    time_ms: u64,
    max_depth: int,
    full: bool,
    r: ThinkResult,
)
    requires
        think::advice_taken::<H>(s, after, time_ms, max_depth, full, r),
    ensures
        r.stop_reason@ == "opening-book"@ ==> exists|m: i16| #[trigger]
            think::book_says::<H>(s.g@, Some(m), after.book_order@, after.book_attention@) && r.mv == m,
        r.stop_reason@ != "opening-book"@ ==> think::book_says::<H>(
            s.g@,
            None,
            after.book_order@,
            after.book_attention@,
        ),
        r.stop_reason@ != "opening-book"@ && think::legal_moves(s.g@).len() > 0
            ==> think::legal_moves(s.g@).contains(r.mv),
{
    let (direct, order, attention) = choose|
        direct: Option<i16>,
        order: Seq<i16>,
        attention: Seq<i32>,
    | #[trigger]
        think::book_says::<H>(s.g@, direct, order, attention) && after.book_order@ == order
            && after.book_attention@ == attention && match direct {
            Some(m) => r.mv == m && r.stop_reason@ == "opening-book"@,
            None => r.stop_reason@ != "opening-book"@ && think::answers_unadvised::<H>(
                s,
                after,
                time_ms,
                max_depth,
                full,
                r,
            ),
        };
    assert(think::book_says::<H>(s.g@, direct, order, attention));
}

/// An answer that a race gave is a pawn move of a game without walls in hand; a race with a step
/// home in reach is answered by taking it.
pub proof fn law_race_answers<H: SearchHost>(
    s: TitaniumSearch,
    after: TitaniumSearch,
    time_ms: u64,
    max_depth: int,
    full: bool,
    r: ThinkResult,
)
    requires
        think::answers_unadvised::<H>(s, after, time_ms, max_depth, full, r),
    ensures
        think::is_race_reason(r.stop_reason@) ==> s.g@.wl0 == 0 && s.g@.wl1 == 0
            && game::pawn_moves(s.g@).contains(r.mv) && r.depth == 99,
        s.cfg.cheap_cert && s.g@.wl0 == 0 && s.g@.wl1 == 0 && s.g@.p0 >= 9 && s.g@.p1 < 72 && (
        exists|k: int|
            0 <= k < game::pawn_moves(s.g@).len() && board::is_goal(
                s.g@.turn,
                #[trigger] game::pawn_moves(s.g@)[k] as int,
            )) ==> board::is_goal(s.g@.turn, r.mv as int) && r.score == 49_999,
        think::is_race_reason(r.stop_reason@) && s.rp_root_solves < u64::MAX ==> after.rp_root_solves
            == s.rp_root_solves + 1,
        !think::is_race_reason(r.stop_reason@) ==> after.rp_root_solves == s.rp_root_solves,
{
}

/// The last finished depth is the answer of deepening, unless a depth that time cut short gave
/// one; and with nothing finished there is none.
pub proof fn law_last_depth_answers<H: SearchHost>(
    before: TitaniumSearch,
    after: TitaniumSearch,
    time_ms: int,
    t0: u64,
    max_depth: int,
    full: bool,
    r: Deepened,
)
    requires
        think::deepened::<H>(before, after, time_ms, t0, max_depth, full, r),
        !r.state.partial_iter_used,
    ensures
        r.log@.len() > 0 ==> r.log@.last().score == r.state.last_score && r.log@.last().depth
            == r.state.last_depth,
        r.log@.len() > 0 && 0 <= r.state.last_best < 209 ==> r.log@.last().pv@
            == moves::algebraic(r.state.last_best as int),
        r.log@.len() == 0 ==> r.state.last_best == -1,
{
}

/// A depth is searched without extensions where they are off, and with the configured number
/// where they are on.
pub proof fn law_extensions(c: SearchConfig)
    ensures
        !c.q_search ==> think::root_extensions(c) == 0,
        c.q_search ==> think::root_extensions(c) == c.q_max,
{
}

/// With walls left and certificates for leaves alone, nothing is said of the opponent.
pub proof fn law_silence_of_leaves<H: SearchHost>(
    time_ms: u64,
    q: game::Position,
    before: eval::CertMemo,
    after: eval::CertMemo,
    answer: Option<bool>,
)
    requires
        think::opponent_judged::<H>(time_ms, q, true, before, after, answer),
        q.wl0 != 0 || q.wl1 != 0,
    ensures
        answer is None,
        after == before,
{
}

/// A capital is thirty-two places before its letter.
proof fn lemma_lower(c: char)
    ensures
        'A' <= c && c <= 'Z' ==> hygiene::lower(c) as int == c as int + 32,
        !('A' <= c && c <= 'Z') ==> hygiene::lower(c) == c,
{
    if 'A' <= c && c <= 'Z' {
        assert((c as u8) as int == c as int);
    }
}

/// A switch is on for a one, and for the word in either case.
pub proof fn law_switches(t: Seq<char>)
    ensures
        race::switch_on(t) <==> t == "1"@ || hygiene::lowered(t) == "true"@,
{
    reveal_strlit("true");
    reveal_strlit("1");
    let l = hygiene::lowered(t);
    let w = "true"@;
    assert(l.len() == t.len());
    assert(w.len() == 4);
    assert(w[0] == 't' && w[1] == 'r' && w[2] == 'u' && w[3] == 'e');
    if t.len() == 4 {
        assert(l[0] == hygiene::lower(t[0]));
        assert(l[1] == hygiene::lower(t[1]));
        assert(l[2] == hygiene::lower(t[2]));
        assert(l[3] == hygiene::lower(t[3]));
        lemma_lower(t[0]);
        lemma_lower(t[1]);
        lemma_lower(t[2]);
        lemma_lower(t[3]);
        if race::switch_on(t) {
            assert(l =~= w);
        }
        if l == w {
            assert(l[0] == 't' && l[1] == 'r' && l[2] == 'u' && l[3] == 'e');
        }
    }
}

// Small print of nodes.

/// A race layer kept to open windows is not asked in one a point wide.
pub proof fn law_layers_in_open_windows(alpha: i32, beta: i32)
    requires
        alpha < beta,
    ensures
        search::layer_asked(false, alpha, beta),
        search::layer_asked(true, alpha, beta) <==> beta - alpha > 1,
{
}

/// A jump pays where it leaves its pawn two steps nearer, or home.
pub proof fn law_jumps_pay(p: game::Position, f: Seq<u8>, i: int)
    requires
        0 <= i < game::pawn_moves(p).len(),
        p.turn == 0 || p.turn == 1,
    ensures
        ({
            let at = f[if p.turn == 0 {
                p.p0
            } else {
                p.p1
            }];
            let to = f[game::pawn_moves(p)[i] as int];
            &&& to + 2 <= at ==> search::jump_gains(p, f)
            &&& to == 0 ==> search::jump_gains(p, f)
        }),
        search::jump_gains(p, f) ==> exists|k: int|
            0 <= k < game::pawn_moves(p).len() && (f[(#[trigger] game::pawn_moves(p)[k]) as int] == 0
                || f[game::pawn_moves(p)[k] as int] + 2 <= f[if p.turn == 0 {
                p.p0
            } else {
                p.p1
            }]),
{
    let m = game::pawn_moves(p)[i];
    assert(f[m as int] >= 0);
    if search::jump_gains(p, f) {
        let k = choose|k: int|
            0 <= k < game::pawn_moves(p).len() && f[(#[trigger] game::pawn_moves(p)[k]) as int]
                <= num::larger(f[game::pawn_of(p, p.turn)] - 2, 0);
        assert(f[game::pawn_moves(p)[k] as int] == 0 || f[game::pawn_moves(p)[k] as int] + 2
            <= f[game::pawn_of(p, p.turn)]);
    }
}

/// A wall that does not matter leaves both pawns as far from home as without it.
pub proof fn law_walls_that_do_not_matter(p: game::Position, m: int, n: nat)
    requires
        !search::wall_matters(p, m),
    ensures
        board::goal_within(p.w, 0, p.p0, n) == board::goal_within(
            game::without_wall(p.w, m),
            0,
            p.p0,
            n,
        ),
        board::goal_within(p.w, 1, p.p1, n) == board::goal_within(
            game::without_wall(p.w, m),
            1,
            p.p1,
            n,
        ),
{
}

/// A late pawn move is asked about with the steps it saves its own player.
pub proof fn law_steps_saved(p: game::Position, c: search::ChildCall)
    requires
        c.mover == 0 || c.mover == 1,
        0 <= c.pre0 <= 255,
        0 <= c.pre1 <= 255,
    ensures
        c.mover == 0 ==> search::pawn_query(p, c).self_gain + routes::field_of(
            p.w,
            0,
        )[c.m as int] == c.pre0,
        c.mover == 1 ==> search::pawn_query(p, c).self_gain + routes::field_of(
            p.w,
            1,
        )[c.m as int] == c.pre1,
        search::pawn_query(p, c).mv == c.m,
        search::pawn_query(p, c).depth == c.depth,
{
}

/// A late pawn move loses the plies it is told to, as long as it has them.
pub proof fn law_late_pawn_moves(c: search::ChildCall, r: i32)
    requires
        1 <= c.depth <= 1000,
        0 <= r <= 1000,
    ensures
        r < c.depth ==> search::pawn_reduced(c, Some(r)).depth == Some((c.depth - 1 - r) as i32),
        r >= c.depth ==> search::pawn_reduced(c, Some(r)).depth == Some(0i32),
        search::pawn_reduced(c, None).depth is None,
{
}

/// A node cut off at the end of its line leans on everything above it, a repetition on the ply
/// it repeats, and a finished game on nothing.
pub proof fn law_entries_lean(
    p: game::Position,
    path: Seq<(u32, u32)>,
    ply: int,
    w: pruning::RepWindow,
)
    requires
        search::entry_window(p, path, ply, w),
        0 <= ply < 64,
    ensures
        search::mover_is_home(p) ==> !pruning::leans_outside(w, ply),
        !search::mover_is_home(p) && ply == 63 ==> pruning::leans_outside(w, 0),
        !search::mover_is_home(p) && 0 < ply < 63 && (exists|i: int|
            0 <= i < ply && #[trigger] path[i] == (p.hash_lo, p.hash_hi)) ==> pruning::leans_outside(
            w,
            ply,
        ) && !pruning::leans_outside(w, 0),
{
}

/// Statistics are read for the side that moves.
pub proof fn law_statistics_by_side(h: History, m: int)
    ensures
        h.sf_history ==> h.hist_of(0, m) == h.hist_sf0@[m] && h.hist_of(1, m) == h.hist_sf1@[m],
        !h.sf_history ==> h.hist_of(0, m) == h.hist_of(1, m) && h.hist_of(0, m) == h.history_tbl@[m],
{
}

/// A wall touches a marked cell that it keeps apart from another.
pub proof fn law_touched_masks(t: int, r: int, c: int, a: int, b: int, mask: Seq<u8>)
    requires
        t == 0 || t == 1,
        0 <= r < 8,
        0 <= c < 8,
        laws_rules::wall_between(t, r, c, a, b),
        mask.len() == 81,
        mask[a] != 0,
    ensures
        moves::wall_touches(r, c, mask),
{
    assert((r + 1) * 9 == r * 9 + 9);
}

/// A failed attempt is remembered with the work it took, where that was counted.
pub proof fn law_failed_work(budget: int, nodes: int)
    requires
        0 < nodes <= i32::MAX,
        0 < budget <= i32::MAX,
    ensures
        eval::memo_entry(None, budget, false, nodes) == -nodes,
        eval::memo_entry(None, budget, false, 0) == -budget,
        eval::memo_entry(None, budget, true, nodes) == 1,
{
}

/// An arrival is a candidate that wins in one, exactly.
pub proof fn law_arrivals_are_exact(mv: i16, bound: RaceBound, estimate: Option<u16>)
    ensures
        race_root::candidate_of(mv, true, bound, estimate) == Some(
            RaceRootCandidate {
                mv,
                root_wins: true,
                approximate_plies: Some(1),
                exact_dtm: Some(1),
            },
        ),
        race_root::candidate_of(mv, false, bound, estimate) matches Some(c) ==> c.exact_dtm is None
            && c.mv == mv,
        race_root::candidate_of(mv, false, RaceBound::Unknown, estimate) is None,
{
}

/// The hottest move is as hot as any, and the hottest wall as any wall.
pub proof fn law_hottest(base: Seq<i32>, touch: Seq<bool>, ms: Seq<i16>, n: int, i: int)
    requires
        0 <= i < n <= ms.len(),
    ensures
        ordering::heat_of(base, touch, ms[i] as int) <= ordering::hottest(base, touch, ms, false, n),
        81 <= ms[i] < 209 ==> ordering::heat_of(base, touch, ms[i] as int) <= ordering::hottest(
            base,
            touch,
            ms,
            true,
            n,
        ),
        ordering::hottest(base, touch, ms, true, n) <= ordering::hottest(base, touch, ms, false, n),
    decreases n,
{
    lemma_hottest_order(base, touch, ms, n);
    if i < n - 1 {
        law_hottest(base, touch, ms, n - 1, i);
    }
}

proof fn lemma_hottest_order(base: Seq<i32>, touch: Seq<bool>, ms: Seq<i16>, n: int)
    requires
        0 <= n <= ms.len(),
    ensures
        0 <= ordering::hottest(base, touch, ms, true, n) <= ordering::hottest(
            base,
            touch,
            ms,
            false,
            n,
        ),
    decreases n,
{
    if n > 0 {
        lemma_hottest_order(base, touch, ms, n - 1);
    }
}

/// A wall that touches a route is twenty degrees hotter; a pawn move never is.
pub proof fn law_touching_walls_are_hotter(base: Seq<i32>, touch: Seq<bool>, m: int)
    requires
        0 <= m < 209,
        base.len() == 256,
        touch.len() == 256,
        -1_000_000_000 <= base[m] <= 1_000_000_000,
    ensures
        m >= 81 && touch[m] ==> ordering::heat_of(base, touch, m) == base[m] + 20,
        m >= 81 && !touch[m] ==> ordering::heat_of(base, touch, m) == base[m],
        m < 81 ==> ordering::heat_of(base, touch, m) == base[m],
{
}

/// With proofs on, deductions off and both hands empty, a decided race at the root is solved with
/// its own value and by its best move; with neither on nothing is.
pub proof fn law_root_races_are_solved<H: SearchHost>(
    p: game::Position,
    proofs: bool,
    sol: Option<(race_root::RaceRootSolution, bool)>,
    v: int,
)
    requires
        think::solution_found::<H>(p, false, proofs, sol),
        p.wl0 == 0,
        p.wl1 == 0,
        p.p0 >= 9,
        p.p1 < 72,
        race_table::race_value_is(p.w, race_cache::state_of(p), v),
        -13_122 <= v <= 13_122,
    ensures
        !proofs ==> sol is None,
        v == 0 ==> sol is None,
        proofs && v > 0 ==> (sol matches Some((s, table)) && table && s.score == 50_000 - v && s.exact
            && race_root::is_best_race_move(p, s.mv)),
        proofs && v < 0 ==> (sol matches Some((s, table)) && table && s.score == -50_000 - v && s.exact
            && race_root::is_best_race_move(p, s.mv)),
{
    let (judged, solved) = choose|
        judged: Option<race_root::RaceRootSolution>,
        solved: Option<race_root::RaceRootSolution>,
    | #[trigger]
        think::found_in_turn::<H>(p, false, proofs, judged, solved, sol);
    assert(think::found_in_turn::<H>(p, false, proofs, judged, solved, sol));
    if proofs {
        let u = choose|u: int| #[trigger]
            race_table::race_value_is(p.w, race_cache::state_of(p), u) && match solved {
                Some(s) => u != 0 && s == race_root::exact_solution(
                    s.mv,
                    u,
                    game::pawn_moves(p).len() as int,
                ) && race_root::is_best_race_move(p, s.mv),
                None => u == 0,
            };
        race_table::law_race_value_is_unique(p.w, race_cache::state_of(p), u, v);
    }
}

/// The mover's gain is counted from its own side: own steps saved, opposing steps lost.
pub proof fn law_gains_by_side(p: game::Position, c: search::ChildCall, gain: int, a: int, b: int)
    requires
        search::gains_in_race(p, c, gain),
        board::dist_value(p.w, 0, p.p0, a),
        board::dist_value(p.w, 1, p.p1, b),
        c.mover == 0 || c.mover == 1,
    ensures
        c.mover == 0 ==> gain == (c.pre0 - a) + (b - c.pre1),
        c.mover == 1 ==> gain == (c.pre1 - b) + (a - c.pre0),
{
}

/// An answer reports each pawn's own distance.
pub proof fn law_reported_distances(p: game::Position, r: ThinkResult)
    requires
        think::reports_distances(p, r),
    ensures
        r.white_dist < 255 ==> board::goal_within(p.w, 0, p.p0, r.white_dist as nat),
        r.black_dist < 255 ==> board::goal_within(p.w, 1, p.p1, r.black_dist as nat),
        0 < r.white_dist < 255 ==> !board::goal_within(p.w, 0, p.p0, (r.white_dist - 1) as nat),
        0 < r.black_dist < 255 ==> !board::goal_within(p.w, 1, p.p1, (r.black_dist - 1) as nat),
        r.white_dist == 255 ==> !board::reaches_goal(p.w, 0, p.p0),
        r.black_dist == 255 ==> !board::reaches_goal(p.w, 1, p.p1),
{
}

/// A guessed race is worth fifty for each step of the lead and one for each step to go.
pub proof fn law_guessed_races(d: int, lead: int)
    requires
        0 <= d,
        0 <= lead,
    ensures
        race_root::distance_heuristic(d, d + lead) == 3000 + 50 * lead - d,
        lead > 0 ==> race_root::distance_heuristic(d + lead, d) == -3000 - 50 * lead + d,
{
}

/// An arrival at the root is a win in one, exactly.
pub proof fn law_arrival_at_the_root(
    p: game::Position,
    cs: Seq<RaceRootCandidate>,
    m: i16,
    sol: Option<race_root::RaceRootSolution>,
)
    requires
        race_root::settled_by(p, cs, race_root::RaceRootDecision::Arrive(m), sol),
    ensures
        sol matches Some(s) && s.mv == m && s.score == 49_999 && s.exact && s.info.exact_dtm == Some(
            1u16,
        ),
{
}

/// Only a wall below the root is passed over for sealing a pawn in, and only an illegal one.
pub proof fn law_sealing_walls(p: game::Position, cfg: SearchConfig, ply: int, m: i16)
    requires
        search::seals(p, cfg, ply, m),
    ensures
        81 <= m < 209,
        ply > 0,
        m < 145 ==> !game::wall_is_legal(p, 0, m - 81),
        m >= 145 ==> !game::wall_is_legal(p, 1, m - 145),
{
}

/// An estimate is good to a ply; without one there is nothing to tolerate.
pub proof fn law_tolerance(outcome: i8, plies: Option<u16>)
    ensures
        plies is Some ==> score::approximate_info(outcome, plies).approximation_tolerance == 1,
        plies is None ==> score::approximate_info(outcome, plies).approximation_tolerance == 0,
        score::approximate_info(outcome, plies).outcome == outcome,
        score::approximate_info(outcome, plies).exact_dtm is None,
        score::no_race_info().outcome == 0,
        score::no_race_info().approximation_tolerance == 0,
        score::no_race_info().exact_dtm is None,
        score::no_race_info().approximate_plies is None,
{
}

/// At the root every listed wall is legal, and every legal wall is listed where there is one in
/// hand.
pub proof fn law_root_lists_legal_walls(
    p: game::Position,
    cfg: SearchConfig,
    relevant: Seq<bool>,
    tt_move: int,
    ms: Seq<i16>,
    t: int,
    s: int,
)
    requires
        search::lists_moves(p, cfg, 0, relevant, tt_move, ms),
        game::position_ok(p),
        0 <= t < 2,
        0 <= s < 64,
        p.turn == 0 ==> p.wl0 > 0,
        p.turn == 1 ==> p.wl1 > 0,
    ensures
        ms.contains((if t == 0 {
            81 + s
        } else {
            145 + s
        }) as i16) <==> game::wall_is_legal(p, t, s),
{
    let policy = movegen::policy_of(cfg.ti_movegen, cfg.cat_walls, cfg.dead_zone_prune);
    laws_rules::law_root_generates_the_legal_walls(p, policy, t, s);
    lemma_root_ignores_policy(p, policy, relevant, tt_move);
}

/// What the root generates does not depend on relevance or the table's move.
proof fn lemma_root_ignores_policy(
    p: game::Position,
    policy: WallPolicy,
    relevant: Seq<bool>,
    tt_move: int,
)
    ensures
        movegen::generated(p, true, policy, relevant, tt_move) == movegen::generated(
            p,
            true,
            policy,
            Seq::empty(),
            0,
        ),
{
}

/// What is left over for a long game is an eighth of its plan but for one move, to the nearest.
pub proof fn law_left_over(ply: int)
    requires
        0 <= ply,
    ensures
        -4 <= time_alloc::long_game(ply) - 100 - 8 * time_alloc::leftover(ply) < 4,
{
}

/// The race asks for as many moves as the nearer pawn has steps; a distance that is zero or
/// unknown asks for none.
pub proof fn law_race_asks_for_moves(a: u32, b: u32)
    requires
        0 < a < u32::MAX,
        0 < b < u32::MAX,
        a <= b,
    ensures
        time_alloc::race_floor(Some(a), Some(b)) == a,
        time_alloc::race_floor(Some(b), Some(a)) == a,
        time_alloc::race_floor(Some(a), None) == a,
        time_alloc::race_floor(None, Some(a)) == a,
        time_alloc::race_floor(Some(0u32), Some(a)) == a,
        time_alloc::race_floor(Some(a), Some(0u32)) == a,
        time_alloc::race_floor(Some(u32::MAX), Some(a)) == a,
        time_alloc::race_floor(Some(a), Some(u32::MAX)) == a,
        time_alloc::race_floor(None, None) == 0,
{
}

/// A probe is made wherever it may be: from depth six on, below the root, in a window a point
/// wide, and with an evaluation two hundred above it. So is a pass: from depth three on, below
/// the root, with an evaluation that holds beta.
pub proof fn law_shortcuts_are_tried(depth: int, beta: int, ply: int, ev: int)
    requires
        ply >= 1,
        -2000 < beta < 2000,
    ensures
        depth >= 6 && ev >= beta + 200 ==> pruning::probcut_open(depth, beta - 1, beta, ply, true, ev),
        depth >= 3 && ev >= beta ==> pruning::null_open(depth, ply, true, ev, beta),
        !pruning::probcut_open(depth, beta - 1, beta, 0, true, ev),
        !pruning::null_open(depth, 0, true, ev, beta),
        !pruning::probcut_open(depth, beta - 1, beta, ply, false, ev),
        !pruning::null_open(depth, ply, false, ev, beta),
{
}

/// A reply is remembered by the move it answers; without one there is none.
pub proof fn law_replies_are_read(h: History, prev: int, m: int)
    ensures
        prev >= 0 ==> h.reply_of(prev, m) == h.cont_hist@[prev * 256 + m],
        h.reply_of(-1, m) == 0,
{
}

/// A reply that cut is not lowered, others that were tried are not raised, and replies to other
/// moves stay.
pub proof fn law_replies_are_credited(
    t: Seq<i32>,
    prev: int,
    m: i16,
    bonus: int,
    walls: Seq<i16>,
    other: int,
    k: int,
)
    requires
        history::saturated_table(t, 65_536),
        0 <= prev < 256,
        0 <= other < 256,
        0 <= k < 256,
        81 <= m < 209,
        0 <= bonus <= 1_048_576,
        forall|i: int| 0 <= i < walls.len() ==> 0 <= #[trigger] walls[i] < 256,
    ensures
        ({
            let after = history::replies_credited(t, prev, m, bonus, walls);
            let at = other * 256 + k;
            &&& other != prev ==> after[at] == t[at]
            &&& other == prev && k == m ==> after[at] >= t[at]
            &&& other == prev && k == m && t[at] == 0 ==> after[at] == bonus
            &&& other == prev && k != m ==> after[at] <= t[at]
        }),
{
    let i = prev * 256 + m;
    laws_play::law_bonus_raises(t[i] as int, bonus);
    history::law_gravity_saturates(t[i] as int, bonus);
    let credited = t.update(i, history::gravity(t[i] as int, bonus) as i32);
    assert(history::saturated_table(credited, 65_536));
    lemma_reply_debits(credited, prev, m, bonus, walls, walls.len() as int, other, k);
}

proof fn lemma_reply_debits(
    t: Seq<i32>,
    prev: int,
    m: i16,
    bonus: int,
    walls: Seq<i16>,
    n: int,
    other: int,
    k: int,
)
    requires
        history::saturated_table(t, 65_536),
        0 <= prev < 256,
        0 <= other < 256,
        0 <= k < 256,
        0 <= bonus <= 1_048_576,
        forall|i: int| 0 <= i < walls.len() ==> 0 <= #[trigger] walls[i] < 256,
        0 <= n <= walls.len(),
    ensures
        ({
            let after = history::replies_debited(t, prev, m, bonus, walls, n);
            let at = other * 256 + k;
            &&& history::saturated_table(after, 65_536)
            &&& other != prev || k == m ==> after[at] == t[at]
            &&& after[at] <= t[at]
        }),
    decreases n,
{
    if n > 0 {
        lemma_reply_debits(t, prev, m, bonus, walls, n - 1, other, k);
        let before = history::replies_debited(t, prev, m, bonus, walls, n - 1);
        let pm = walls[n - 1];
        let i = prev * 256 + pm;
        assert(0 <= i < 65_536);
        if pm != m {
            laws_play::law_bonus_raises(before[i] as int, bonus);
            history::law_gravity_saturates(before[i] as int, -bonus);
        }
    }
}

} // verus!

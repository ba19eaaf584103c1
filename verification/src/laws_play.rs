//! What learning, ordering, helpers, sessions and sizes promise: credit goes to what cut, the
//! best comes first, nothing proven is forgotten, and a game told twice is the same game.

use crate::eval;
use crate::eval::{CertMemo, CertOutcome};
use crate::game;
use crate::history;
use crate::history::History;
use crate::host::SearchHost;
use crate::laws_rules;
use crate::lazy_smp;
use crate::lazy_think;
use crate::moves;
use crate::num;
use crate::ordering;
use crate::ponder;
use crate::ponder::{Heard, PonderStep, Pondering, Slice};
use crate::session;
use crate::think::ThinkResult;
use crate::tt;
use crate::tt_sizing;
use vstd::prelude::*;

verus! {

// Learning.

/// A bonus never lowers an entry and a malus never raises one; an empty entry takes the bonus
/// whole, a fuller one the less of it and a full one none; and the two go opposite ways.
pub proof fn law_bonus_raises(h: int, bonus: int)
    requires
        -1_048_576 <= h <= 1_048_576,
        0 <= bonus <= 1_048_576,
    ensures
        h <= history::gravity(h, bonus) <= h + 2 * bonus,
        h - 2 * bonus <= history::gravity(h, -bonus) <= h,
        h >= 0 ==> history::gravity(h, bonus) <= h + bonus,
        h <= 0 ==> history::gravity(h, bonus) >= h + bonus,
        h >= 0 ==> history::gravity(h, -bonus) <= h - bonus,
        h == 1_048_576 ==> history::gravity(h, bonus) == h,
        h == -1_048_576 ==> history::gravity(h, -bonus) == h,
        history::gravity(0, bonus) == bonus,
        history::gravity(0, -bonus) == -bonus,
        history::gravity(-h, -bonus) == -history::gravity(h, bonus),
{
    let m: int = 1_048_576;
    let a = if h < 0 {
        -h
    } else {
        h
    };
    let q = (a * bonus) / m;
    assert(0 <= a * bonus <= m * bonus) by (nonlinear_arith)
        requires
            0 <= a <= m,
            0 <= bonus,
    ;
    assert(0 <= q <= bonus) by (nonlinear_arith)
        requires
            q == (a * bonus) / m,
            0 <= a * bonus <= m * bonus,
            m == 1_048_576,
    ;
    assert(0 * bonus == 0) by (nonlinear_arith);
    assert((-h) * bonus == -(h * bonus)) by (nonlinear_arith);
    assert(a == m ==> q == bonus) by (nonlinear_arith)
        requires
            q == (a * bonus) / m,
            m == 1_048_576,
    ;
}

/// The move that cut is not lowered, other tried moves are not raised, and moves not tried keep
/// what they had.
pub proof fn law_credit_goes_to_the_cut(t: Seq<i32>, m: i16, bonus: int, tried: Seq<i16>, i: int)
    requires
        history::saturated_table(t, 256),
        0 <= m < 256,
        0 <= bonus <= 1_048_576,
        forall|k: int| 0 <= k < tried.len() ==> 0 <= #[trigger] tried[k] < 256,
        0 <= i < 256,
    ensures
        ({
            let after = history::credited(t, m, bonus, tried);
            &&& i == m ==> after[i] >= t[i]
            &&& i == m && t[i] == 0 ==> after[i] == bonus
            &&& i != m ==> after[i] <= t[i]
            &&& i != m && (forall|k: int| 0 <= k < tried.len() ==> #[trigger] tried[k] != i)
                ==> after[i] == t[i]
        }),
{
    law_bonus_raises(t[m as int] as int, bonus);
    history::law_gravity_saturates(t[m as int] as int, bonus);
    let credited = t.update(m as int, history::gravity(t[m as int] as int, bonus) as i32);
    assert(history::saturated_table(credited, 256));
    lemma_debits(credited, m, bonus, tried, tried.len() as int, i);
}

proof fn lemma_debits(t: Seq<i32>, m: i16, bonus: int, tried: Seq<i16>, n: int, i: int)
    requires
        history::saturated_table(t, 256),
        0 <= m < 256,
        0 <= bonus <= 1_048_576,
        forall|k: int| 0 <= k < tried.len() ==> 0 <= #[trigger] tried[k] < 256,
        0 <= i < 256,
        0 <= n <= tried.len(),
    ensures
        ({
            let after = history::debited(t, m, bonus, tried, n);
            &&& history::saturated_table(after, 256)
            &&& i == m ==> after[i] == t[i]
            &&& after[i] <= t[i]
            &&& (forall|k: int| 0 <= k < n ==> #[trigger] tried[k] != i) ==> after[i] == t[i]
        }),
    decreases n,
{
    if n > 0 {
        lemma_debits(t, m, bonus, tried, n - 1, i);
        let before = history::debited(t, m, bonus, tried, n - 1);
        let pm = tried[n - 1];
        if pm != m {
            law_bonus_raises(before[pm as int] as int, bonus);
            history::law_gravity_saturates(before[pm as int] as int, -bonus);
        }
    }
}

/// A cutoff counts by the square of its depth for its own wall alone, or everything is halved.
pub proof fn law_cutoffs_are_counted(t: Seq<i32>, m: int, depth: int, i: int)
    requires
        t.len() == 256,
        forall|k: int| 0 <= k < 256 ==> 0 <= #[trigger] t[k] <= 100_000_000,
        0 <= m < 256,
        0 <= depth <= 1000,
        0 <= i < 256,
    ensures
        ({
            let after = history::counted(t, m, depth);
            &&& after.len() == 256
            &&& t[m] + depth * depth <= 100_000_000 ==> after[m] == t[m] + depth * depth && (i != m
                ==> after[i] == t[i])
            &&& t[m] + depth * depth > 100_000_000 ==> (i != m ==> 2 * after[i] <= t[i] < 2 * (after[i]
                + 1)) && 2 * after[m] <= t[m] + depth * depth
            &&& 0 <= after[i]
        }),
{
    assert(0 <= depth * depth <= 1_000_000) by (nonlinear_arith)
        requires
            0 <= depth <= 1000,
    ;
}

/// The newest killer comes first, the one before it second, and the two differ once two
/// different walls have cut.
pub proof fn law_killers(k: (i16, i16), m: i16, n: i16)
    ensures
        history::killers_after(k, m).0 == m,
        m != n ==> history::killers_after(history::killers_after(k, m), n) == (n, m),
        history::killers_after(history::killers_after(k, m), m) == history::killers_after(k, m),
        k.0 != m ==> history::killers_after(k, m).1 == k.0,
{
}

/// The learned bias moves towards what the search found: up where it found more than the
/// evaluation said, down where it found less, not at all where it agreed; and stays small.
pub proof fn law_bias_follows_the_search(e: int, best: int, ev: int, depth: int)
    requires
        -256 <= e <= 256,
        0 <= depth <= 1000,
        -2000 < best < 2000,
        -2000 < ev < 2000,
    ensures
        -256 <= history::corrected(e, best, ev, depth) <= 256,
        best >= ev ==> history::corrected(e, best, ev, depth) >= e,
        best <= ev ==> history::corrected(e, best, ev, depth) <= e,
        best == ev ==> history::corrected(e, best, ev, depth) == e,
        best - ev >= 64 && e < 256 ==> history::corrected(e, best, ev, depth) > e,
        ev - best >= 64 && e > -256 ==> history::corrected(e, best, ev, depth) < e,
{
    let w = num::smaller(depth + 1, 16);
    let d = best - ev;
    assert(d >= 0 ==> d * w >= 0) by (nonlinear_arith)
        requires
            w >= 1,
    ;
    assert(d <= 0 ==> (-d) * w >= 0) by (nonlinear_arith)
        requires
            w >= 1,
    ;
    assert((-d) * w == -(d * w)) by (nonlinear_arith);
    assert(d >= 64 ==> d * w >= 64) by (nonlinear_arith)
        requires
            w >= 1,
    ;
    assert(-d >= 64 ==> (-d) * w >= 64) by (nonlinear_arith)
        requires
            w >= 1,
    ;
    assert(d == 0 ==> d * w == 0) by (nonlinear_arith);
}

/// Only ordinary results teach, and a bound only where it contradicts: a lower bound above the
/// evaluation, an upper bound below it.
pub proof fn law_what_teaches(best: int, ev: int)
    ensures
        history::teaches(best, ev, 0) <==> -2000 < best < 2000 && -2000 < ev < 2000,
        history::teaches(best, ev, 1) <==> -2000 < best < 2000 && -2000 < ev < 2000 && best > ev,
        history::teaches(best, ev, 2) <==> -2000 < best < 2000 && -2000 < ev < 2000 && best < ev,
{
}

/// Between searches every statistic counts half, rounded towards nothing, and what was learned
/// of replies, killers and evaluations stays.
pub proof fn law_ageing(before: History, after: History, i: int)
    requires
        before.wf(),
        history::aged(before, after),
        0 <= i < 256,
    ensures
        2 * after.history_tbl@[i] <= before.history_tbl@[i] < 2 * (after.history_tbl@[i] + 1),
        before.hist_sf0@[i] >= 0 ==> 2 * after.hist_sf0@[i] <= before.hist_sf0@[i] < 2 * (
        after.hist_sf0@[i] + 1),
        before.hist_sf0@[i] <= 0 ==> 2 * (after.hist_sf0@[i] - 1) < before.hist_sf0@[i] <= 2
            * after.hist_sf0@[i],
        before.hist_sf1@[i] >= 0 ==> 2 * after.hist_sf1@[i] <= before.hist_sf1@[i] < 2 * (
        after.hist_sf1@[i] + 1),
        before.hist_sf1@[i] <= 0 ==> 2 * (after.hist_sf1@[i] - 1) < before.hist_sf1@[i] <= 2
            * after.hist_sf1@[i],
        after.killers == before.killers,
        after.cm == before.cm,
        after.corr0 == before.corr0,
        after.corr1 == before.corr1,
        after.sf_history == before.sf_history,
{
}

// Ordering.

/// Of two places of an ordered list the earlier holds a score no lower: the best comes first.
pub proof fn law_best_comes_first(ms: Seq<i16>, sc: Seq<i32>, out: Seq<i16>, i: int, j: int)
    requires
        ordering::ordered_by(ms, sc, out),
        0 <= i < j < ms.len(),
    ensures
        out.len() == ms.len(),
        exists|a: int, b: int|
            0 <= a < ms.len() && 0 <= b < ms.len() && a != b && ms[a] == out[i] && ms[b] == out[j]
                && #[trigger] sc[a] >= #[trigger] sc[b],
{
    reveal(ordering::ordered_by);
    let perm = choose|perm: Seq<usize>| #[trigger]
        ordering::ranking(sc, perm, ms.len() as int) && out.len() == ms.len() && forall|k: int|
            0 <= k < ms.len() ==> #[trigger] out[k] == ms[perm[k] as int];
    let a = perm[i] as int;
    let b = perm[j] as int;
    assert(ordering::comes_before(sc, a, b));
    assert(out[i] == ms[a] && out[j] == ms[b]);
    assert(sc[a] >= sc[b]);
}

/// The table's move is ordered before every other; among walls the first killer comes before
/// the reply, the reply before the second killer.
pub proof fn law_ordering_of_hints(
    h: History,
    dist: Seq<u8>,
    stm: int,
    ply: int,
    m: int,
    tt_move: int,
    cm_move: int,
    prev: int,
)
    requires
        h.wf(),
        dist.len() == 81,
        0 <= stm <= 1,
        0 <= ply < 64,
        0 <= m < 209,
        -1 <= prev < 256,
        m != tt_move,
        moves::move_id(tt_move),
    ensures
        ordering::move_score(h, dist, stm, ply, m, tt_move, cm_move, prev, None)
            < ordering::move_score(h, dist, stm, ply, tt_move, tt_move, cm_move, prev, None),
        ordering::move_score(h, dist, stm, ply, m, tt_move, cm_move, prev, None) > -536_870_912,
        ({
            let k = h.killers@[ply];
            let first = ordering::move_score(h, dist, stm, ply, k.0 as int, tt_move, cm_move, prev, None);
            let reply = ordering::move_score(h, dist, stm, ply, cm_move, tt_move, cm_move, prev, None);
            let second = ordering::move_score(
                h,
                dist,
                stm,
                ply,
                k.1 as int,
                tt_move,
                cm_move,
                prev,
                None,
            );
            &&& 81 <= k.0 < 209 && 81 <= cm_move < 209 && k.0 != tt_move && cm_move != tt_move && cm_move
                != k.0 ==> first > reply
            &&& 81 <= k.1 < 209 && 81 <= cm_move < 209 && k.1 != tt_move && cm_move != tt_move && k.1
                != k.0 && cm_move != k.1 ==> reply > second
        }),
{
    history::law_tiebreak_stays_inside_a_step(h.hist_of(stm, m));
    let r = h.reply_of(prev, m);
    if prev >= 0 {
        assert(0 <= prev * 256 + m < 65_536);
    }
    assert(-1_048_576 <= r <= 1_048_576);
}

/// A move the book denies comes after every move it does not.
pub proof fn law_denied_moves_come_last(sc: Seq<i32>, denied: Seq<bool>, i: int, j: int)
    requires
        0 <= i < sc.len(),
        0 <= j < sc.len(),
        denied.len() == sc.len(),
        denied[i],
        !denied[j],
        sc[j] > -536_870_912,
    ensures
        ordering::denied_lowered(sc, denied)[i] < ordering::denied_lowered(sc, denied)[j],
        ordering::denied_lowered(sc, denied)[j] == sc[j],
{
}

/// The book's moves come before the table's, and an earlier one of equal weight before a later.
pub proof fn law_book_moves_come_first(boost: int, rank: int)
    requires
        0 <= boost <= 1_000_000,
        0 <= rank < 1000,
    ensures
        ordering::book_score(boost, rank) > 2_000_000_000,
        ordering::book_score(boost, rank) > ordering::book_score(boost, rank + 1),
        ordering::book_score(boost + 1, rank) > ordering::book_score(boost, rank),
{
}

/// A cold wall takes no credit for its heat, a hot one all of it; more heat is never less.
pub proof fn law_heat_counts(heat: int, max_heat: int)
    requires
        0 <= max_heat,
    ensures
        heat <= 0 ==> ordering::heat_score(heat, max_heat) == 0,
        heat > 0 && 10 * heat > max_heat ==> ordering::heat_score(heat, max_heat) == heat,
        heat > 0 && 10 * heat <= max_heat ==> ordering::heat_score(heat, max_heat) == 0,
        ordering::heat_score(heat, max_heat) <= ordering::heat_score(heat + 1, max_heat),
{
}

// Certificates.

/// What is proven stays proven: a known proof answers every later question, whatever the
/// effort; a proof just found is known; and an attempt that failed is known not to be one.
pub proof fn law_proofs_stay<H: SearchHost>(
    before: CertMemo,
    after: CertMemo,
    p: game::Position,
    side: int,
    budget: int,
    deadline_ms: u64,
    r: CertOutcome,
)
    requires
        eval::cert_follows::<H>(before, after, p, side, budget, deadline_ms, r),
        p.wl0 != 0 || p.wl1 != 0,
        eval::hands_ok(p),
        0 <= side <= 1,
        0 <= budget <= i32::MAX,
        before.wf(),
    ensures
        before.known(p, side) == Some(1i32) ==> r.is_proven() && after == before,
        after.known(p, side) == Some(1i32) <==> r.is_proven(),
        after.known(p, side) is Some,
{
    let k = eval::memo_key(p, side) as u128;
}

/// A failure answers an attempt that would not work harder, and no other; nothing known
/// answers nothing.
pub proof fn law_failures_answer_lesser_attempts(work: i32, budget: int)
    requires
        0 < work,
        0 < budget,
    ensures
        eval::memo_verdict(None, budget) is None,
        eval::memo_verdict(Some(1i32), budget) == Some(true),
        budget <= work ==> eval::memo_verdict(Some((-work) as i32), budget) == Some(false),
        budget > work ==> eval::memo_verdict(Some((-work) as i32), budget) is None,
{
}

/// A certificate is tried for only with proofs on, few walls in hand, an open evaluation and a
/// race not lost by more than a step.
pub proof fn law_when_to_certify(
    proofs: bool,
    leaves: bool,
    depth: int,
    raw: int,
    d_me: int,
    d_opp: int,
    w_me: int,
    w_opp: int,
)
    ensures
        eval::cert_gate(proofs, leaves, depth, raw, d_me, d_opp, w_me, w_opp) ==> proofs && d_me
            - d_opp <= 1 && -700 < raw < 700 && (leaves ==> w_me == 0 && w_opp == 0 && depth <= 0) && (
        !leaves ==> w_me <= 2),
        proofs && !leaves && w_me <= 2 && -700 < raw < 700 && d_me <= d_opp + 1 ==> eval::cert_gate(
            proofs,
            leaves,
            depth,
            raw,
            d_me,
            d_opp,
            w_me,
            w_opp,
        ),
{
}

// Helpers.

/// The helper adopted is the deepest of those that count, and of the deepest one that searched
/// most; one that finished no depth, or answers a move that is not the root's, never is.
pub proof fn law_deepest_helper_is_adopted(
    helpers: Seq<(usize, ThinkResult, Vec<usize>)>,
    root: Seq<i16>,
    i: int,
    j: int,
)
    requires
        lazy_think::is_adopted(helpers, root, i),
        0 <= j < helpers.len(),
        helpers[j].1.depth > 0,
        helpers[j].1.mv != -1,
        root.contains(helpers[j].1.mv),
    ensures
        helpers[i].1.depth >= helpers[j].1.depth,
        helpers[i].1.depth == helpers[j].1.depth ==> helpers[i].1.nodes >= helpers[j].1.nodes,
        helpers[i].1.depth > 0,
        root.contains(helpers[i].1.mv),
{
}

/// Nodes add up, short of overflow.
pub proof fn law_nodes_add_up(main: int, nodes: Seq<u64>, n: int)
    requires
        0 <= main <= u64::MAX,
        0 < n <= nodes.len(),
    ensures
        lazy_think::node_sum(main, nodes, 0) == main,
        lazy_think::node_sum(main, nodes, n) >= lazy_think::node_sum(main, nodes, n - 1),
        lazy_think::node_sum(main, nodes, n) <= u64::MAX,
        lazy_think::node_sum(main, nodes, n) < u64::MAX ==> lazy_think::node_sum(main, nodes, n)
            - lazy_think::node_sum(main, nodes, n - 1) == nodes[n - 1],
    decreases n,
{
    if n > 1 {
        law_nodes_add_up(main, nodes, n - 1);
    }
}

/// The hottest move clears every threshold; a cold one clears none but the lowest; and where
/// nothing is hot all moves are kept.
pub proof fn law_hot_moves(heat: int, max_heat: int, pct: int)
    requires
        0 < max_heat <= 10_000_000,
        heat <= max_heat,
        0 < pct <= 100,
    ensures
        lazy_smp::hot_enough(max_heat, max_heat, pct),
        heat <= 0 ==> !lazy_smp::hot_enough(heat, max_heat, pct),
        heat > 0 ==> (lazy_smp::hot_enough(heat, max_heat, pct) <==> 100 * heat >= pct * max_heat),
        lazy_smp::hot_enough(heat, max_heat, pct) ==> lazy_smp::hot_enough(heat + 1, max_heat, pct),
{
    assert(0 < pct * max_heat <= 1_000_000_000) by (nonlinear_arith)
        requires
            0 < max_heat <= 10_000_000,
            0 < pct <= 100,
    ;
    assert(pct * max_heat <= 100 * max_heat) by (nonlinear_arith)
        requires
            0 < max_heat,
            pct <= 100,
    ;
}

/// Workers after the first two are the strictest, the main one the least strict.
pub proof fn law_worker_thresholds(k: int)
    requires
        0 <= k,
    ensures
        0 < lazy_smp::threshold_of(k) < 100,
        lazy_smp::threshold_of(k) <= lazy_smp::threshold_of(k + 1),
        k >= 2 ==> lazy_smp::threshold_of(k) == lazy_smp::threshold_of(2),
        lazy_smp::threshold_of(0) < lazy_smp::threshold_of(1) < lazy_smp::threshold_of(2),
{
}

/// A plan allows at least one move and no more than there are; without a top number all.
pub proof fn law_allowed_moves(p: lazy_smp::WorkerPlan)
    ensures
        p.top_n_override is None ==> lazy_smp::allowed_by(p) == p.root_move_count,
        p.root_move_count > 0 ==> 1 <= lazy_smp::allowed_by(p) <= p.root_move_count,
        p.top_n_override matches Some(n) ==> (0 < n <= p.root_move_count ==> lazy_smp::allowed_by(p)
            == n),
{
}

/// A width in percent is that part of the moves, rounded up, one at least and all at most.
pub proof fn law_widths(count: int, pct: int)
    requires
        0 < count <= 1_000_000,
        0 < pct <= 100,
    ensures
        1 <= lazy_smp::width_count(count, pct) <= count,
        100 * lazy_smp::width_count(count, pct) >= count * pct,
        100 * (lazy_smp::width_count(count, pct) - 1) < count * pct,
{
    assert(0 < count * pct <= 100_000_000) by (nonlinear_arith)
        requires
            0 < count <= 1_000_000,
            0 < pct <= 100,
    ;
    assert(count * pct <= count * 100) by (nonlinear_arith)
        requires
            0 < count,
            pct <= 100,
    ;
}

// Sessions.

/// A game is opened as it should be: both pawns in the middle of each other's last row, eight
/// rows from home, ten walls each, none on the board, and player 0 to move.
pub proof fn law_start_position()
    ensures
        ({
            let p = session::start_position();
            &&& p.turn == 0
            &&& laws_rules::on_last_row(1, p.p0) && p.p0 % 9 == 4
            &&& laws_rules::on_last_row(0, p.p1) && p.p1 % 9 == 4
            &&& p.wl0 == 10 && p.wl1 == 10
            &&& laws_rules::bare(p.w)
            &&& p.hist.len() == 0
            &&& game::winner_of(p) < 0
            &&& game::position_ok(p)
        }),
{
}

/// A session plays a move only while the game goes on, only one that spells a move, and a wall
/// only from a hand that has one onto a free place; and refuses nothing else that it has room
/// for.
pub proof fn law_what_a_session_plays(p: game::Position, t: Seq<char>)
    requires
        game::position_ok(p),
        game::hand_of(p, p.turn) > i32::MIN,
    ensures
        ({
            let m = moves::parsed_move(t);
            let hand = if p.turn == 0 {
                p.wl0
            } else {
                p.wl1
            };
            &&& session::refusal(p, t) is None ==> game::winner_of(p) < 0 && 0 <= m < 209 && (m >= 81
                ==> hand > 0 && (if m < 145 {
                p.w.hw[m - 81] == 0
            } else {
                p.w.vw[m - 145] == 0
            }))
            &&& game::winner_of(p) < 0 && 0 <= m < 81 && p.hist.len() < 900_000_000
                ==> session::refusal(p, t) is None
            &&& game::winner_of(p) >= 0 ==> session::refusal(p, t) is Some
            &&& m == -1 ==> session::refusal(p, t) is Some
        }),
{
}

/// Moves told one after another: what the first part comes to, the rest is played from; a move
/// that is refused ends the telling where it stands.
pub proof fn law_moves_are_played_in_turn(p: game::Position, ms: Seq<Seq<char>>, n: int)
    requires
        0 < n <= ms.len(),
    ensures
        ({
            let (q, why) = session::after_moves(p, ms, n - 1);
            let (r, then) = session::after_moves(p, ms, n);
            &&& why is Some ==> (r, then) == (q, why)
            &&& why is None && session::refusal(q, ms[n - 1]) is None ==> r == game::played(
                q,
                moves::parsed_move(ms[n - 1]),
            ) && then is None
            &&& why is None && session::refusal(q, ms[n - 1]) is Some ==> r == q && then is Some
        }),
        session::after_moves(p, ms, 0) == (p, None::<Seq<char>>),
{
}

/// The answer names the move it means: reading it back gives that move, and no move is said
/// where there is none.
pub proof fn law_answers_name_their_move(m: int)
    requires
        0 <= m < 209,
    ensures
        session::bestmove_text(m).len() == 9 + moves::algebraic(m).len(),
        session::bestmove_text(m).subrange(9, session::bestmove_text(m).len() as int)
            == moves::algebraic(m),
        moves::parsed_move(moves::algebraic(m)) == m,
        session::bestmove_text(m) != session::bestmove_text(-1),
{
    moves::law_algebraic_round_trip(m);
    reveal_strlit("bestmove ");
    reveal_strlit("bestmove (none)");
    let t = session::bestmove_text(m);
    assert(t.subrange(9, t.len() as int) =~= moves::algebraic(m));
    assert(session::bestmove_text(-1).len() == 15);
}

// Pondering.

/// While pondering: a timed request is thought about where the searcher stands, after going
/// back if it stands on a guessed reply; a hit is thought about at once and counts where a
/// reply was guessed; a miss starts from the new game; a stop is answered with the last move.
pub proof fn law_pondering_hears(p: Pondering, ms: u64, lo: u32, hi: u32)
    ensures
        ponder::heard(p, Heard::Nothing) == (p, PonderStep::GoOn),
        p.stands_on is Some ==> ponder::heard(p, Heard::GoTimed(ms)).1
            == PonderStep::ThinkAfterReturn(ms),
        p.stands_on is None ==> ponder::heard(p, Heard::GoTimed(ms)).1 == PonderStep::ThinkHere(ms),
        ponder::heard(p, Heard::PonderHit(ms)).1 == PonderStep::ThinkHere(ms),
        ponder::heard(p, Heard::PonderHit(ms)).0.tel.hit <==> p.tel.predicted != -1,
        ponder::heard(p, Heard::MoveMiss(ms)).1 == PonderStep::ThinkOnNewGame(ms),
        ponder::heard(p, Heard::MoveMiss(ms)).0.tel.hit == p.tel.hit,
        ponder::heard(p, Heard::Stop).1 == PonderStep::Answer(p.last_mv),
        ponder::heard(p, Heard::Quit).1 == PonderStep::Leave,
        ponder::heard(p, Heard::SetGame(lo, hi)).1 == PonderStep::Replace,
        ponder::heard(p, Heard::SetGame(lo, hi)).0.last_mv == -1,
        ponder::heard(p, Heard::SetGame(lo, hi)).0.choosing,
        ponder::heard(p, Heard::SetGame(lo, hi)).0.tel.hit <==> p.tel.hit || p.stands_on == Some((lo, hi)),
{
}

/// Slices add up in the telemetry.
pub proof fn law_slices_add_up(p: Pondering, s: Slice)
    requires
        p.tel.nodes + s.nodes <= u64::MAX,
        p.tel.ms + s.ms <= u64::MAX,
        p.tel.chunks < u32::MAX,
        p.probe_ms + 50 <= u64::MAX,
    ensures
        ponder::sliced(p, s).tel.nodes == p.tel.nodes + s.nodes,
        ponder::sliced(p, s).tel.ms == p.tel.ms + s.ms,
        ponder::sliced(p, s).tel.chunks == p.tel.chunks + 1,
        !p.choosing ==> ponder::chosen(p, s) == -1,
        p.choosing && p.hint != -1 ==> ponder::chosen(p, s) == p.hint,
        p.choosing && p.hint == -1 && p.probe_ms < 350 ==> ponder::chosen(p, s) == -1 && ponder::sliced(
            p,
            s,
        ).probe_ms == p.probe_ms + 50,
        p.choosing && p.hint == -1 && p.probe_ms >= 350 && s.mv != -1 ==> ponder::chosen(p, s) == s.mv,
        p.choosing && p.hint == -1 && p.probe_ms >= 350 && s.mv == -1 ==> ponder::chosen(p, s)
            == p.probe_best,
        ponder::chosen(p, s) != -1 ==> !ponder::sliced(p, s).choosing,
{
}

// Sizes.

/// The tiers of a table: a power of two of entries that fits its cache level, as long as that is
/// within bounds, each tier above the one before; larger caches never give smaller tiers.
pub proof fn law_tiers_fit_their_caches(entry: int, a: int, b: int, c: int)
    requires
        0 < entry,
        0 < a,
        0 < b,
        0 < c,
    ensures
        ({
            let t = tt_sizing::tiers_for(entry, Some((a, b, c)));
            &&& 8 <= t.0 <= 27
            &&& t.0 < t.1 < t.2
            &&& t.0 > 8 ==> vstd::arithmetic::power2::pow2(t.0 as nat) * entry <= a
            &&& t.1 > t.0 + 1 && t.1 > 8 ==> vstd::arithmetic::power2::pow2(t.1 as nat) * entry <= b
            &&& t.2 > t.1 + 1 && t.2 > 8 ==> vstd::arithmetic::power2::pow2(t.2 as nat) * entry <= c
            &&& t.0 < 27 ==> vstd::arithmetic::power2::pow2((t.0 + 1) as nat) * entry > a
        }),
{
    lemma_bits_fit(entry, a);
    lemma_bits_fit(entry, b);
    lemma_bits_fit(entry, c);
}

proof fn lemma_bits_fit(entry: int, bytes: int)
    requires
        0 < entry,
        0 < bytes,
    ensures
        ({
            let t = tt_sizing::bits_for(bytes / entry);
            &&& 8 <= t <= 27
            &&& t > 8 ==> vstd::arithmetic::power2::pow2(t as nat) * entry <= bytes
            &&& t < 27 ==> vstd::arithmetic::power2::pow2((t + 1) as nat) * entry > bytes
        }),
{
    let n = bytes / entry;
    assert(n * entry <= bytes < (n + 1) * entry) by (nonlinear_arith)
        requires
            n == bytes / entry,
            0 < entry,
            0 < bytes,
    ;
    assert(n >= 0) by (nonlinear_arith)
        requires
            n == bytes / entry,
            0 < entry,
            0 < bytes,
    ;
    let t = tt_sizing::bits_for(n);
    vstd::arithmetic::power2::lemma2_to64();
    if n >= 1 {
        tt_sizing::law_log2_is_the_largest_fit(n as nat);
        let l = tt_sizing::log2(n as nat);
        if t > 8 {
            if l > t {
                vstd::arithmetic::power2::lemma_pow2_strictly_increases(t as nat, l);
            }
            let w = vstd::arithmetic::power2::pow2(t as nat) as int;
            assert(w * entry <= n * entry) by (nonlinear_arith)
                requires
                    w <= n,
                    0 < entry,
            ;
        }
        if t < 27 {
            if l < t {
                vstd::arithmetic::power2::lemma_pow2_strictly_increases(l + 1, (t + 1) as nat);
            }
            let w = vstd::arithmetic::power2::pow2((t + 1) as nat) as int;
            assert(w * entry >= (n + 1) * entry) by (nonlinear_arith)
                requires
                    w >= n + 1,
                    0 < entry,
            ;
        }
    } else {
        let w = vstd::arithmetic::power2::pow2(9) as int;
        assert(w * entry >= (n + 1) * entry) by (nonlinear_arith)
            requires
                w >= n + 1,
                0 < entry,
        ;
    }
}

/// A table that grows grows to a larger tier, one step at a time, and never beyond its limit.
pub proof fn law_growing_is_upwards(t: tt::TitaniumTt)
    ensures
        tt::grown_bits(t) <= t.tt_max,
        t.base.bits < t.tt_max ==> tt::grown_bits(t) > t.base.bits,
        t.base.bits < t.tt_l2 <= t.tt_max ==> tt::grown_bits(t) == t.tt_l2,
        t.tt_l2 <= t.base.bits < t.tt_l3 <= t.tt_max ==> tt::grown_bits(t) == t.tt_l3,
{
}

} // verus!

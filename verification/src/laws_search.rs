//! What the parts of a search promise each other: windows that are widened until a score fits,
//! scores that change sign from move to move, cuts that lose nothing, and choices that go the
//! way they are meant to go.

use crate::board;
use crate::eval;
use crate::game;
use crate::history;
use crate::host::SearchHost;
use crate::laws_rules;
use crate::moves;
use crate::ordering;
use crate::pruning;
use crate::pruning::{ChildPlan, PlanSwitches};
use crate::race;
use crate::race_cache;
use crate::race_root;
use crate::root_select;
use crate::root_select::{CleanWinCandidate, RootDefenseDiag};
use crate::root_verify;
use crate::score;
use crate::score::{INF, MATE};
use crate::search;
use crate::search::{ChildCall, TitaniumSearch};
use crate::think;
use crate::think::{Aspiration, AspirationStep, IdState, RootReport, StopReason};
use crate::timing;
use crate::trace;
use crate::trace::{Asked, Call, Step};
use crate::tt;
use crate::tt::SharedTtEntry;
use vstd::prelude::*;

verus! {

// Windows.

/// A search of the root with this request came to `v`, and its score lies inside its window:
/// above the lower end or that end is open, below the upper end or that end is open.
pub open spec fn settled_in_window<H: SearchHost>(k: Call, a: TitaniumSearch, d: int, v: int) -> bool {
    &&& trace::is_result::<H>(k.before, k.after, k.asked, k.value)
    &&& k.after == a
    &&& k.value == v
    &&& k.asked.depth == d
    &&& k.asked.ply == 0
    &&& k.asked.alpha < v || k.asked.alpha == -200_000
    &&& v < k.asked.beta || k.asked.beta == 200_000
}

/// The score of an iteration is that of its last search of the root, which was made to the
/// iteration's depth and with alpha below the score and beta above it, or open.
pub proof fn law_iteration_score_lies_in_its_window<H: SearchHost>(
    b: TitaniumSearch,
    a: TitaniumSearch,
    d: int,
    last_score: int,
    q_left: int,
    v: int,
)
    requires
        think::iteration_result::<H>(b, a, d, last_score, q_left, v),
    ensures
        exists|k: Call| #[trigger] settled_in_window::<H>(k, a, d, v),
{
    let steps = choose|steps: Seq<AspirationStep>| #[trigger]
        think::iterated_by::<H>(b, a, d, last_score, q_left, v, steps);
    reveal(think::iterated_by);
    reveal(think::tried_at);
    let n = steps.len() - 1;
    assert(think::tried_at::<H>(b, d, last_score, q_left, steps, n));
    assert(settled_in_window::<H>(steps.last().call, a, d, v));
}

/// A score on or outside a closed end of the window does not stand: the next window has that
/// end moved outwards beyond the score, the other end as it was, and one more failure counted.
/// The second failure opens the end.
pub proof fn law_failed_window_moves_outwards(a: Aspiration, sc: int)
    requires
        -200_000 <= a.lo < a.hi <= 200_000,
        a.low_fails <= 2,
        a.high_fails <= 2,
        -200_000 <= sc <= 200_000,
    ensures
        sc <= a.lo && a.lo > -200_000 ==> {
            let b = think::widened(a, sc);
            &&& !think::inside(a, sc)
            &&& b.lo < a.lo
            &&& b.lo < sc || b.lo == -200_000
            &&& b.hi == a.hi
            &&& b.low_fails == a.low_fails + 1
            &&& b.high_fails == a.high_fails
            &&& a.low_fails >= 1 ==> b.lo == -200_000
            &&& a.low_fails == 0 && sc >= -199_700 ==> sc - b.lo == 300
        },
        sc >= a.hi && a.hi < 200_000 ==> {
            let b = think::widened(a, sc);
            &&& !think::inside(a, sc)
            &&& b.hi > a.hi
            &&& b.hi > sc || b.hi == 200_000
            &&& b.lo == a.lo
            &&& b.high_fails == a.high_fails + 1
            &&& b.low_fails == a.low_fails
            &&& a.high_fails >= 1 ==> b.hi == 200_000
            &&& a.high_fails == 0 && sc <= 199_700 ==> b.hi - sc == 300
        },
        a.lo < sc < a.hi ==> think::inside(a, sc),
{
}

/// The first window lies round the last score, as far below it as above; from depth four on
/// and for ordinary scores it is narrow, otherwise it is open.
pub proof fn law_first_window_surrounds_the_last_score(d: int, last_score: int)
    requires
        -200_064 <= last_score <= 200_064,
    ensures
        ({
            let a = think::first_window(d, last_score);
            &&& a.low_fails == 0 && a.high_fails == 0
            &&& d >= 4 && -2000 < last_score < 2000 ==> a.lo < last_score < a.hi && last_score - a.lo
                == a.hi - last_score && a.hi - a.lo == 150
            &&& d < 4 || last_score <= -2000 || last_score >= 2000 ==> a.lo == -200_000 && a.hi
                == 200_000
        }),
{
}

// Scores from move to move.

/// A move's score is what its last search came to for the opponent, with the sign turned; that
/// search was one ply deeper, of the position after the move.
pub proof fn law_child_score_is_negated<H: SearchHost>(
    c: Asked,
    tt_move: i16,
    heat: ordering::Heat,
    v: pruning::Visit,
    s: Step,
)
    requires
        trace::step_ok::<H>(c, tt_move, heat, v, s),
    ensures
        s.calls.len() > 0,
        v.score + s.calls.last().value == 0,
        s.calls.last().asked.ply == c.ply + 1,
        s.calls.last().asked.prev_move == v.m,
        s.calls.last().before.g@ == game::played(s.now.g@, v.m as int) || s.calls.len() == 2,
        s.calls[0].before.g@ == game::played(s.now.g@, v.m as int),
{
    reveal(trace::step_ok);
    reveal(trace::calls_follow);
}

/// A score that raises alpha inside the window comes from a search to full depth whose window
/// reaches over the whole of the node's.
pub proof fn law_a_raise_is_searched_in_full<H: SearchHost>(
    child: ChildCall,
    c: Asked,
    start: TitaniumSearch,
    calls: Seq<Call>,
    score: int,
)
    requires
        trace::calls_follow::<H>(child, c, start, calls, score),
        child.alpha < score < c.beta,
        -INF <= child.alpha < c.beta <= INF,
        child.plan matches ChildPlan::Extended(e) ==> e >= 1,
    ensures
        calls.last().asked.depth >= c.depth - 1,
        calls.last().asked.alpha <= -c.beta,
        calls.last().asked.beta >= -child.alpha,
        score == -calls.last().value,
{
    reveal(trace::calls_follow);
}

/// A finished game is lost for the side to move, the sooner the worse; a repetition below the
/// root is worth nothing either way; and the root itself is never cut off as a repetition.
pub proof fn law_fixed_scores(p: game::Position, path: Seq<(u32, u32)>, ply: int, later: int)
    requires
        game::position_ok(p),
        0 <= ply < later < 64,
    ensures
        laws_rules::on_last_row(
            1 - p.turn,
            if p.turn == 0 {
                p.p1
            } else {
                p.p0
            },
        ) ==> {
            let now = search::entry_score(p, path, ply);
            let then = search::entry_score(p, path, later);
            now is Some && then is Some && now->0 < then->0 < -99_000 && now->0 - then->0 == ply
                - later
        },
        !laws_rules::on_last_row(
            1 - p.turn,
            if p.turn == 0 {
                p.p1
            } else {
                p.p0
            },
        ) ==> {
            let now = search::entry_score(p, path, ply);
            &&& now is Some ==> now->0 == 0
            &&& ply == 0 ==> now is None
            &&& later == 63 ==> search::entry_score(p, path, later) == Some(0int)
            &&& ply > 0 && game::repeats_history(p) ==> now == Some(0int)
            &&& ply > 0 && (exists|i: int|
                0 <= i < ply && #[trigger] path[i] == (p.hash_lo, p.hash_hi)) ==> now == Some(0int)
        },
{
}

/// The encoded distance of a mate is the number of plies to it: a game over at `ply` is a loss
/// in `ply`, and the winner's score one ply up says one ply more of the same end.
pub proof fn law_mates_count_plies(ply: int)
    requires
        0 <= ply < 64,
    ensures
        score::dtm(-(MATE - ply)) == Some(ply),
        score::dtm(MATE - ply) == Some(ply),
        score::proven_loss(-(MATE - ply)),
        score::proven_win(MATE - ply),
{
}

/// Proven scores: a win is positive, a loss negative, none is both, ordinary scores are
/// neither; within a kind a nearer win is worth more and a nearer loss less; and turning the
/// board round turns wins into losses of the same length.
pub proof fn law_proven_scores(a: int, b: int)
    requires
        -INF <= a <= INF,
        -INF <= b <= INF,
    ensures
        score::proven_win(a) ==> a > 30_000,
        score::proven_loss(a) ==> a < -30_000,
        score::proven_win(a) <==> score::proven_loss(-a),
        score::dtm(a) == score::dtm(-a),
        score::dtm(a) is Some <==> score::proven_win(a) || score::proven_loss(a),
        score::mate_band(a) && score::mate_band(b) && a > 0 && b > 0 && score::dtm(a)->0 < score::dtm(
            b,
        )->0 ==> a > b,
        score::race_band(a) && score::race_band(b) && a > 0 && b > 0 && score::dtm(a)->0 < score::dtm(
            b,
        )->0 ==> a > b,
        a >= 99_000 || (36_877 < a <= 50_000) ==> score::proven_win(a),
        a == 36_877 || (0 <= a < 36_877) || (50_000 < a < 99_000) ==> !score::proven_win(a),
        score::proven_win(a) ==> score::result_class(a) == "mate_win"@ || score::result_class(a)
            == "race_win"@,
        score::proven_loss(a) ==> score::result_class(a) == "mate_loss"@ || score::result_class(a)
            == "race_loss"@,
{
}

/// A race that is won in `n` plies scores `n` plies below its top, one that is lost in `n` as
/// many above its bottom: nearer wins score higher, nearer losses lower.
pub proof fn law_race_scores_count_plies(n: int, k: int)
    requires
        0 < n < k <= 13_122,
    ensures
        race_cache::score_of_value(0) is None,
        race_cache::score_of_value(n) matches Some(s) && s > 0 && score::dtm(s as int) == Some(n)
            && score::proven_win(s as int),
        race_cache::score_of_value(-n) matches Some(s) && s < 0 && score::dtm(s as int) == Some(n)
            && score::proven_loss(s as int),
        race_cache::score_of_value(n)->0 > race_cache::score_of_value(k)->0,
        race_cache::score_of_value(-n)->0 < race_cache::score_of_value(-k)->0,
{
}

// Cuts.

/// What a table entry claims of the true value `t` of a node.
pub open spec fn claim_holds(flag: int, es: int, t: int) -> bool {
    &&& flag == 0 ==> t == es
    &&& flag == 1 ==> t >= es
    &&& flag == 2 ==> t <= es
}

/// A table entry ends a node only with a claim deep enough, and then rightly: if the claim is
/// true, the score it gives stands on the same side of the window as the true value, and
/// inside the window it is the true value. Entries of the root and claims that lean on a
/// repetition never end a node.
pub proof fn law_table_cut_is_sound(e: SharedTtEntry, depth: int, ply: int, alpha: int, beta: int, t: int)
    requires
        alpha < beta,
        pruning::table_cut(e, depth, ply, alpha, beta) is Some,
        claim_holds(tt::word_flag(e.meta as int), tt::node_score(e.score as int, ply), t),
    ensures
        ({
            let v = pruning::table_cut(e, depth, ply, alpha, beta)->0;
            &&& v >= beta ==> t >= beta
            &&& v <= alpha ==> t <= alpha
            &&& alpha < v < beta ==> t == v
            &&& tt::word_depth(e.meta as int) >= depth
            &&& ply > 0
            &&& e.rep == 0
        }),
{
}

/// An exact entry that is deep enough always ends a node below the root, and a bound does
/// where it lies outside the window on its own side.
pub proof fn law_table_cut_is_taken(e: SharedTtEntry, depth: int, ply: int, alpha: int, beta: int)
    requires
        alpha < beta,
        ply > 0,
        e.rep == 0,
        tt::word_depth(e.meta as int) >= depth,
    ensures
        ({
            let es = tt::node_score(e.score as int, ply);
            let flag = tt::word_flag(e.meta as int);
            flag == 0 || (flag == 1 && es >= beta) || (flag == 2 && es <= alpha)
                ==> pruning::table_cut(e, depth, ply, alpha, beta) == Some(es)
        }),
{
}

/// What a node stores can be read back: depth, move, flag and, at the same ply, the score;
/// under the key of the position.
pub proof fn law_stored_node_reads_back(
    s: TitaniumSearch,
    ply: int,
    depth: int,
    state: pruning::NodeState,
)
    requires
        0 <= ply < 64,
        0 <= depth <= 255,
        0 <= state.flag <= 2,
        0 <= state.best_move < 209,
        state.best is Some,
        -INF <= state.best->0 <= INF,
        s.windows@[ply].min_ply >= ply,
    ensures
        ({
            let e = s.node_entry(ply, depth, state);
            &&& e.key_lo == s.g@.hash_lo
            &&& e.key_hi == s.g@.hash_hi
            &&& tt::word_depth(e.meta as int) == depth
            &&& tt::word_move(e.meta as int) == state.best_move
            &&& tt::word_flag(e.meta as int) == state.flag
            &&& tt::node_score(e.score as int, ply) == state.best->0
            &&& e.rep == 0
            &&& e.entry_gen == s.table.tt_gen
        }),
{
    tt::law_packed_word_round_trip(state.best_move as int, state.flag as int, depth);
    tt::law_stored_score_round_trip(state.best->0 as int, ply);
}

/// An entry gives way to a new one where the slot is empty, where it is of an older search, or
/// where the new one is at least as deep; a deeper one of the same search stays.
pub proof fn law_deeper_entries_stay(
    slots: Seq<SharedTtEntry>,
    bits: nat,
    e: SharedTtEntry,
    gen: u8,
    pure_mode: bool,
    lo: u32,
    hi: u32,
)
    requires
        slots.len() == vstd::arithmetic::power2::pow2(bits),
        e.meta > 0,
    ensures
        ({
            let i = tt::slot_of_key(e.key_lo, bits);
            let old_e = slots[i];
            let after = tt::offered(slots, bits, e, gen, pure_mode);
            &&& after.len() == slots.len()
            &&& after[i] == e || after[i] == old_e
            &&& old_e.meta == 0 ==> after[i] == e
            &&& !pure_mode && old_e.entry_gen != gen ==> after[i] == e
            &&& tt::word_depth(e.meta as int) >= tt::word_depth(old_e.meta as int) ==> after[i] == e
            &&& old_e.meta != 0 && old_e.entry_gen == gen && tt::word_depth(e.meta as int)
                < tt::word_depth(old_e.meta as int) ==> after[i] == old_e
            &&& forall|j: int| 0 <= j < slots.len() && j != i ==> #[trigger] after[j] == slots[j]
            &&& after[i] == e ==> tt::found(after, bits, e.key_lo, e.key_hi) == Some(e)
            &&& tt::slot_of_key(lo, bits) != i ==> tt::found(after, bits, lo, hi) == tt::found(
                slots,
                bits,
                lo,
                hi,
            )
        }),
{
    vstd::arithmetic::power2::lemma_pow2_pos(bits);
    assert(0 <= tt::slot_of_key(e.key_lo, bits) < slots.len());
    assert(0 <= tt::slot_of_key(lo, bits) < slots.len());
}

/// An entry found is an entry for that very position.
pub proof fn law_found_entries_have_the_key(slots: Seq<SharedTtEntry>, bits: nat, lo: u32, hi: u32)
    ensures
        tt::found(slots, bits, lo, hi) matches Some(e) ==> e.key_lo == lo && e.key_hi == hi && e.meta
            != 0,
{
}

/// A race bound ends a node rightly: with a true bound the cut lies on the same side of the
/// window as the true value. A bound that meets the window always cuts.
pub proof fn law_race_cut_is_right(v: i32, alpha: int, beta: int, t: int)
    requires
        alpha < beta,
    ensures
        t >= v ==> (race::window_cut(race::RaceBound::Lower(v), alpha, beta) matches Some(c) ==> c
            == beta && t >= beta),
        t <= v ==> (race::window_cut(race::RaceBound::Upper(v), alpha, beta) matches Some(c) ==> c
            == alpha && t <= alpha),
        v >= beta ==> race::window_cut(race::RaceBound::Lower(v), alpha, beta) is Some,
        v <= alpha ==> race::window_cut(race::RaceBound::Upper(v), alpha, beta) is Some,
        race::window_cut(race::RaceBound::Unknown, alpha, beta) is None,
{
}

/// A node is given up as too good only when its evaluation is above beta by a margin that
/// grows with the depth; a better evaluation is given up as well, a position that does not
/// improve needs more, and a deeper node needs more.
pub proof fn law_futility_needs_a_margin(
    depth: int,
    alpha: int,
    beta: int,
    ev: int,
    improving: bool,
    ace_rfp: bool,
    max_depth: int,
)
    requires
        depth >= 1,
        alpha < beta,
        pruning::futile(depth, alpha, beta, ev, improving, ace_rfp, max_depth),
    ensures
        ev - beta >= 70 * depth,
        -2000 < beta < 2000,
        depth <= 4 || depth <= max_depth,
        pruning::futile(depth, alpha, beta, ev + 1, improving, ace_rfp, max_depth),
        pruning::futile(depth, alpha, beta, ev, true, ace_rfp, max_depth),
        depth > 1 && !(depth - 1 == 4 && max_depth == 4) ==> pruning::futile(
            depth - 1,
            alpha,
            beta,
            ev,
            improving,
            ace_rfp,
            max_depth,
        ),
{
}

/// A pass is tried only below the root, where it is allowed, from depth three on and with an
/// evaluation that holds beta. It is searched three plies shallower, by the opponent, just
/// below minus beta, and no second pass follows at once; it cuts only where the opponent is
/// held to minus beta and no mate was seen.
pub proof fn law_pass_holds_beta(c: Asked, ev: int, k: Call)
    requires
        -INF < c.beta <= INF,
    ensures
        pruning::null_open(c.depth, c.ply, c.allow_null, ev, c.beta as int) ==> c.ply > 0
            && c.allow_null && c.depth >= 3 && ev >= c.beta,
        c.ply > 0 && c.allow_null && c.depth >= 3 && ev >= c.beta ==> pruning::null_open(
            c.depth,
            c.ply,
            c.allow_null,
            ev,
            c.beta as int,
        ),
        trace::pass_asked(c).depth == c.depth - 3,
        trace::pass_asked(c).ply == c.ply + 1,
        !trace::pass_asked(c).allow_null,
        trace::pass_asked(c).alpha == -c.beta,
        trace::pass_asked(c).beta == 1 - c.beta,
        trace::pass_cuts(Some(k), c.beta as int) ==> k.value <= -c.beta && k.value > -99_800,
        k.value <= -c.beta && k.value > -99_800 ==> trace::pass_cuts(Some(k), c.beta as int),
        !trace::pass_cuts(None, c.beta as int),
{
}

/// A probe is made only below the root, from depth six on, in a window of one point among
/// ordinary scores, with an evaluation two hundred above it, and never inside another; it cuts
/// only where its result holds beta.
pub proof fn law_probe_is_well_above_beta(c: Asked, ev: int, k: Call)
    ensures
        pruning::probcut_open(c.depth, c.alpha as int, c.beta as int, c.ply, c.allow_null, ev)
            ==> c.ply > 0 && c.allow_null && c.depth >= 6 && c.beta == c.alpha + 1 && ev - c.beta
            >= 200 && -2000 < c.beta < 2000,
        pruning::probcut_open(c.depth, c.alpha as int, c.beta as int, c.ply, c.allow_null, ev)
            ==> pruning::probcut_open(
            c.depth + 1,
            c.alpha as int,
            c.beta as int,
            c.ply,
            c.allow_null,
            ev + 1,
        ),
        trace::probe_cuts(Some(k), c.beta as int) <==> k.value >= c.beta,
        !trace::probe_cuts(None, c.beta as int),
{
}

/// A wall left out for coming late is a wall below the root, not the table's move, without
/// credit and not the last hope; one later in the list or nearer to the leaves is left out too.
pub proof fn law_late_walls(
    i: int,
    depth: int,
    ply: int,
    improving: bool,
    ace_lmp: bool,
    m: int,
    tt_move: int,
    hist: int,
    best: int,
)
    requires
        pruning::late_wall(i, depth, ply, improving, ace_lmp, m, tt_move, hist, best),
    ensures
        81 <= m < 209,
        ply > 0,
        m != tt_move,
        hist <= 0,
        best > -99_800,
        depth <= 3,
        i >= 8,
        pruning::late_wall(i + 1, depth, ply, improving, ace_lmp, m, tt_move, hist, best),
        pruning::late_wall(i, depth - 1, ply, improving, ace_lmp, m, tt_move, hist, best),
        pruning::late_wall(i, depth, ply, improving, ace_lmp, m, tt_move, hist - 1, best),
        pruning::late_wall(i, depth, ply, false, ace_lmp, m, tt_move, hist, best),
        !ace_lmp && improving ==> i >= 14,
        ace_lmp ==> i >= 24,
        !ace_lmp ==> depth <= 2,
{
}

/// The first move of a node is searched with its whole window; the table's move is neither
/// reduced nor extended; only walls are reduced or extended as walls, and only pawn moves as
/// pawn moves; nothing is reduced below the least depth for it.
pub proof fn law_plans(s: PlanSwitches, i: int, depth: int, ply: int, m: int, tt_move: int)
    requires
        0 <= i,
        s.gate.after_move >= 1,
    ensures
        ({
            let plan = pruning::child_plan(s, i, depth, ply, m, tt_move);
            &&& i == 0 ==> plan == ChildPlan::Window || plan == ChildPlan::Open
            &&& m == tt_move || depth < s.gate.min_depth ==> plan == ChildPlan::Window || plan
                == ChildPlan::Open || plan == ChildPlan::Scout
            &&& plan == ChildPlan::ReducedWall ==> 81 <= m < 209 && i >= s.gate.after_move
            &&& plan == ChildPlan::ReducedPawn ==> 0 <= m < 81 && s.cat_lmr_v16
            &&& plan matches ChildPlan::Extended(e) ==> 81 <= m < 209 && s.eme && 1 <= e <= 2 && i <= 2
            &&& plan == ChildPlan::Window ==> i == 0
            &&& plan == ChildPlan::Open <==> ply == 0 && s.multipv > 1
        }),
{
}

/// A reduced depth is no deeper than the full one and never below zero; more plies off never
/// leave more depth; nothing off leaves all of it.
pub proof fn law_reductions(new_depth: int, r: int, q: int, extra: bool)
    requires
        0 <= new_depth,
        r <= q,
    ensures
        0 <= pruning::reduced_depth(new_depth, r, extra) <= new_depth,
        pruning::reduced_depth(new_depth, q, extra) <= pruning::reduced_depth(new_depth, r, extra),
        r <= 0 ==> pruning::reduced_depth(new_depth, r, false) == new_depth,
        0 <= r <= new_depth ==> pruning::reduced_depth(new_depth, r, false) == new_depth - r,
        0 <= r < new_depth ==> pruning::reduced_depth(new_depth, r, true) == new_depth - r - 1,
        pruning::wall_cut(r, new_depth, true) == r,
        pruning::wall_cut(r, new_depth, false) <= r,
        new_depth >= 1 ==> pruning::wall_cut(r, new_depth, false) <= new_depth - 1,
        r <= new_depth - 1 ==> pruning::wall_cut(r, new_depth, false) == r,
{
}

/// A score is searched again where a shallower or narrower search cannot be trusted: a reduced
/// one above alpha always, a null window where it lands strictly inside.
pub proof fn law_research(score: int, alpha: int, beta: int)
    requires
        alpha < beta,
    ensures
        score > alpha ==> pruning::wants_research(ChildPlan::ReducedWall, score, alpha, beta)
            && pruning::wants_research(ChildPlan::ReducedPawn, score, alpha, beta),
        alpha < score < beta ==> pruning::wants_research(ChildPlan::Scout, score, alpha, beta),
        score <= alpha ==> !pruning::wants_research(ChildPlan::ReducedWall, score, alpha, beta)
            && !pruning::wants_research(ChildPlan::ReducedPawn, score, alpha, beta)
            && !pruning::wants_research(ChildPlan::Scout, score, alpha, beta),
        !pruning::wants_research(ChildPlan::Window, score, alpha, beta),
{
}

// Choices at a decided root.

/// Among the moves of a lost position the better defence: any move that does not lose comes
/// before every one that does; among losses one that does not step back, then one that keeps
/// the opponent farther from its goal, then one that is nearer to its own, then the better
/// evaluation, then the earlier move. Among moves that do not lose the score decides.
pub proof fn law_better_defence(a: RootDefenseDiag, b: RootDefenseDiag, i: int, j: int)
    requires
        a.own_dist_before == b.own_dist_before,
        root_select::outranks(a.rank(i), b.rank(j)),
    ensures
        ({
            let a_loses = score::proven_loss(a.search_score as int);
            let b_loses = score::proven_loss(b.search_score as int);
            let a_back = a.own_dist_after > a.own_dist_before;
            let b_back = b.own_dist_after > b.own_dist_before;
            let tied = a.static_eval > b.static_eval || (a.static_eval == b.static_eval && i < j);
            &&& a_loses ==> b_loses
            &&& !a_loses && !b_loses ==> a.search_score > b.search_score || (a.search_score
                == b.search_score && tied)
            &&& a_loses && a_back ==> b_back
            &&& a_loses && a_back == b_back ==> a.opp_dist_after >= b.opp_dist_after
            &&& a_loses && a_back == b_back && a.opp_dist_after == b.opp_dist_after
                ==> a.own_dist_after <= b.own_dist_after
            &&& a_loses && a_back == b_back && a.opp_dist_after == b.opp_dist_after
                && a.own_dist_after == b.own_dist_after ==> tied
        }),
{
}

/// Among the moves of a won position the cleaner win: the higher score; then a pawn move before
/// a wall; among walls the one that leaves the opponent farther from its goal; then the hotter
/// one, the better evaluation, and the earlier move.
pub proof fn law_cleaner_win(a: CleanWinCandidate, b: CleanWinCandidate, i: int, j: int)
    requires
        root_select::outranks(a.rank(i), b.rank(j)),
    ensures
        ({
            let a_pawn = 0 <= a.mv < 81;
            let b_pawn = 0 <= b.mv < 81;
            let rest = a.cat_heat > b.cat_heat || (a.cat_heat == b.cat_heat && (a.static_eval
                > b.static_eval || (a.static_eval == b.static_eval && i < j)));
            &&& a.search_score >= b.search_score
            &&& a.search_score == b.search_score ==> (b_pawn ==> a_pawn)
            &&& a.search_score == b.search_score && !a_pawn ==> a.opp_dist_after >= b.opp_dist_after
            &&& a.search_score == b.search_score && a_pawn == b_pawn && (a_pawn || a.opp_dist_after
                == b.opp_dist_after) ==> rest
        }),
{
}

/// The picked defence is as good as any other by every measure in turn: no other move avoids
/// the loss if it does not, and none of its equals holds the opponent farther off or stands
/// nearer to the goal.
pub proof fn law_picked_defence(ds: Seq<RootDefenseDiag>, mv: i16, value: i32, before: int)
    requires
        root_verify::is_stubbornest(ds, mv, value),
        forall|i: int| 0 <= i < ds.len() ==> (#[trigger] ds[i]).own_dist_before == before,
    ensures
        exists|b: int|
            0 <= b < ds.len() && (#[trigger] ds[b]).mv == mv && ds[b].search_score == value && (
            forall|i: int|
                0 <= i < ds.len() ==> {
                    let other = #[trigger] ds[i];
                    let lost = score::proven_loss(value as int);
                    &&& lost ==> score::proven_loss(other.search_score as int)
                    &&& !lost && !score::proven_loss(other.search_score as int) ==> value >= other.search_score
                    &&& lost && ds[b].own_dist_after > before ==> other.own_dist_after > before
                    &&& lost && (ds[b].own_dist_after > before) == (other.own_dist_after > before)
                        ==> ds[b].opp_dist_after >= other.opp_dist_after
                    &&& lost && (ds[b].own_dist_after > before) == (other.own_dist_after > before)
                        && ds[b].opp_dist_after == other.opp_dist_after ==> ds[b].own_dist_after
                        <= other.own_dist_after
                }),
{
    let b = choose|b: int|
        0 <= b < ds.len() && mv == (#[trigger] ds[b]).mv && value == ds[b].search_score && forall|
            i: int,
        |
            0 <= i < ds.len() && i != b ==> root_select::outranks(
                ds[b].rank(b),
                #[trigger] ds[i].rank(i),
            );
    assert forall|i: int| 0 <= i < ds.len() implies ({
        let other = #[trigger] ds[i];
        let lost = score::proven_loss(value as int);
        &&& lost ==> score::proven_loss(other.search_score as int)
        &&& !lost && !score::proven_loss(other.search_score as int) ==> value >= other.search_score
        &&& lost && ds[b].own_dist_after > before ==> other.own_dist_after > before
        &&& lost && (ds[b].own_dist_after > before) == (other.own_dist_after > before)
            ==> ds[b].opp_dist_after >= other.opp_dist_after
        &&& lost && (ds[b].own_dist_after > before) == (other.own_dist_after > before)
            && ds[b].opp_dist_after == other.opp_dist_after ==> ds[b].own_dist_after
            <= other.own_dist_after
    }) by {
        assert(ds[b].own_dist_before == before);
        if i != b {
            assert(root_select::outranks(ds[b].rank(b), ds[i].rank(i)));
            law_better_defence(ds[b], ds[i], b, i);
        }
    }
}

// Evaluations.

/// The evaluation has the sign of the race where a side is out of walls and the race against
/// it is decided: positive for a side to move that wins it against an opponent without walls,
/// negative for one without walls that loses it.
pub proof fn law_evaluation_has_the_sign_of_the_race<H: SearchHost>(
    b: TitaniumSearch,
    a: TitaniumSearch,
    depth: int,
    v: int,
    x: i32,
)
    requires
        search::evaluated::<H>(b, a, depth, v),
        game::position_ok(b.g@),
        b.prover.race_proof,
        b.prover.cache.cached(b.g@.w),
        race_cache::race_score_is(b.g@, Some(x)),
        (b.g@.wl0 == 0) != (b.g@.wl1 == 0),
    ensures
        ({
            let mine = if b.g@.turn == 0 {
                b.g@.wl0
            } else {
                b.g@.wl1
            };
            let theirs = if b.g@.turn == 0 {
                b.g@.wl1
            } else {
                b.g@.wl0
            };
            &&& theirs == 0 && x > 0 ==> v > 0
            &&& mine == 0 && x < 0 ==> v < 0
        }),
{
    reveal(search::evaluated);
    let p = b.g@;
    let r = choose|r: race::RaceBound| #[trigger]
        race::broke_told::<H>(b.prover.cache, p, r) && match r {
            race::RaceBound::Lower(_) => v == eval::BROKE_SCORE,
            race::RaceBound::Upper(_) => v == -eval::BROKE_SCORE,
            _ => search::known_or_net::<H>(b, a, depth, v),
        };
    let s = choose|s: Option<i32>| #[trigger]
        race_cache::score_had::<H>(b.prover.cache, p, false, s) && r == race::broke_bound(p, s);
    let got = choose|got: bool| #[trigger]
        race_cache::table_had::<H>(b.prover.cache, p.w, false, got) && if got {
            race_cache::race_score_is(p, s)
        } else {
            s is None
        };
    assert(got);
    search::lemma_one_race_score(p);
    assert(s == Some(x));
}

/// Whatever the tables are, an evaluation by the race of a side without walls is positive for
/// a lower bound and negative for an upper one.
pub proof fn law_broke_evaluation_follows_its_bound<H: SearchHost>(
    b: TitaniumSearch,
    a: TitaniumSearch,
    depth: int,
    v: int,
)
    requires
        search::evaluated::<H>(b, a, depth, v),
        b.prover.race_proof,
        (b.g@.wl0 == 0) != (b.g@.wl1 == 0),
    ensures
        exists|r: race::RaceBound| #[trigger]
            race::broke_told::<H>(b.prover.cache, b.g@, r) && (r is Lower ==> v > 0) && (r is Upper
                ==> v < 0),
{
    reveal(search::evaluated);
}

/// With both hands empty a leaf has the race's own score where the table is at hand and
/// decides; without proofs the nearer side is ahead.
pub proof fn law_race_leaf_has_the_race_score<H: SearchHost>(
    b: TitaniumSearch,
    a: TitaniumSearch,
    v: int,
    x: i32,
)
    requires
        search::evaluated::<H>(b, a, 0, v),
        game::position_ok(b.g@),
        b.g@.wl0 == 0,
        b.g@.wl1 == 0,
    ensures
        b.prover.race_proof && b.prover.cache.cached(b.g@.w) && race_cache::race_score_is(
            b.g@,
            Some(x),
        ) ==> v == x,
        !b.prover.race_proof ==> ({
            let mine = board::goal_distance(
                b.g@.w,
                b.g@.turn,
                if b.g@.turn == 0 {
                    b.g@.p0
                } else {
                    b.g@.p1
                },
            );
            let theirs = board::goal_distance(
                b.g@.w,
                1 - b.g@.turn,
                if b.g@.turn == 0 {
                    b.g@.p1
                } else {
                    b.g@.p0
                },
            );
            &&& 0 <= mine <= 255 && 0 <= theirs <= 255 ==> (mine <= theirs <==> v > 0) && v != 0
        }),
{
    reveal(search::evaluated);
    let p = b.g@;
    search::lemma_one_race_score(p);
    let jumps = choose|jumps: Option<(u8, u8)>|
        #![trigger search::race_guess(p, jumps)]
        search::jumps_told::<H>(b, jumps) && if b.prover.race_proof {
            race_root::race_or_guess::<H>(b.prover.cache, p, search::race_guess(p, jumps), v)
        } else {
            v == search::race_guess(p, jumps)
        };
    if b.prover.race_proof && b.prover.cache.cached(p.w) && race_cache::race_score_is(p, Some(x)) {
        let s = choose|s: Option<i32>| #[trigger]
            race_cache::score_had::<H>(b.prover.cache, p, false, s) && v == match s {
                Some(y) => y as int,
                None => search::race_guess(p, jumps),
            };
        let got = choose|got: bool| #[trigger]
            race_cache::table_had::<H>(b.prover.cache, p.w, false, got) && if got {
                race_cache::race_score_is(p, s)
            } else {
                s is None
            };
        assert(got);
        assert(s == Some(x));
    }
}

/// The guess of a race by distances: the side to move is ahead exactly when it is no farther
/// from its goal than the other; a step nearer is worth more, a step of the other less; and
/// no guess looks like a proven result.
pub proof fn law_nearer_is_better(d_me: int, d_opp: int)
    requires
        0 <= d_me < 255,
        0 <= d_opp < 255,
    ensures
        d_me <= d_opp <==> race_root::distance_heuristic(d_me, d_opp) > 0,
        d_me > d_opp <==> race_root::distance_heuristic(d_me, d_opp) < 0,
        race_root::distance_heuristic(d_me, d_opp) > race_root::distance_heuristic(d_me + 1, d_opp),
        race_root::distance_heuristic(d_me, d_opp) < race_root::distance_heuristic(d_me, d_opp + 1),
        !score::proven_win(race_root::distance_heuristic(d_me, d_opp)),
        !score::proven_loss(race_root::distance_heuristic(d_me, d_opp)),
{
}

/// The distances are those of the side to move first: with the other side to move the pair is
/// turned round. Jump distances stand in the place of their own player's.
pub proof fn law_distances_follow_the_mover(p: game::Position, q: game::Position, j0: u8, j1: u8)
    requires
        p.turn == 0,
        q == (game::Position { turn: 1, ..p }),
        j0 != 255,
        j1 != 255,
    ensures
        search::race_distances(p, None) == (
            search::race_distances(q, None).1,
            search::race_distances(q, None).0,
        ),
        search::race_distances(p, None).0 == board::goal_distance(p.w, 0, p.p0),
        search::race_distances(p, None).1 == board::goal_distance(p.w, 1, p.p1),
        search::race_distances(p, Some((j0, j1))) == (j0 as int, j1 as int),
        search::race_distances(q, Some((j0, j1))) == (j1 as int, j0 as int),
        search::race_distances(p, Some((255u8, j1))) == (search::race_distances(p, None).0, j1 as int),
        search::race_distances(p, Some((j0, 255u8))) == (j0 as int, search::race_distances(p, None).1),
{
}

/// A certificate is worth more than any ordinary evaluation and less than a proven end.
/// Otherwise the output counts: a higher one is never worth less, the learned bias moves it by
/// no more than itself and in its own direction, and an ordinary output stays ordinary.
pub proof fn law_network_evaluation(raw: int, other: int, bias: int)
    requires
        raw <= other,
        -256 <= bias <= 256,
    ensures
        eval::settled_eval(raw, true, bias) > 2000,
        !score::proven_win(eval::settled_eval(raw, true, bias)),
        eval::settled_eval(raw, false, bias) <= eval::settled_eval(other, false, bias),
        -2000 < raw < 2000 ==> -2000 < eval::settled_eval(raw, false, bias) < 2000,
        raw <= -2000 || raw >= 2000 ==> eval::settled_eval(raw, false, bias) == raw,
        eval::settled_eval(raw, false, 0) == raw,
        bias >= 0 ==> raw <= eval::settled_eval(raw, false, bias) <= raw + bias,
        bias <= 0 ==> raw + bias <= eval::settled_eval(raw, false, bias) <= raw,
{
}

/// A known certificate settles a position with few walls in favour of the side to move.
pub proof fn law_known_win_is_a_win<H: SearchHost>(
    b: TitaniumSearch,
    a: TitaniumSearch,
    depth: int,
    v: int,
)
    requires
        search::evaluated::<H>(b, a, depth, v),
        b.prover.race_proof,
        b.g@.wl0 > 0,
        b.g@.wl1 > 0,
        b.g@.wl0 + b.g@.wl1 <= 2,
        b.memo.known(b.g@, b.g@.turn) == Some(1i32),
    ensures
        v > 2000,
{
    reveal(search::evaluated);
}

/// Beyond races and certificates the evaluation is the network's, with no more than the bias
/// between them, or the value of a certificate just proven.
pub proof fn law_quiet_evaluation_is_near_the_network<H: SearchHost>(
    b: TitaniumSearch,
    a: TitaniumSearch,
    depth: int,
    v: int,
)
    requires
        search::evaluated::<H>(b, a, depth, v),
        b.g@.wl0 + b.g@.wl1 > 2,
        b.g@.wl0 > 0,
        b.g@.wl1 > 0,
    ensures
        a.evals.known(b.g@) matches Some(raw) && ({
            let bias = b.hist.bias(b.g.turn as int, history::corr_bucket(b.g));
            &&& -200_000 <= raw <= 200_000 && v != 2500 && bias >= 0 ==> raw <= v <= raw + bias
            &&& -200_000 <= raw <= 200_000 && v != 2500 && bias <= 0 ==> raw + bias <= v <= raw
        }),
{
    reveal(search::evaluated);
}

// Deepening.

/// When a depth is not begun: never under a full search for lack of soft time, always once the
/// deadline has passed; and what stops it at one moment stops it at every later one.
pub proof fn law_stops_before(
    d: int,
    full: bool,
    elapsed: int,
    later: int,
    soft_ms: int,
    predict: bool,
    log: Seq<timing::AceDepthLogEntry>,
    over: bool,
)
    requires
        elapsed <= later,
    ensures
        over ==> think::stop_before(d, full, elapsed, soft_ms, predict, log, over) is Some,
        full && !over ==> think::stop_before(d, full, elapsed, soft_ms, predict, log, over) is None,
        think::stop_before(d, full, elapsed, soft_ms, predict, log, over) is Some
            ==> think::stop_before(d, full, later, soft_ms, predict, log, over) is Some,
        !full && d > 1 && elapsed > soft_ms ==> think::stop_before(
            d,
            full,
            elapsed,
            soft_ms,
            predict,
            log,
            over,
        ) is Some,
        !over && d <= 1 && !predict ==> think::stop_before(
            d,
            full,
            elapsed,
            soft_ms,
            predict,
            log,
            over,
        ) is None,
        !over && !predict && elapsed <= soft_ms ==> think::stop_before(
            d,
            full,
            elapsed,
            soft_ms,
            predict,
            log,
            over,
        ) is None,
{
}

/// When a search ends after a depth: at once with a forced result; otherwise, unless it is a
/// full search, when the soft time is spent, or for a best move that has stood for three depths
/// from depth nine on without trouble once three tenths of the time are gone.
pub proof fn law_stops_after(
    s: IdState,
    d: int,
    full: bool,
    elapsed: int,
    later: int,
    time_ms: int,
    soft_ms: int,
)
    requires
        elapsed <= later,
        0 <= time_ms,
    ensures
        ({
            let forced = s.last_score > 99_800 || s.last_score < -99_800;
            let why = think::stop_after(s, d, full, elapsed, time_ms, soft_ms);
            &&& forced <==> why == Some(StopReason::Forced)
            &&& full && !forced ==> why is None
            &&& !full && elapsed > soft_ms ==> why is Some
            &&& why == Some(StopReason::EasyMove) ==> d >= 9 && s.stable >= 3 && s.last_score > -120
                && 10 * elapsed > 3 * time_ms - 10
            &&& why == Some(StopReason::SoftBudgetAfter) ==> elapsed > soft_ms
            &&& why is Some ==> think::stop_after(s, d, full, later, time_ms, soft_ms) is Some
            &&& !full && !forced && d >= 9 && s.stable >= 3 && s.last_score > -120 && 10 * elapsed
                > 3 * time_ms ==> why is Some
        }),
{
}

/// A completed depth makes its best move and score the answer; a best move that stands counts
/// one depth more, another one starts the count anew and is counted as a change.
pub proof fn law_completed_depth(s: IdState, sc: i32, d: i32, root: RootReport)
    requires
        -200_064 <= s.last_score <= 200_064,
        -200_000 <= sc <= 200_000,
        s.stable < 1000,
        s.best_move_changes < 1000,
    ensures
        ({
            let t = think::completed(s, sc, d, root);
            &&& t.last_best == root.best
            &&& t.last_score == sc
            &&& t.last_depth == d
            &&& root.best == s.last_best ==> t.stable == s.stable + 1 && t.best_move_changes
                == s.best_move_changes
            &&& root.best != s.last_best ==> t.stable == 0
            &&& root.best != s.last_best && s.last_best >= 0 && root.best >= 0
                ==> t.best_move_changes == s.best_move_changes + 1
            &&& s.last_depth > 0 ==> t.score_delta == sc - s.last_score
            &&& root.pawn_best >= 0 ==> t.last_pawn_best == root.pawn_best && t.last_pawn_score
                == root.pawn_score
            &&& root.pawn_best < 0 ==> t.last_pawn_best == s.last_pawn_best
        }),
{
}

/// A depth that time cuts short keeps the answer, unless partial depths count and a root move
/// was searched to the end: then that move and its score are the answer.
pub proof fn law_depth_cut_short(s: IdState, partial: bool, d: i32, root: RootReport)
    ensures
        ({
            let t = think::aborted(s, partial, d, root);
            let u = think::cut_short(s, partial, root);
            &&& !partial || root.best < 0 ==> t == s && u == s
            &&& partial && root.best >= 0 ==> t.last_best == root.best && t.last_score == root.score
                && t.last_depth == d && t.partial_iter_used
            &&& partial && root.best >= 0 ==> u.last_best == root.best && u.last_score == root.score
                && u.last_depth == s.last_depth && u.partial_iter_used
        }),
{
}

/// The last wall is given up only where it was about to be spent, another move is at hand, and
/// the opponent is shown to win after it; then that other move is the answer.
pub proof fn law_last_wall(s: IdState, proofs: bool, hand: int, answer: Option<bool>)
    ensures
        think::last_wall_gate(proofs, hand, s) ==> proofs && 81 <= s.last_best < 209 && hand == 1
            && s.last_pawn_best >= 0 && s.last_score < 99_800 && s.last_pawn_score is Some,
        answer != Some(true) ==> think::wall_settled(s, answer) == s,
        answer == Some(true) ==> think::wall_settled(s, answer).last_best == s.last_pawn_best
            && think::wall_settled(s, answer).last_depth == s.last_depth,
        answer == Some(true) && s.last_pawn_score is Some ==> Some(
            think::wall_settled(s, answer).last_score,
        ) == s.last_pawn_score,
{
}

/// The depth limit: none asked for is 128, and none goes beyond what was asked or what the
/// table can tell apart.
pub proof fn law_depth_limit(max_depth: int, other: int)
    requires
        0 < max_depth <= other,
    ensures
        1 <= think::depth_limit_of(max_depth) <= max_depth,
        think::depth_limit_of(max_depth) <= 255,
        max_depth <= 255 ==> think::depth_limit_of(max_depth) == max_depth,
        think::depth_limit_of(max_depth) <= think::depth_limit_of(other),
        think::depth_limit_of(0) == think::depth_limit_of(-max_depth),
        100 < think::depth_limit_of(0) <= 255,
{
}

/// A search resumes two plies before a deep exact entry of the root, with its score; from
/// anything else, and in pure mode, it begins at depth one.
pub proof fn law_resuming(pure_mode: bool, e: SharedTtEntry)
    requires
        e.meta >= 0,
    ensures
        think::resume_point(pure_mode, None) == (1int, 0int),
        think::resume_point(true, Some(e)) == (1int, 0int),
        1 <= think::resume_point(pure_mode, Some(e)).0 <= 253,
        !pure_mode && tt::word_flag(e.meta as int) == 0 && tt::word_depth(e.meta as int) >= 4
            ==> tt::word_depth(e.meta as int) - think::resume_point(pure_mode, Some(e)).0 == 2
            && think::resume_point(pure_mode, Some(e)).1 == e.score,
        tt::word_flag(e.meta as int) != 0 || tt::word_depth(e.meta as int) < 4
            ==> think::resume_point(pure_mode, Some(e)) == (1int, 0int),
{
}

// Races at the root.

/// The best move of a solved race: no other move wins sooner; and where it loses, every other
/// move that is decided loses too, and no later.
pub proof fn law_best_race_move(p: game::Position, tbl: Seq<i16>, k: int, j: int)
    requires
        race_root::best_upto(p, tbl, game::pawn_moves(p).len() as int, k),
        0 <= j < game::pawn_moves(p).len(),
        race_root::has_value(p, tbl, j),
    ensures
        ({
            let i = race_cache::state_of(p);
            let v = race_root::move_value(tbl, i, game::pawn_moves(p)[k] as int)->0;
            let u = race_root::move_value(tbl, i, game::pawn_moves(p)[j] as int)->0;
            &&& u > 0 ==> v > 0 && v <= u
            &&& v < 0 ==> u < 0 && u >= v
        }),
{
}

/// The answer of a solved race says how it ends and when: won in `v` plies or lost in `-v`.
pub proof fn law_solved_race_answer(mv: i16, v: int, legal: int)
    requires
        -13_122 <= v <= 13_122,
        v != 0,
        0 <= legal <= 5,
    ensures
        ({
            let s = race_root::exact_solution(mv, v, legal);
            &&& s.mv == mv
            &&& v > 0 <==> s.score > 0
            &&& v > 0 ==> score::dtm(s.score as int) == Some(v) && s.info.outcome == 1
            &&& v < 0 ==> score::dtm(s.score as int) == Some(-v) && s.info.outcome == -1
            &&& s.info.exact_dtm matches Some(n) && n == (if v > 0 {
                v
            } else {
                -v
            })
            &&& s.exact
            &&& s.legal_moves == legal
        }),
{
}

/// A settled race has the sign of what was proven of its move.
pub proof fn law_settled_race_answer(c: race_root::RaceRootCandidate, legal: int)
    requires
        0 <= legal <= 5,
    ensures
        ({
            let s = race_root::settled_solution(c, legal);
            &&& s.mv == c.mv
            &&& c.root_wins ==> s.score > 30_000 && s.info.outcome == 1
            &&& !c.root_wins ==> s.score < -30_000 && s.info.outcome == -1
            &&& !s.exact
            &&& s.info.exact_dtm is None
            &&& s.info.approximate_plies == c.approximate_plies
        }),
{
}

/// A judgement is of the position after the move, with the opponent to move: a move wins where
/// the opponent is bounded from above, and loses where the opponent is bounded from below; a
/// step onto the goal wins at once.
pub proof fn law_judged_moves(mv: i16, x: i32, estimate: Option<u16>)
    ensures
        race_root::candidate_of(mv, true, race::RaceBound::Unknown, None) matches Some(c) && c.mv == mv
            && c.root_wins && c.exact_dtm == Some(1u16),
        race_root::candidate_of(mv, false, race::RaceBound::Upper(x), estimate) matches Some(c) && c.mv
            == mv && c.root_wins && c.exact_dtm is None,
        race_root::candidate_of(mv, false, race::RaceBound::Lower(x), estimate) matches Some(c) && c.mv
            == mv && !c.root_wins && c.exact_dtm is None,
        race_root::candidate_of(mv, false, race::RaceBound::Exact(x), estimate) matches Some(c) && (
        c.root_wins <==> x < 0),
        race_root::candidate_of(mv, false, race::RaceBound::Unknown, estimate) is None,
{
}

/// A corridor's winner bounds the score for the side to move: from below if it is its own, from
/// above if it is the other's.
pub proof fn law_corridor_bounds(turn: usize)
    requires
        turn < 2,
    ensures
        search::corridor_says(Some(turn), turn as int) matches race::RaceBound::Lower(v) && v > 30_000,
        search::corridor_says(Some((1 - turn) as usize), turn as int) matches race::RaceBound::Upper(v)
            && v < -30_000,
        search::corridor_says(None, turn as int) == race::RaceBound::Unknown,
        race::winner_bound(turn as int, Some(turn as int)) matches race::RaceBound::Lower(v) && v
            > 30_000,
        race::winner_bound(turn as int, Some(1 - turn)) matches race::RaceBound::Upper(v) && v
            < -30_000,
        race::winner_bound(turn as int, None) == race::RaceBound::Unknown,
{
}

/// The bound against a side without walls: a side to move that wins the pure race against an
/// opponent without walls has at least that score, one without walls that loses it at most
/// that; in every other case nothing is claimed.
pub proof fn law_broke_bounds(p: game::Position, x: i32)
    requires
        (p.wl0 == 0) != (p.wl1 == 0),
        p.turn == 0 || p.turn == 1,
    ensures
        ({
            let mine = if p.turn == 0 {
                p.wl0
            } else {
                p.wl1
            };
            let theirs = if p.turn == 0 {
                p.wl1
            } else {
                p.wl0
            };
            let b = race::broke_bound(p, Some(x));
            &&& theirs == 0 && x > 0 ==> b == race::RaceBound::Lower(x)
            &&& mine == 0 && x < 0 ==> b == race::RaceBound::Upper(x)
            &&& theirs == 0 && x <= 0 ==> b == race::RaceBound::Unknown
            &&& mine == 0 && x >= 0 ==> b == race::RaceBound::Unknown
            &&& race::broke_bound(p, None) == race::RaceBound::Unknown
        }),
{
}

} // verus!

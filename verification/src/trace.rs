//! What a search did: a rule that ties the score of a node to the searcher before and after
//! it, and to the searches it made on the way. Each of those starts where the one before it
//! ended, with the same table, memo, evaluations and race tables.

use crate::board;
use crate::config::SearchConfig;
use crate::game;
use crate::history::History;
use crate::host::SearchHost;
use crate::movegen;
use crate::moves;
use crate::num;
use crate::ordering;
use crate::ordering::{BookHints, Heat};
use crate::pruning;
use crate::pruning::{ChildPlan, NodeState, PlanSwitches, Visit};
use crate::routes;
use crate::score::{INF, MAX_PLY};
use crate::search;
use crate::search::{ChildCall, FirstDepth, NodeRecord, NodeVerdict, TitaniumSearch};
use crate::tt;
use crate::tt::SharedTtEntry;
use vstd::prelude::*;

verus! {

/// What a search was asked for.
pub struct Asked {
    pub depth: int,
    pub alpha: i32,
    pub beta: i32,
    pub ply: int,
    pub allow_null: bool,
    pub prev_move: i16,
    pub q_left: int,
}

/// One search: the searcher before and after it, what was asked, and the score.
pub struct Call {
    pub before: TitaniumSearch,
    pub after: TitaniumSearch,
    pub asked: Asked,
    pub value: int,
}

/// One child of a node: the searcher at the node, after the move was played and after it was
/// taken back, and the searches in between.
pub struct Step {
    pub now: TitaniumSearch,
    pub start: TitaniumSearch,
    pub end: TitaniumSearch,
    pub child: ChildCall,
    pub calls: Seq<Call>,
}

/// What decided a node before its moves: races, table, corridors, evaluation.
pub struct Judged {
    pub race: Option<i32>,
    pub raced: TitaniumSearch,
    pub entry: Option<SharedTtEntry>,
    pub corridor: Option<i32>,
    pub cornered: TitaniumSearch,
    pub ev: i32,
}

/// What happened at a node.
pub struct Trace {
    pub at: TitaniumSearch,
    pub verdict: NodeVerdict,
    /// The leaf's search one ply deeper.
    pub extended: Option<Call>,
    /// The probe and the pass that may cut.
    pub probe: Option<Call>,
    pub pass: Option<Call>,
    pub opened: TitaniumSearch,
    pub list: Seq<i16>,
    pub heat: Heat,
    pub rec: NodeRecord,
    pub steps: Seq<Step>,
    pub end: TitaniumSearch,
}

/// Request of a call.
pub open spec fn asked(
    depth: i32,
    alpha: i32,
    beta: i32,
    ply: usize,
    allow_null: bool,
    prev_move: i16,
    q_left: i32,
) -> Asked {
    Asked {
        depth: depth as int,
        alpha,
        beta,
        ply: ply as int,
        allow_null,
        prev_move,
        q_left: q_left as int,
    }
}

/// Everything an evaluation leaves alone is the same.
pub open spec fn kept_tables(a: TitaniumSearch, b: TitaniumSearch) -> bool {
    &&& a.table == b.table
    &&& a.use_shared == b.use_shared
    &&& a.cfg == b.cfg
    &&& a.hist == b.hist
}

/// Table, switches, memo, evaluations, race tables and statistics are the same.
pub open spec fn same_knowledge(a: TitaniumSearch, b: TitaniumSearch) -> bool {
    &&& kept_tables(a, b)
    &&& a.memo == b.memo
    &&& a.evals == b.evals
    &&& a.prover == b.prover
}

/// The line up to and with `ply` is the same.
#[verifier::opaque]
pub open spec fn same_line(a: TitaniumSearch, b: TitaniumSearch, ply: int) -> bool {
    &&& forall|i: int| 0 <= i <= ply ==> #[trigger] a.path@[i] == b.path@[i]
    &&& forall|i: int| 0 <= i <= ply ==> #[trigger] a.eval_stack@[i] == b.eval_stack@[i]
}

pub proof fn lemma_same_line(a: TitaniumSearch, b: TitaniumSearch, ply: int)
    requires
        forall|i: int| 0 <= i <= ply ==> #[trigger] a.path@[i] == b.path@[i],
        forall|i: int| 0 <= i <= ply ==> #[trigger] a.eval_stack@[i] == b.eval_stack@[i],
    ensures
        same_line(a, b, ply),
        same_line(b, a, ply),
{
    reveal(same_line);
}

/// The searcher stands where it stood, and knows what it knew.
pub open spec fn linked(a: TitaniumSearch, b: TitaniumSearch, ply: int) -> bool {
    &&& same_knowledge(a, b)
    &&& a.nodes == b.nodes
    &&& a.g@ == b.g@
    &&& same_line(a, b, ply)
}

/// Also with the same repetition window at `ply`, and the same study of reductions.
pub open spec fn linked_node(a: TitaniumSearch, b: TitaniumSearch, ply: int) -> bool {
    linked(a, b, ply) && a.windows@[ply] == b.windows@[ply] && a.probe == b.probe
}

/// What the line, the windows and the knowledge leave aside does not matter.
pub proof fn lemma_linked_on(a: TitaniumSearch, b: TitaniumSearch, c: TitaniumSearch, ply: int)
    requires
        linked_node(a, b, ply),
        same_knowledge(b, c),
        b.nodes == c.nodes,
        b.g@ == c.g@,
        b.path == c.path,
        b.eval_stack == c.eval_stack,
        b.windows == c.windows,
        b.probe == c.probe,
    ensures
        linked_node(a, c, ply),
{
    reveal(same_line);
}

pub proof fn lemma_linked_self(a: TitaniumSearch, ply: int)
    ensures
        linked_node(a, a, ply),
{
    reveal(same_line);
}

/// The evaluation of `b` is `v`, and the searcher is `a` afterwards.
pub open spec fn evaluated_to<H: SearchHost>(b: TitaniumSearch, a: TitaniumSearch, depth: int, v: int) -> bool {
    &&& search::evaluated::<H>(b, a, depth, v)
    &&& kept_tables(a, b)
    &&& search::same_root(a, b)
    &&& a.nodes == b.nodes
    &&& a.g@ == b.g@
}

/// The last move stirred the race enough to look one ply deeper at a leaf.
pub open spec fn leaf_extends(b: TitaniumSearch, c: Asked, ev: int) -> bool {
    &&& b.cfg.q_search
    &&& c.q_left > 0
    &&& c.ply > 0
    &&& -2000 < ev < 2000
    &&& b.eval_stack@[c.ply - 1] matches Some(parent) && if moves::wall_id(c.prev_move as int) {
        search::wall_matters(b.g@, c.prev_move as int) && pruning::swing_enough(
            ev,
            parent as int,
            b.cfg.q_swing_cp as int,
        )
    } else {
        search::jump_gains(b.g@, routes::field_of(b.g@.w, b.g@.turn))
    }
}

/// What was found, if the search can use it.
pub open spec fn usable(found: Option<SharedTtEntry>) -> Option<SharedTtEntry> {
    match found {
        Some(e) => if search::entry_usable(e) {
            Some(e)
        } else {
            None
        },
        None => None,
    }
}

/// What the shared table gave for the position.
pub open spec fn shared_found<H: SearchHost>(s: TitaniumSearch, entry: Option<SharedTtEntry>) -> bool {
    exists|h: H, found: Option<SharedTtEntry>| #[trigger]
        h.may_find(s.g@.hash_lo, s.g@.hash_hi, found) && entry == usable(found)
}

/// The entry the node found: its own table's, or what the shared one gave.
pub open spec fn entry_found<H: SearchHost>(s: TitaniumSearch, entry: Option<SharedTtEntry>) -> bool {
    if s.use_shared {
        shared_found::<H>(s, entry)
    } else {
        entry == usable(s.table.base.lookup(s.g@.hash_lo, s.g@.hash_hi))
    }
}

/// Move of an entry; zero without one.
pub open spec fn entry_move(entry: Option<SharedTtEntry>) -> i16 {
    match entry {
        Some(e) => tt::word_move(e.meta as int) as i16,
        None => 0,
    }
}

/// Score by which an entry ends the node.
pub open spec fn entry_cut(entry: Option<SharedTtEntry>, c: Asked) -> Option<int> {
    match entry {
        Some(e) => pruning::table_cut(e, c.depth, c.ply, c.alpha as int, c.beta as int),
        None => None,
    }
}

/// The evaluation is better than the mover's last one.
pub open spec fn is_improving(b: TitaniumSearch, ply: int, ev: int) -> bool {
    ply >= 2 && (b.eval_stack@[ply - 2] matches Some(v) && ev > v)
}

/// A corridor that cut, or the evaluation that followed.
pub open spec fn after_corridor<H: SearchHost>(
    x: Judged,
    at: TitaniumSearch,
    c: Asked,
    verdict: NodeVerdict,
    otherwise: NodeVerdict,
) -> bool {
    &&& search::corridor_follows::<H>(x.raced, x.cornered, c.alpha, c.beta, x.corridor)
    &&& match x.corridor {
        Some(w) => verdict == NodeVerdict::Done(w) && at == x.cornered,
        None => evaluated_to::<H>(x.cornered, at, c.depth, x.ev as int) && verdict == otherwise,
    }
}

/// The verdict on a node has these grounds.
#[verifier::opaque]
pub open spec fn judged_by<H: SearchHost>(
    b: TitaniumSearch,
    at: TitaniumSearch,
    c: Asked,
    verdict: NodeVerdict,
    x: Judged,
) -> bool {
    judgement::<H>(b, at, c, verdict, x)
}

/// The verdict on a node follows from races, table, corridors and evaluation, in this order.
pub open spec fn judgement<H: SearchHost>(
    b: TitaniumSearch,
    at: TitaniumSearch,
    c: Asked,
    verdict: NodeVerdict,
    x: Judged,
) -> bool {
    let improving = is_improving(b, c.ply, x.ev as int);
    &&& same_line(at, b, c.ply - 1)
    &&& at.path@[c.ply] == search::key_of(b.g@)
    // A node that is evaluated above a leaf notes its evaluation.
    &&& at.eval_stack@[c.ply] == if x.race is None && c.depth > 0 && entry_cut(x.entry, c) is None
        && x.corridor is None {
        Some(x.ev)
    } else {
        b.eval_stack@[c.ply]
    }
    &&& at.windows@[c.ply].min_ply == MAX_PLY
    &&& kept_tables(x.raced, b)
    &&& search::same_root(x.raced, b)
    &&& x.raced.memo == b.memo
    &&& x.raced.evals == b.evals
    &&& x.raced.g@ == b.g@
    &&& x.raced.nodes == search::one_more(b.nodes)
    &&& x.raced.prover.same_config(&b.prover)
    &&& search::race_cut_follows::<H>(b, x.raced.prover, c.alpha, c.beta, x.race)
    &&& if x.race is Some {
        verdict == NodeVerdict::Done(x.race->0) && at == x.raced
    } else if c.depth <= 0 {
        after_corridor::<H>(
            x,
            at,
            c,
            verdict,
            if leaf_extends(b, c, x.ev as int) {
                NodeVerdict::Extend
            } else {
                NodeVerdict::Done(x.ev)
            },
        )
    } else {
        &&& entry_found::<H>(x.raced, x.entry)
        &&& if entry_cut(x.entry, c) is Some {
            verdict == NodeVerdict::Done(
                num::clamped(entry_cut(x.entry, c)->0, -INF as int, INF as int) as i32,
            ) && at == x.raced
        } else {
            after_corridor::<H>(
                x,
                at,
                c,
                verdict,
                if pruning::futile(
                    c.depth,
                    c.alpha as int,
                    c.beta as int,
                    x.ev as int,
                    improving,
                    b.cfg.ace_rfp,
                    b.cfg.ace_rfp_max_depth as int,
                ) {
                    NodeVerdict::Done(x.ev)
                } else {
                    NodeVerdict::Search(entry_move(x.entry), x.ev, improving)
                },
            )
        }
    }
}

/// The verdict on a node that its entry leaves open.
pub open spec fn judged<H: SearchHost>(
    b: TitaniumSearch,
    at: TitaniumSearch,
    c: Asked,
    verdict: NodeVerdict,
) -> bool {
    exists|x: Judged| #[trigger] judged_by::<H>(b, at, Asked { allow_null: true, ..c }, verdict, x)
}

/// A verdict with its grounds.
pub proof fn lemma_judged<H: SearchHost>(
    b: TitaniumSearch,
    at: TitaniumSearch,
    c: Asked,
    verdict: NodeVerdict,
    x: Judged,
)
    requires
        c.allow_null,
        judgement::<H>(b, at, c, verdict, x),
    ensures
        judged::<H>(b, at, c, verdict),
{
    reveal(judged_by);
    assert(judged_by::<H>(b, at, Asked { allow_null: true, ..c }, verdict, x));
}

/// The verdict does not depend on whether a pass is allowed.
pub proof fn lemma_judged_asked<H: SearchHost>(b: TitaniumSearch, at: TitaniumSearch, c: Asked, verdict: NodeVerdict)
    requires
        judged::<H>(b, at, (Asked { allow_null: true, ..c }), verdict),
    ensures
        judged::<H>(b, at, c, verdict),
{
}

/// Switches of the plans.
pub open spec fn plan_switches(cfg: SearchConfig) -> PlanSwitches {
    PlanSwitches {
        multipv: cfg.multipv,
        eme: cfg.eme,
        cat_lmr_v16: cfg.cat_lmr_v16,
        gate: cfg.lmr_gate,
    }
}

/// Request of a child's search.
pub open spec fn child_asked(c: Asked, m: i16, depth: int, lo: int, hi: int) -> Asked {
    Asked {
        depth,
        alpha: lo as i32,
        beta: hi as i32,
        ply: c.ply + 1,
        allow_null: true,
        prev_move: m,
        q_left: c.q_left,
    }
}

/// The searches of a child follow its plan: one with the plan's depth and window, or a null
/// window first, shallower where the plan reduces, and the whole window where that fails.
#[verifier::opaque]
pub open spec fn calls_follow<H: SearchHost>(
    child: ChildCall,
    c: Asked,
    start: TitaniumSearch,
    calls: Seq<Call>,
    score: int,
) -> bool {
    let nd = c.depth - 1;
    let m = child.m;
    let alpha = child.alpha;
    let beta = c.beta;
    &&& 1 <= calls.len() <= 2
    &&& score == -calls.last().value
    &&& linked(start, calls[0].before, c.ply)
    &&& match child.plan {
        ChildPlan::Open => calls.len() == 1 && calls[0].asked == child_asked(
            c,
            m,
            nd,
            -INF as int,
            INF as int,
        ),
        ChildPlan::Extended(ext) => calls.len() == 1 && calls[0].asked == child_asked(
            c,
            m,
            nd + ext,
            -beta as int,
            -alpha as int,
        ),
        ChildPlan::Window => calls.len() == 1 && calls[0].asked == child_asked(
            c,
            m,
            nd,
            -beta as int,
            -alpha as int,
        ),
        _ => {
            &&& exists|r: FirstDepth| #[trigger]
                search::first_chosen::<H>(start, child, r) && scouted(child, c, r, calls)
            &&& calls.len() == 2 ==> calls[1].asked == child_asked(
                c,
                m,
                nd,
                -beta as int,
                -alpha as int,
            ) && linked(calls[0].after, calls[1].before, c.ply)
        },
    }
}

/// The null window comes first, to the chosen depth; whether another search is due goes by
/// the plan, which is a scout's where nothing is taken off.
pub open spec fn scouted(child: ChildCall, c: Asked, r: FirstDepth, calls: Seq<Call>) -> bool {
    let (first, plan) = match r.depth {
        Some(d) => (d as int, child.plan),
        None => (c.depth - 1, ChildPlan::Scout),
    };
    &&& calls[0].asked == child_asked(c, child.m, first, -child.alpha - 1, -child.alpha as int)
    &&& (calls.len() == 2) == pruning::wants_research(
        plan,
        -calls[0].value,
        child.alpha as int,
        c.beta as int,
    )
}

/// The call that searches the move `v` of a node: its plan, its place, its heat, and the
/// race as it stands before the move.
pub open spec fn is_child_call(
    child: ChildCall,
    c: Asked,
    tt_move: i16,
    heat: Heat,
    v: Visit,
    now: TitaniumSearch,
) -> bool {
    let p = now.g@;
    &&& child.plan == pruning::child_plan(
        plan_switches(now.cfg),
        v.place,
        c.depth,
        c.ply,
        v.m as int,
        tt_move as int,
    )
    &&& child.i == v.place
    &&& child.m == v.m
    &&& child.depth == c.depth
    &&& child.alpha == v.alpha
    &&& child.beta == c.beta
    &&& child.ply == c.ply
    &&& child.q_left == c.q_left
    &&& child.heat == heat.by_id@[v.m as int]
    &&& child.max_heat == heat.max_wall
    &&& child.mover == p.turn
    &&& child.pre0 == board::goal_distance(p.w, 0, p.p0)
    &&& child.pre1 == board::goal_distance(p.w, 1, p.p1)
}

/// A child was searched by its plan, from the node and back to it.
#[verifier::opaque]
pub open spec fn step_ok<H: SearchHost>(
    c: Asked,
    tt_move: i16,
    heat: Heat,
    v: Visit,
    s: Step,
) -> bool {
    let last = s.calls.last().after;
    &&& s.start.g@ == game::played(s.now.g@, v.m as int)
    &&& same_knowledge(s.start, s.now)
    &&& s.start.nodes == s.now.nodes
    &&& same_line(s.start, s.now, c.ply)
    &&& s.start.probe == s.now.probe
    &&& is_child_call(s.child, c, tt_move, heat, v, s.now)
    &&& calls_follow::<H>(s.child, c, s.start, s.calls, v.score as int)
    &&& same_knowledge(s.end, last)
    &&& s.end.nodes == last.nodes
    &&& s.end.g@ == s.now.g@
    &&& same_line(s.end, s.now, c.ply)
    &&& s.end.windows@[c.ply] == pruning::merged(
        s.now.windows@[c.ply],
        last.windows@[c.ply + 1],
    )
}

/// Whether an equal score is preferred is no part of the search.
pub proof fn lemma_step_by_visit<H: SearchHost>(
    c: Asked,
    tt_move: i16,
    heat: Heat,
    v: Visit,
    u: Visit,
    s: Step,
)
    requires
        step_ok::<H>(c, tt_move, heat, v, s),
        u == (Visit { prefer: u.prefer, ..v }),
    ensures
        step_ok::<H>(c, tt_move, heat, u, s),
{
    reveal(step_ok);
}

/// The searcher before child `k`.
pub open spec fn before_step(o: TitaniumSearch, steps: Seq<Step>, k: int) -> TitaniumSearch {
    if k <= 0 {
        o
    } else {
        steps[k - 1].end
    }
}

/// Child `k` was searched by its plan, from where the one before it ended.
#[verifier::opaque]
pub open spec fn step_at<H: SearchHost>(
    o: TitaniumSearch,
    c: Asked,
    tt_move: i16,
    heat: Heat,
    visits: Seq<Visit>,
    steps: Seq<Step>,
    k: int,
) -> bool {
    &&& step_ok::<H>(c, tt_move, heat, visits[k], steps[k])
    &&& linked_node(before_step(o, steps, k), steps[k].now, c.ply)
}

/// Every child was searched by its plan, each from where the one before it ended.
#[verifier::opaque]
pub open spec fn steps_ok<H: SearchHost>(
    o: TitaniumSearch,
    c: Asked,
    tt_move: i16,
    heat: Heat,
    visits: Seq<Visit>,
    steps: Seq<Step>,
) -> bool {
    &&& visits.len() == steps.len()
    &&& forall|k: int|
        0 <= k < steps.len() ==> #[trigger] step_at::<H>(o, c, tt_move, heat, visits, steps, k)
}

/// The search is one the node makes.
pub open spec fn is_step_call(steps: Seq<Step>, k: Call) -> bool {
    exists|i: int, j: int|
        0 <= i < steps.len() && 0 <= j < steps[i].calls.len() && #[trigger] steps[i].calls[j] == k
}

/// A request below another: a ply on, with fewer extensions, or shallower.
pub open spec fn is_below(k: Asked, c: Asked) -> bool {
    &&& 0 <= k.ply <= MAX_PLY
    &&& {
        ||| k.ply > c.ply
        ||| k.ply == c.ply && 0 <= k.q_left < c.q_left
        ||| k.ply == c.ply && k.q_left == c.q_left && 0 <= k.depth < c.depth
    }
}

/// Every search of the children is a result.
#[verifier::opaque]
pub open spec fn step_calls_hold<H: SearchHost>(steps: Seq<Step>, c: Asked) -> bool {
    forall|k: Call| #[trigger]
        is_step_call(steps, k) ==> is_below(k.asked, c) && is_result::<H>(
            k.before,
            k.after,
            k.asked,
            k.value,
        )
}

/// What a probe and a pass came to: each is made where its rule opens it, and `o` is the
/// searcher afterwards.
#[verifier::opaque]
pub open spec fn shortcuts_follow(
    at: TitaniumSearch,
    o: TitaniumSearch,
    c: Asked,
    ev: int,
    probe: Option<Call>,
    pass: Option<Call>,
) -> bool {
    let mid = match probe {
        Some(k) => k.after,
        None => at,
    };
    &&& (probe is Some) == (at.cfg.probcut && pruning::probcut_open(
        c.depth,
        c.alpha as int,
        c.beta as int,
        c.ply,
        c.allow_null,
        ev,
    ))
    &&& probe matches Some(k) ==> k.before == at && k.asked == (Asked {
        depth: c.depth - pruning::PROBCUT_REDUCTION,
        alpha: (c.beta - 1) as i32,
        allow_null: false,
        ..c
    })
    &&& o.g@ == at.g@
    &&& c.ply == 0 ==> search::same_root(o, at)
    &&& if probe_cuts(probe, c.beta as int) {
        pass is None && o == mid
    } else {
        &&& (pass is Some) == pruning::null_open(
            c.depth,
            c.ply,
            c.allow_null,
            ev,
            c.beta as int,
        )
        &&& match pass {
            Some(k) => {
                &&& k.before.g@ == game::passed(at.g@)
                &&& same_knowledge(k.before, mid)
                &&& k.before.nodes == mid.nodes
                &&& same_line(k.before, mid, c.ply)
                &&& k.asked == pass_asked(c)
                &&& same_knowledge(o, k.after)
                &&& o.nodes == k.after.nodes
                &&& same_line(o, mid, c.ply)
                &&& o.windows@[c.ply] == pruning::merged(
                    mid.windows@[c.ply],
                    k.after.windows@[c.ply + 1],
                )
            },
            None => linked_node(mid, o, c.ply),
        }
    }
}

/// Request of the search after a pass.
pub open spec fn pass_asked(c: Asked) -> Asked {
    Asked {
        depth: c.depth - 3,
        alpha: (-c.beta) as i32,
        beta: (-c.beta + 1) as i32,
        ply: c.ply + 1,
        allow_null: false,
        prev_move: 0,
        q_left: c.q_left,
    }
}

pub open spec fn probe_cuts(probe: Option<Call>, beta: int) -> bool {
    probe matches Some(k) && k.value >= beta
}

pub open spec fn pass_cuts(pass: Option<Call>, beta: int) -> bool {
    pass matches Some(k) && pruning::null_cut(-k.value, beta)
}

/// Reply remembered against the last move.
pub open spec fn reply_to(h: History, prev_move: i16) -> int {
    if prev_move >= 0 {
        h.cm@[prev_move as int] as int
    } else {
        0
    }
}

/// Walls that the relevance filter lets through, where it is asked.
pub open spec fn relevance_told<H: SearchHost>(o: TitaniumSearch, c: Asked, relevant: Seq<bool>) -> bool {
    if o.cfg.cat_walls && c.ply > 0 {
        exists|h: H| #[trigger] h.relevant_of(o.g@, c.depth) == relevant
    } else {
        relevant.len() == 0
    }
}

/// Heat counts at the node: reductions are shaped by it, not at the frontier, and there are
/// moves.
pub open spec fn heat_counts(o: TitaniumSearch, c: Asked, all: Seq<i16>) -> bool {
    o.cfg.cat_lmr_v16 && c.depth >= 2 && all.len() > 0
}

/// Impact heat, where it counts.
pub open spec fn impact_told<H: SearchHost>(
    o: TitaniumSearch,
    c: Asked,
    all: Seq<i16>,
    base: Seq<i32>,
) -> bool {
    if heat_counts(o, c, all) {
        exists|h: H| #[trigger] h.heat_of(o.g@) == base
    } else {
        base.len() == 0
    }
}

/// Walls next to a shortest route, where they are asked for.
pub open spec fn touches_told(o: TitaniumSearch, c: Asked, all: Seq<i16>, touch: Seq<bool>) -> bool {
    if heat_counts(o, c, all) && o.cfg.route_touch_ordering {
        touch.len() == 256 && forall|m: int|
            0 <= m < 256 ==> #[trigger] touch[m] == (moves::wall_id(m) && (routes::touches_route_of(
                o.g@,
                0,
                m,
            ) || routes::touches_route_of(o.g@, 1, m)))
    } else {
        touch.len() == 0
    }
}

/// The move is denied, or not, as the book says.
pub open spec fn denial_told<H: SearchHost>(p: game::Position, m: i16, denied: bool) -> bool {
    exists|h: H| #[trigger] h.denies(p, m) == denied
}

/// The book's hints: order and weight as the searcher keeps them, and at the root the moves
/// that the book denies.
pub open spec fn book_told<H: SearchHost>(o: TitaniumSearch, c: Asked, all: Seq<i16>, book: BookHints) -> bool {
    &&& book.order@ == o.book_order@
    &&& book.attention@ == o.book_attention@
    &&& c.ply == 0 ==> book.denied@.len() == all.len() && forall|i: int|
        0 <= i < all.len() ==> denial_told::<H>(o.g@, all[i], #[trigger] book.denied@[i])
}

/// What the surroundings said of a node's moves.
pub struct Hints {
    pub relevant: Seq<bool>,
    pub base: Seq<i32>,
    pub touch: Seq<bool>,
    pub book: BookHints,
}

/// `list` holds the generated moves, best first, and `heat` their heat. The surroundings
/// answer for relevance, heat and the moves the book denies, each only where it is asked.
pub open spec fn lists_in_order<H: SearchHost>(
    o: TitaniumSearch,
    c: Asked,
    tt_move: i16,
    list: Seq<i16>,
    heat: Heat,
    x: Hints,
) -> bool {
    let all = movegen::generated(
        o.g@,
        c.ply == 0,
        movegen::policy_of(o.cfg.ti_movegen, o.cfg.cat_walls, o.cfg.dead_zone_prune),
        x.relevant,
        tt_move as int,
    );
    let prior = if heat_counts(o, c, all) && heat.max_move > 0 {
        Some((heat.by_id@, heat.max_move))
    } else {
        None
    };
    &&& relevance_told::<H>(o, c, x.relevant)
    &&& impact_told::<H>(o, c, all, x.base)
    &&& touches_told(o, c, all, x.touch)
    &&& ordering::is_heat(x.base, x.touch, all, heat)
    &&& book_told::<H>(o, c, all, x.book)
    &&& ordering::same_moves(all, list)
    &&& ordering::ordered_by(
        all,
        ordering::final_scores(
            ordering::plain_scores(
                o.hist,
                routes::field_of(o.g@.w, o.g@.turn),
                o.g@.turn,
                c.ply,
                all,
                tt_move as int,
                reply_to(o.hist, c.prev_move),
                c.prev_move as int,
                prior,
            ),
            all,
            c.ply,
            x.book,
        ),
        list,
    )
}

/// `list` is the node's list of moves, in order, and `heat` their heat.
#[verifier::opaque]
pub open spec fn is_list<H: SearchHost>(
    o: TitaniumSearch,
    c: Asked,
    tt_move: i16,
    list: Seq<i16>,
    heat: Heat,
) -> bool {
    exists|x: Hints| #[trigger] lists_in_order::<H>(o, c, tt_move, list, heat, x)
}

/// The moves searched: the list, or at the root the worker's share.
pub open spec fn worker_list(o: TitaniumSearch, ply: int, list: Seq<i16>) -> Seq<i16> {
    if ply == 0 && o.lazy.moves is Some {
        let all = o.lazy.moves->0@;
        all.take(num::smaller(o.lazy.allowed as int, all.len() as int))
    } else {
        list
    }
}

/// What the searched moves come to.
pub open spec fn node_state(c: Asked, visits: Seq<Visit>) -> NodeState {
    pruning::absorbed_all(pruning::node_start(c.alpha), visits, c.beta as int)
}

/// The walls tried so far, or the pawn moves.
pub open spec fn tried(visits: Seq<Visit>, walls: bool) -> Seq<i16>
    decreases visits.len(),
{
    if visits.len() == 0 {
        Seq::empty()
    } else {
        let before = tried(visits.drop_last(), walls);
        let m = visits.last().m;
        if moves::wall_id(m as int) == walls {
            before.push(m)
        } else {
            before
        }
    }
}

/// One move more.
pub proof fn lemma_tried_push(visits: Seq<Visit>, v: Visit, walls: bool)
    ensures
        tried(visits.push(v), walls) == if moves::wall_id(v.m as int) == walls {
            tried(visits, walls).push(v.m)
        } else {
            tried(visits, walls)
        },
{
    assert(visits.push(v).drop_last() =~= visits);
}

/// The node was cut.
pub open spec fn was_cut(c: Asked, visits: Seq<Visit>) -> bool {
    node_state(c, visits).best matches Some(b) && b >= c.beta
}

/// `end` is the searcher after the moves: `x`, which a cutoff teaches its statistics.
pub open spec fn cutoff_taught(
    x: TitaniumSearch,
    end: TitaniumSearch,
    c: Asked,
    visits: Seq<Visit>,
) -> bool {
    if was_cut(c, visits) {
        visits.len() > 0 && search::cutoff_learned(
            x,
            end,
            c.ply,
            visits.last().m,
            c.prev_move,
            c.depth,
            tried(visits, true),
            tried(visits, false),
        )
    } else {
        end == x
    }
}

/// The searcher after the moves, from where the last of them ended.
#[verifier::opaque]
pub open spec fn node_left(
    last: TitaniumSearch,
    end: TitaniumSearch,
    c: Asked,
    visits: Seq<Visit>,
) -> bool {
    exists|x: TitaniumSearch| #[trigger]
        linked_node(last, x, c.ply) && cutoff_taught(x, end, c, visits)
}

pub proof fn lemma_node_left(
    last: TitaniumSearch,
    x: TitaniumSearch,
    end: TitaniumSearch,
    c: Asked,
    visits: Seq<Visit>,
)
    requires
        linked_node(last, x, c.ply),
        cutoff_taught(x, end, c, visits),
    ensures
        node_left(last, end, c, visits),
{
    reveal(node_left);
}

/// The moves of a node were searched in order, each by its plan and from where the one before
/// it ended; those passed over were passed over by rule.
#[verifier::opaque]
pub open spec fn moves_follow<H: SearchHost>(
    o: TitaniumSearch,
    c: Asked,
    tt_move: i16,
    improving: bool,
    heat: Heat,
    ms: Seq<i16>,
    rec: NodeRecord,
    steps: Seq<Step>,
) -> bool {
    &&& search::record_ok(o, c, improving, tt_move, ms, rec, steps)
    &&& pruning::prefers_equals(pruning::node_start(c.alpha), rec.visits, c.beta as int)
    &&& pruning::windows_follow(pruning::node_start(c.alpha), rec.visits, c.beta as int)
    &&& steps_ok::<H>(o, c, tt_move, heat, rec.visits, steps)
    // Of equal moves at the root one that repeats gives way.
    &&& forall|k: int|
        0 <= k < rec.visits.len() ==> (#[trigger] rec.visits[k]).prefer == search::prefers_move(
            o.g@,
            c.ply,
            node_state(c, rec.visits.take(k)),
            rec.visits[k].score,
            rec.visits[k].m,
        )
}

/// The search of the root's moves was broken off: some were searched to the end, none of them
/// cut, and what is known of the root is what those come to.
#[verifier::opaque]
pub open spec fn list_broken<H: SearchHost>(
    o: TitaniumSearch,
    a: TitaniumSearch,
    c: Asked,
    tt_move: i16,
    improving: bool,
    heat: Heat,
    ms: Seq<i16>,
    rec: NodeRecord,
    steps: Seq<Step>,
) -> bool {
    &&& moves_follow::<H>(o, c, tt_move, improving, heat, ms, rec, steps)
    &&& step_calls_hold::<H>(steps, c)
    &&& rec.reached < ms.len()
    &&& !was_cut(c, rec.visits)
    &&& search::root_follows(o, a, c.alpha, c.beta, rec.visits)
}

/// Some of the root's moves were searched, and the search was then broken off.
pub open spec fn list_broken_off<H: SearchHost>(
    o: TitaniumSearch,
    a: TitaniumSearch,
    c: Asked,
    tt_move: i16,
    improving: bool,
    heat: Heat,
    ms: Seq<i16>,
) -> bool {
    exists|rec: NodeRecord, steps: Seq<Step>| #[trigger]
        list_broken::<H>(o, a, c, tt_move, improving, heat, ms, rec, steps)
}

/// The root was judged, its moves were listed, and their search was broken off.
#[verifier::opaque]
pub open spec fn root_broken<H: SearchHost>(
    b: TitaniumSearch,
    a: TitaniumSearch,
    c: Asked,
    t: Trace,
) -> bool {
    &&& judged::<H>(b, t.at, c, t.verdict)
    &&& t.verdict matches NodeVerdict::Search(tt_move, ev, improving) && {
        &&& shortcuts_follow(t.at, t.opened, c, ev as int, t.probe, t.pass)
        &&& is_list::<H>(t.opened, c, tt_move, t.list, t.heat)
        &&& list_broken_off::<H>(
            t.opened,
            a,
            c,
            tt_move,
            improving,
            t.heat,
            worker_list(t.opened, c.ply, t.list),
        )
    }
}

/// A search of the root that time cut short: no move was searched to the end, or what is
/// known of the root is what the moves searched to the end come to.
pub open spec fn broken_off<H: SearchHost>(b: TitaniumSearch, a: TitaniumSearch, c: Asked) -> bool {
    search::same_root(a, b) || exists|t: Trace| #[trigger] root_broken::<H>(b, a, c, t)
}

/// A root whose moves were broken off.
pub proof fn lemma_root_broken<H: SearchHost>(
    b: TitaniumSearch,
    at: TitaniumSearch,
    o: TitaniumSearch,
    a: TitaniumSearch,
    c: Asked,
    verdict: NodeVerdict,
    probe: Option<Call>,
    pass: Option<Call>,
    list: Seq<i16>,
    heat: Heat,
)
    requires
        judged::<H>(b, at, c, verdict),
        verdict is Search,
        shortcuts_follow(at, o, c, verdict->Search_1 as int, probe, pass),
        is_list::<H>(o, c, verdict->Search_0, list, heat),
        list_broken_off::<H>(
            o,
            a,
            c,
            verdict->Search_0,
            verdict->Search_2,
            heat,
            worker_list(o, c.ply, list),
        ),
    ensures
        broken_off::<H>(b, a, c),
{
    let t = Trace { probe, pass, opened: o, list, heat, ..plain_trace(at, verdict) };
    assert(root_broken::<H>(b, a, c, t)) by {
        reveal(root_broken);
    }
}

/// After a search that time cut short, the root's best move is the one it had, or one whose
/// search was completed, with the score it came to.
pub proof fn law_cut_short_answers_a_completed_move<H: SearchHost>(
    b: TitaniumSearch,
    a: TitaniumSearch,
    c: Asked,
)
    requires
        broken_off::<H>(b, a, c),
        c.ply == 0,
    ensures
        (a.root_best, a.root_score) == (b.root_best, b.root_score) || exists|v: Visit, k: Step, tt_move: i16, heat: Heat|
            #[trigger] step_ok::<H>(c, tt_move, heat, v, k) && a.root_best == v.m && a.root_score == v.score,
{
    if !search::same_root(a, b) {
        let t = choose|t: Trace| #[trigger] root_broken::<H>(b, a, c, t);
        reveal(root_broken);
        let tt_move = t.verdict->Search_0;
        let improving = t.verdict->Search_2;
        let ms = worker_list(t.opened, c.ply, t.list);
        let (rec, steps) = choose|rec: NodeRecord, steps: Seq<Step>| #[trigger]
            list_broken::<H>(t.opened, a, c, tt_move, improving, t.heat, ms, rec, steps);
        reveal(list_broken);
        reveal(moves_follow);
        reveal(shortcuts_follow);
        lemma_judged_root::<H>(b, t.at, c, t.verdict);
        search::lemma_root_follows_a_visit(t.opened, a, c.alpha, c.beta, rec.visits);
        if (a.root_best, a.root_score) != (t.opened.root_best, t.opened.root_score) {
            let j = choose|j: int|
                0 <= j < rec.visits.len() && (#[trigger] rec.visits[j]).m == a.root_best
                    && rec.visits[j].score == a.root_score;
            reveal(steps_ok);
            reveal(step_at);
            assert(step_at::<H>(t.opened, c, tt_move, t.heat, rec.visits, steps, j));
            assert(step_ok::<H>(c, tt_move, t.heat, rec.visits[j], steps[j]));
        }
    }
}

/// A verdict leaves what is known of the root alone.
proof fn lemma_judged_root<H: SearchHost>(b: TitaniumSearch, at: TitaniumSearch, c: Asked, verdict: NodeVerdict)
    requires
        judged::<H>(b, at, c, verdict),
    ensures
        search::same_root(at, b),
{
    reveal(judged_by);
}

/// The moves of a node were searched and stored, and come to `v`; where all were passed
/// over, the node is worth its evaluation.
#[verifier::opaque]
pub open spec fn list_follows<H: SearchHost>(
    o: TitaniumSearch,
    a: TitaniumSearch,
    c: Asked,
    tt_move: i16,
    ev: i32,
    improving: bool,
    heat: Heat,
    ms: Seq<i16>,
    rec: NodeRecord,
    steps: Seq<Step>,
    end: TitaniumSearch,
    v: int,
) -> bool {
    let state = node_state(c, rec.visits);
    &&& moves_follow::<H>(o, c, tt_move, improving, heat, ms, rec, steps)
    &&& rec.reached == ms.len() || (state.best is Some && state.best->0 >= c.beta)
    &&& node_left(before_step(o, steps, steps.len() as int), end, c, rec.visits)
    // What is known of the root follows the searched moves.
    &&& c.ply == 0 ==> search::root_follows(o, end, c.alpha, c.beta, rec.visits)
    &&& match state.best {
        Some(w) => v == w && search::node_stored::<H>(end, a, c.ply, c.depth, state, ev as int)
            && a.nodes == end.nodes && a.g@ == end.g@,
        None => evaluated_to::<H>(end, a, c.depth, v),
    }
}

/// The rule of a node.
#[verifier::opaque]
pub open spec fn node_rule<H: SearchHost>(
    b: TitaniumSearch,
    a: TitaniumSearch,
    c: Asked,
    v: int,
    t: Trace,
) -> bool {
    &&& search::score_ok(v)
    // The clock let the node be.
    &&& search::time_checked::<H>(search::one_more(b.nodes), false)
    &&& match search::entry_score(b.g@, b.path@, c.ply) {
        // A finished game, a repetition, the end of the line.
        Some(e) => {
            &&& v == e
            &&& same_knowledge(a, b)
            &&& search::same_root(a, b)
            &&& a.nodes == search::one_more(b.nodes)
            &&& a.g@ == b.g@
        },
        None => {
            &&& 0 <= c.ply < MAX_PLY - 1
            &&& judged::<H>(b, t.at, c, t.verdict)
            &&& match t.verdict {
                NodeVerdict::Done(w) => v == w && a == t.at,
                NodeVerdict::Extend => c.q_left > 0 && t.extended == Some(
                    (Call {
                        before: t.at,
                        after: a,
                        asked: Asked { depth: 1, q_left: c.q_left - 1, ..c },
                        value: v,
                    }),
                ),
                NodeVerdict::Search(tt_move, ev, improving) => {
                    &&& shortcuts_follow(t.at, t.opened, c, ev as int, t.probe, t.pass)
                    &&& if probe_cuts(t.probe, c.beta as int) || pass_cuts(t.pass, c.beta as int) {
                        v == c.beta && a == t.opened
                    } else {
                        &&& is_list::<H>(t.opened, c, tt_move, t.list, t.heat)
                        &&& if t.list.len() == 0 {
                            evaluated_to::<H>(t.opened, a, c.depth, v)
                        } else {
                            list_follows::<H>(
                                t.opened,
                                a,
                                c,
                                tt_move,
                                ev,
                                improving,
                                t.heat,
                                worker_list(t.opened, c.ply, t.list),
                                t.rec,
                                t.steps,
                                t.end,
                                v,
                            )
                        }
                    }
                },
            }
        },
    }
}

/// The search is one of those made at a node.
pub open spec fn is_call(t: Trace, k: Call) -> bool {
    t.extended == Some(k) || t.probe == Some(k) || t.pass == Some(k) || is_step_call(t.steps, k)
}

/// `v` is the result of a search of `b` that left the searcher as `a`: the node follows its
/// rule, and so does every search it made.
#[verifier::opaque]
pub open spec fn is_result<H: SearchHost>(b: TitaniumSearch, a: TitaniumSearch, c: Asked, v: int) -> bool
    decreases MAX_PLY - c.ply, c.q_left, c.depth,
{
    exists|t: Trace| #[trigger]
        node_rule::<H>(b, a, c, v, t) && (forall|k: Call| #[trigger]
            is_call(t, k) ==> is_below(k.asked, c) && is_result::<H>(k.before, k.after, k.asked, k.value))
}

/// A trace whose searches are results makes a result.
pub proof fn lemma_result<H: SearchHost>(b: TitaniumSearch, a: TitaniumSearch, c: Asked, v: int, t: Trace)
    requires
        node_rule::<H>(b, a, c, v, t),
        forall|k: Call| #[trigger]
            is_call(t, k) ==> is_below(k.asked, c) && is_result::<H>(
                k.before,
                k.after,
                k.asked,
                k.value,
            ),
    ensures
        is_result::<H>(b, a, c, v),
{
    reveal_with_fuel(is_result, 2);
}

/// A result is an ordinary score, and the fixed score where the node has one.
pub proof fn law_result_is_a_score<H: SearchHost>(b: TitaniumSearch, a: TitaniumSearch, c: Asked, v: int)
    requires
        is_result::<H>(b, a, c, v),
    ensures
        search::score_ok(v),
        search::entry_score(b.g@, b.path@, c.ply) matches Some(e) ==> v == e,
{
    reveal_with_fuel(is_result, 2);
    reveal(node_rule);
}

/// Beyond the reach of races, an entry of the searcher's own table that meets depth and
/// window is the result, and the node is the only one searched.
pub proof fn law_own_entry_is_the_result<H: SearchHost>(b: TitaniumSearch, a: TitaniumSearch, c: Asked, v: int)
    requires
        is_result::<H>(b, a, c, v),
        search::entry_score(b.g@, b.path@, c.ply) is None,
        !search::race_is_asked(b.g@),
        !b.use_shared,
        c.depth > 0,
        search::own_table_cut(b, c.depth, c.alpha as int, c.beta as int, c.ply) is Some,
    ensures
        v == search::own_table_cut(b, c.depth, c.alpha as int, c.beta as int, c.ply)->0,
        a.nodes == search::one_more(b.nodes),
        a.table == b.table,
{
    reveal_with_fuel(is_result, 2);
    reveal(node_rule);
    reveal(judged_by);
}

/// Beyond the reach of races and corridors, a leaf without extensions is worth its
/// evaluation.
pub proof fn law_leaf_is_its_evaluation<H: SearchHost>(b: TitaniumSearch, a: TitaniumSearch, c: Asked, v: int)
    requires
        is_result::<H>(b, a, c, v),
        search::entry_score(b.g@, b.path@, c.ply) is None,
        !search::race_is_asked(b.g@),
        !b.asks_for_corridor(),
        c.depth <= 0,
        c.q_left == 0,
    ensures
        exists|x: TitaniumSearch| #[trigger]
            evaluated_to::<H>(x, a, c.depth, v) && x.g@ == b.g@ && same_knowledge(x, b),
{
    reveal_with_fuel(is_result, 2);
    reveal(node_rule);
    reveal(judged_by);
}

/// A trace without searches.
pub open spec fn plain_trace(at: TitaniumSearch, verdict: NodeVerdict) -> Trace {
    Trace {
        at,
        verdict,
        extended: None,
        probe: None,
        pass: None,
        opened: at,
        list: Seq::empty(),
        heat: arbitrary(),
        rec: NodeRecord { visits: Seq::empty(), reached: 0 },
        steps: Seq::empty(),
        end: at,
    }
}

/// A node with a fixed score.
pub proof fn lemma_entry_result<H: SearchHost>(b: TitaniumSearch, a: TitaniumSearch, c: Asked, v: int)
    requires
        search::time_checked::<H>(search::one_more(b.nodes), false),
        search::score_ok(v),
        search::entry_score(b.g@, b.path@, c.ply) == Some(v),
        same_knowledge(a, b),
        search::same_root(a, b),
        a.nodes == search::one_more(b.nodes),
        a.g@ == b.g@,
    ensures
        is_result::<H>(b, a, c, v),
{
    let t = plain_trace(b, NodeVerdict::Extend);
    assert(node_rule::<H>(b, a, c, v, t)) by {
        reveal(node_rule);
    }
    lemma_result::<H>(b, a, c, v, t);
}

/// A node that its verdict ends.
pub proof fn lemma_done_result<H: SearchHost>(b: TitaniumSearch, a: TitaniumSearch, c: Asked, v: i32)
    requires
        search::time_checked::<H>(search::one_more(b.nodes), false),
        search::score_ok(v as int),
        search::entry_score(b.g@, b.path@, c.ply) is None,
        0 <= c.ply < MAX_PLY - 1,
        judged::<H>(b, a, c, NodeVerdict::Done(v)),
    ensures
        is_result::<H>(b, a, c, v as int),
{
    let t = plain_trace(a, NodeVerdict::Done(v));
    assert(node_rule::<H>(b, a, c, v as int, t)) by {
        reveal(node_rule);
    }
    lemma_result::<H>(b, a, c, v as int, t);
}

/// A leaf looked at one ply deeper.
pub proof fn lemma_extended_result<H: SearchHost>(
    b: TitaniumSearch,
    at: TitaniumSearch,
    a: TitaniumSearch,
    c: Asked,
    v: int,
)
    requires
        search::time_checked::<H>(search::one_more(b.nodes), false),
        search::score_ok(v),
        search::entry_score(b.g@, b.path@, c.ply) is None,
        0 <= c.ply < MAX_PLY - 1,
        c.q_left > 0,
        judged::<H>(b, at, c, NodeVerdict::Extend),
        is_result::<H>(at, a, (Asked { depth: 1, q_left: c.q_left - 1, ..c }), v),
    ensures
        is_result::<H>(b, a, c, v),
{
    let k = Call {
        before: at,
        after: a,
        asked: Asked { depth: 1, q_left: c.q_left - 1, ..c },
        value: v,
    };
    let t = Trace { extended: Some(k), ..plain_trace(at, NodeVerdict::Extend) };
    assert(node_rule::<H>(b, a, c, v, t)) by {
        reveal(node_rule);
    }
    lemma_result::<H>(b, a, c, v, t);
}

/// The probe and the pass are results below the node.
pub open spec fn shortcut_calls_hold<H: SearchHost>(c: Asked, probe: Option<Call>, pass: Option<Call>) -> bool {
    &&& probe matches Some(k) ==> is_below(k.asked, c) && is_result::<H>(
        k.before,
        k.after,
        k.asked,
        k.value,
    )
    &&& pass matches Some(k) ==> is_below(k.asked, c) && is_result::<H>(
        k.before,
        k.after,
        k.asked,
        k.value,
    )
}

/// A node that a probe or a pass ends.
pub proof fn lemma_shortcut_result<H: SearchHost>(
    b: TitaniumSearch,
    at: TitaniumSearch,
    a: TitaniumSearch,
    c: Asked,
    verdict: NodeVerdict,
    probe: Option<Call>,
    pass: Option<Call>,
)
    requires
        search::time_checked::<H>(search::one_more(b.nodes), false),
        search::score_ok(c.beta as int),
        search::entry_score(b.g@, b.path@, c.ply) is None,
        0 <= c.ply < MAX_PLY - 1,
        judged::<H>(b, at, c, verdict),
        verdict is Search,
        shortcuts_follow(at, a, c, verdict->Search_1 as int, probe, pass),
        probe_cuts(probe, c.beta as int) || pass_cuts(pass, c.beta as int),
        shortcut_calls_hold::<H>(c, probe, pass),
    ensures
        is_result::<H>(b, a, c, c.beta as int),
{
    let t = Trace { probe, pass, opened: a, ..plain_trace(at, verdict) };
    let v = c.beta as int;
    assert(node_rule::<H>(b, a, c, v, t)) by {
        reveal(node_rule);
    }
    lemma_result::<H>(b, a, c, v, t);
}

/// A node without moves.
pub proof fn lemma_bare_result<H: SearchHost>(
    b: TitaniumSearch,
    at: TitaniumSearch,
    o: TitaniumSearch,
    a: TitaniumSearch,
    c: Asked,
    verdict: NodeVerdict,
    probe: Option<Call>,
    pass: Option<Call>,
    list: Seq<i16>,
    heat: Heat,
    v: int,
)
    requires
        search::time_checked::<H>(search::one_more(b.nodes), false),
        search::score_ok(v),
        search::entry_score(b.g@, b.path@, c.ply) is None,
        0 <= c.ply < MAX_PLY - 1,
        judged::<H>(b, at, c, verdict),
        verdict is Search,
        shortcuts_follow(at, o, c, verdict->Search_1 as int, probe, pass),
        !probe_cuts(probe, c.beta as int) && !pass_cuts(pass, c.beta as int),
        shortcut_calls_hold::<H>(c, probe, pass),
        is_list::<H>(o, c, verdict->Search_0, list, heat),
        list.len() == 0,
        evaluated_to::<H>(o, a, c.depth, v),
    ensures
        is_result::<H>(b, a, c, v),
{
    let t = Trace { probe, pass, opened: o, list, heat, ..plain_trace(at, verdict) };
    assert(node_rule::<H>(b, a, c, v, t)) by {
        reveal(node_rule);
    }
    lemma_result::<H>(b, a, c, v, t);
}

/// A node whose moves were searched.
pub proof fn lemma_moves_result<H: SearchHost>(
    b: TitaniumSearch,
    at: TitaniumSearch,
    o: TitaniumSearch,
    a: TitaniumSearch,
    c: Asked,
    verdict: NodeVerdict,
    probe: Option<Call>,
    pass: Option<Call>,
    list: Seq<i16>,
    heat: Heat,
    rec: NodeRecord,
    steps: Seq<Step>,
    end: TitaniumSearch,
    v: int,
)
    requires
        search::time_checked::<H>(search::one_more(b.nodes), false),
        search::score_ok(v),
        search::entry_score(b.g@, b.path@, c.ply) is None,
        0 <= c.ply < MAX_PLY - 1,
        judged::<H>(b, at, c, verdict),
        verdict is Search,
        shortcuts_follow(at, o, c, verdict->Search_1 as int, probe, pass),
        !probe_cuts(probe, c.beta as int) && !pass_cuts(pass, c.beta as int),
        shortcut_calls_hold::<H>(c, probe, pass),
        is_list::<H>(o, c, verdict->Search_0, list, heat),
        list.len() > 0,
        list_follows::<H>(
            o,
            a,
            c,
            verdict->Search_0,
            verdict->Search_1,
            verdict->Search_2,
            heat,
            worker_list(o, c.ply, list),
            rec,
            steps,
            end,
            v,
        ),
        step_calls_hold::<H>(steps, c),
    ensures
        is_result::<H>(b, a, c, v),
{
    let t = Trace {
        probe,
        pass,
        opened: o,
        list,
        heat,
        rec,
        steps,
        end,
        ..plain_trace(at, verdict)
    };
    assert(node_rule::<H>(b, a, c, v, t)) by {
        reveal(node_rule);
    }
    reveal(step_calls_hold);
    lemma_result::<H>(b, a, c, v, t);
}

/// No child yet.
pub proof fn lemma_no_steps<H: SearchHost>(o: TitaniumSearch, c: Asked, tt_move: i16, heat: Heat)
    ensures
        steps_ok::<H>(o, c, tt_move, heat, Seq::empty(), Seq::empty()),
        step_calls_hold::<H>(Seq::empty(), c),
{
    reveal(steps_ok);
    reveal(step_calls_hold);
}

/// The searches of one child are results.
#[verifier::opaque]
pub open spec fn calls_hold<H: SearchHost>(calls: Seq<Call>, c: Asked) -> bool {
    forall|j: int|
        0 <= j < calls.len() ==> is_below((#[trigger] calls[j]).asked, c) && is_result::<H>(
            calls[j].before,
            calls[j].after,
            calls[j].asked,
            calls[j].value,
        )
}

/// One search is a result, or two.
pub proof fn lemma_calls_hold<H: SearchHost>(a: Call, b: Call, c: Asked)
    requires
        is_below(a.asked, c),
        is_result::<H>(a.before, a.after, a.asked, a.value),
    ensures
        calls_hold::<H>(seq![a], c),
        is_below(b.asked, c) && is_result::<H>(b.before, b.after, b.asked, b.value) ==> calls_hold::<H>(
            seq![a, b],
            c,
        ),
{
    reveal(calls_hold);
}

/// One child more keeps the order of the steps.
proof fn lemma_steps_push<H: SearchHost>(
    o: TitaniumSearch,
    c: Asked,
    tt_move: i16,
    heat: Heat,
    visits: Seq<Visit>,
    steps: Seq<Step>,
    v: Visit,
    s: Step,
)
    requires
        steps_ok::<H>(o, c, tt_move, heat, visits, steps),
        step_ok::<H>(c, tt_move, heat, v, s),
        linked_node(before_step(o, steps, steps.len() as int), s.now, c.ply),
    ensures
        steps_ok::<H>(o, c, tt_move, heat, visits.push(v), steps.push(s)),
{
    reveal(steps_ok);
    let all = steps.push(s);
    let vs = visits.push(v);
    assert forall|k: int| 0 <= k < all.len() implies #[trigger] step_at::<H>(o, c, tt_move, heat, vs, all, k) by {
        reveal(step_at);
        assert(before_step(o, all, k) == before_step(o, steps, k));
        if k < steps.len() {
            assert(step_at::<H>(o, c, tt_move, heat, visits, steps, k));
            assert(all[k] == steps[k]);
            assert(vs[k] == visits[k]);
        }
    }
}

/// The searches of one child more are results.
proof fn lemma_calls_push<H: SearchHost>(c: Asked, steps: Seq<Step>, s: Step)
    requires
        step_calls_hold::<H>(steps, c),
        calls_hold::<H>(s.calls, c),
    ensures
        step_calls_hold::<H>(steps.push(s), c),
{
    reveal(step_calls_hold);
    reveal(calls_hold);
    let all = steps.push(s);
    assert forall|k: Call| #[trigger] is_step_call(all, k) implies is_below(k.asked, c) && is_result::<H>(
        k.before,
        k.after,
        k.asked,
        k.value,
    ) by {
        let (i, j) = choose|i: int, j: int|
            0 <= i < all.len() && 0 <= j < all[i].calls.len() && #[trigger] all[i].calls[j] == k;
        if i < steps.len() {
            assert(all[i] == steps[i]);
            assert(steps[i].calls[j] == k);
            assert(is_step_call(steps, k));
        } else {
            assert(all[i] == s);
            assert(s.calls[j] == k);
        }
    }
}

/// One child more.
pub proof fn lemma_one_more_step<H: SearchHost>(
    o: TitaniumSearch,
    c: Asked,
    tt_move: i16,
    heat: Heat,
    visits: Seq<Visit>,
    steps: Seq<Step>,
    v: Visit,
    s: Step,
)
    requires
        steps_ok::<H>(o, c, tt_move, heat, visits, steps),
        step_calls_hold::<H>(steps, c),
        step_ok::<H>(c, tt_move, heat, v, s),
        linked_node(before_step(o, steps, steps.len() as int), s.now, c.ply),
        calls_hold::<H>(s.calls, c),
    ensures
        steps_ok::<H>(o, c, tt_move, heat, visits.push(v), steps.push(s)),
        step_calls_hold::<H>(steps.push(s), c),
        before_step(o, steps.push(s), steps.len() as int + 1) == s.end,
{
    lemma_steps_push::<H>(o, c, tt_move, heat, visits, steps, v, s);
    lemma_calls_push::<H>(c, steps, s);
}

} // verus!

//! One search shared between threads: what is handed to each worker, and how their answers
//! become one.

use crate::game;
use crate::history;
use crate::host::SearchHost;
use crate::lazy_smp;
use crate::lazy_smp::WorkerPlan;
use crate::movegen;
use crate::moves;
use crate::num;
use crate::ordering;
use crate::root_moves;
use crate::root_verify;
use crate::search;
use crate::search::TitaniumSearch;
use crate::think;
use crate::think::ThinkResult;
use crate::timing;
use crate::trace;
use crate::tt;
use vstd::prelude::*;

verus! {

/// How a search on several threads begins.
#[derive(Clone, Copy, Debug, PartialEq, Eq, Structural)]
pub enum PoolEntry {
    /// On one thread: the game is over, or there is nothing to share.
    Alone,
    /// The book's move, at once.
    Book,
    /// With helpers.
    Pool,
}

/// A finished game is answered alone, before the book is asked; the book's move comes next;
/// helpers are used where a plan shares the root among them.
pub fn pool_entry(over: bool, direct: Option<i16>, has_plan: bool) -> (e: PoolEntry)
    ensures
        e == if over {
            PoolEntry::Alone
        } else if direct is Some {
            PoolEntry::Book
        } else if has_plan {
            PoolEntry::Pool
        } else {
            PoolEntry::Alone
        },
{
    if over {
        PoolEntry::Alone
    } else if direct.is_some() {
        PoolEntry::Book
    } else if has_plan {
        PoolEntry::Pool
    } else {
        PoolEntry::Alone
    }
}

/// Work of the pool before it starts.
pub struct PoolPlan {
    /// Root moves, best first.
    pub root_moves: Vec<i16>,
    /// Root moves left to each worker by the heat filter.
    pub kept: Vec<Vec<i16>>,
    pub plans: Vec<WorkerPlan>,
}

/// A helper's answer counts: it finished a depth with a move of the root.
pub open spec fn helper_counts(r: ThinkResult, root: Seq<i16>) -> bool {
    r.depth > 0 && r.mv != -1 && root.contains(r.mv)
}

/// Ranks below: shallower, or as deep with fewer nodes.
pub open spec fn ranks_below(a: ThinkResult, b: ThinkResult) -> bool {
    a.depth < b.depth || (a.depth == b.depth && a.nodes < b.nodes)
}

/// Place of the helper to adopt: the deepest, then the one with most nodes, then the last.
pub open spec fn is_adopted(
    helpers: Seq<(usize, ThinkResult, Vec<usize>)>,
    root: Seq<i16>,
    i: int,
) -> bool {
    &&& 0 <= i < helpers.len()
    &&& helper_counts(helpers[i].1, root)
    &&& forall|j: int|
        0 <= j < i && helper_counts((#[trigger] helpers[j]).1, root) ==> !ranks_below(
            helpers[i].1,
            helpers[j].1,
        )
    &&& forall|j: int|
        i < j < helpers.len() && helper_counts((#[trigger] helpers[j]).1, root) ==> ranks_below(
            helpers[j].1,
            helpers[i].1,
        )
}

fn has_move(ms: &[i16], m: i16) -> (yes: bool)
    ensures
        yes == ms@.contains(m),
{
    let mut i: usize = 0;
    while i < ms.len()
        invariant
            i <= ms@.len(),
            forall|k: int| 0 <= k < i ==> ms@[k] != m,
        decreases ms@.len() - i,
    {
        if ms[i] == m {
            assert(ms@[i as int] == m);
            return true;
        }
        i += 1;
    }
    false
}

/// Place of the helper to adopt when the main worker has nothing.
fn adopted_place(
    main_result: &ThinkResult,
    helpers: &[(usize, ThinkResult, Vec<usize>)],
    root_moves: &[i16],
) -> (r: Option<usize>)
    ensures
        main_result.depth > 0 && main_result.mv != -1 ==> r is None,
        !(main_result.depth > 0 && main_result.mv != -1) ==> match r {
            Some(i) => is_adopted(helpers@, root_moves@, i as int),
            None => forall|j: int|
                0 <= j < helpers@.len() ==> !helper_counts(
                    (#[trigger] helpers@[j]).1,
                    root_moves@,
                ),
        },
{
    if main_result.depth > 0 && main_result.mv != moves::TITANIUM_NO_MOVE {
        return None;
    }
    let n: usize = helpers.len();
    let mut best: Option<usize> = None;
    let mut i: usize = 0;
    while i < n
        invariant
            i <= n,
            n == helpers@.len(),
            match best {
                Some(b) => b < i && helper_counts(helpers@[b as int].1, root_moves@) && (forall|
                    j: int,
                |
                    0 <= j < b && helper_counts((#[trigger] helpers@[j]).1, root_moves@)
                        ==> !ranks_below(helpers@[b as int].1, helpers@[j].1)) && (forall|j: int|
                    b < j < i && helper_counts((#[trigger] helpers@[j]).1, root_moves@)
                        ==> ranks_below(helpers@[j].1, helpers@[b as int].1)),
                None => forall|j: int|
                    0 <= j < i ==> !helper_counts((#[trigger] helpers@[j]).1, root_moves@),
            },
        decreases n - i,
    {
        let r = &helpers[i].1;
        if r.depth > 0 && r.mv != moves::TITANIUM_NO_MOVE && has_move(root_moves, r.mv) {
            match best {
                None => {
                    best = Some(i);
                },
                Some(b) => {
                    let c = &helpers[b].1;
                    if !(r.depth < c.depth || (r.depth == c.depth && r.nodes < c.nodes)) {
                        best = Some(i);
                    }
                },
            }
        }
        i += 1;
    }
    best
}

impl TitaniumSearch {
    /// The helper answer to adopt; only where the main worker has no move of its own.
    pub fn lazy_smp_helper_partial<'a>(
        main_result: &ThinkResult,
        helper_results: &'a [(usize, ThinkResult, Vec<usize>)],
        root_moves_raw: &[i16],
    ) -> (r: Option<&'a ThinkResult>)
        ensures
            main_result.depth > 0 && main_result.mv != -1 ==> r is None,
            !(main_result.depth > 0 && main_result.mv != -1) ==> match r {
                Some(h) => exists|i: int|
                    is_adopted(helper_results@, root_moves_raw@, i) && *h == (
                    #[trigger] helper_results@[i]).1,
                None => forall|j: int|
                    0 <= j < helper_results@.len() ==> !helper_counts(
                        (#[trigger] helper_results@[j]).1,
                        root_moves_raw@,
                    ),
            },
    {
        match adopted_place(main_result, helper_results, root_moves_raw) {
            Some(i) => {
                let h = &helper_results[i].1;
                assert(*h == helper_results@[i as int].1);
                Some(h)
            },
            None => None,
        }
    }

    /// Root moves, best first, without the denied ones.
    pub fn ordered_root_moves_snapshot<H: SearchHost>(&mut self, host: &mut H) -> (out: Vec<i16>)
        requires
            old(self).ready(0),
        ensures
            final(self).ready(0),
            final(self).keeps(old(self), 0),
            final(self).use_shared == old(self).use_shared,
            final(self).hist == old(self).hist,
            final(self).table == old(self).table,
            movegen::all_playable(old(self).g@, out@),
            forall|i: int|
                0 <= i < out@.len() ==> think::legal_moves(old(self).g@).contains(#[trigger] out@[i]),
            // Every legal move but those the book denies, ordered behind the table's move.
            exists|hint: i16| #[trigger]
                root_moves::root_list_of::<H>(*old(self), old(self).hist, hint as int, out@)
                    && hint_told::<H>(*old(self), hint) && (!old(self).use_shared ==> hint
                    == search::table_move(*old(self))),
    {
        self.refresh_dist(0);
        let entry = self.probe_table(host);
        let tt_move: i16 = match entry {
            Some(e) => tt::tt_word_move(e.meta),
            None => 0,
        };
        assert(trace::entry_found::<H>(*self, entry));
        assert(trace::entry_found::<H>(*old(self), entry) && tt_move == trace::entry_move(entry));
        let (out, book) = self.root_list(tt_move, host);
        proof {
            assert(root_moves::root_list_is(
                old(self).g@,
                old(self).hist,
                tt_move as int,
                book,
                out@,
            ));
            assert(root_moves::root_list_of::<H>(*old(self), old(self).hist, tt_move as int, out@));
        }
        out
    }

    /// Prepares a pool of `threads` workers: a table of fixed size, aged statistics, and the
    /// root moves of each worker by heat. No plan when there is no root move.
    pub fn plan_pool<H: SearchHost>(&mut self, threads: usize, host: &mut H) -> (r: Option<PoolPlan>)
        requires
            old(self).ready(0),
            1 <= threads <= 16,
        ensures
            final(self).ready(0),
            final(self).g@ == old(self).g@,
            final(self).cfg == old(self).cfg,
            !final(self).table.tt_adaptive,
            r matches Some(p) ==> pool_ok(old(self).g@, p, threads as int, old(self).cfg.lazy_topn),
            // There is a plan exactly where the book leaves a root move, and it follows from
            // those moves and their heat.
            exists|hint: i16, roots: Seq<i16>| #[trigger]
                root_moves::root_list_of::<H>(*old(self), final(self).hist, hint as int, roots)
                    && planned::<H>(
                    old(self).g@,
                    r,
                    roots,
                    threads as int,
                    old(self).cfg.lazy_topn,
                ),
            old(self).cfg.pure_mode || old(self).cfg.is_pondering ==> final(self).hist
                == old(self).hist,
            !old(self).cfg.pure_mode && !old(self).cfg.is_pondering ==> history::aged(
                old(self).hist,
                final(self).hist,
            ),
            final(self).table.base.bits == if !old(self).use_shared && old(self).table.base.bits
                < tt::TT_BITS {
                tt::TT_BITS
            } else {
                old(self).table.base.bits
            },
    {
        if !self.use_shared && self.table.base.bits < tt::TT_BITS {
            self.resize_tt(tt::TT_BITS);
        }
        self.table.tt_adaptive = false;
        self.apply_think_start_state();
        let ghost begun = *self;
        let roots = self.ordered_root_moves_snapshot(host);
        let ghost hint = choose|hint: i16| #[trigger]
            root_moves::root_list_of::<H>(begun, begun.hist, hint as int, roots@);
        proof {
            lemma_list_carries::<H>(*old(self), begun, hint as int, roots@);
        }
        if roots.len() == 0 {
            assert(planned::<H>(self.g@, None, roots@, threads as int, self.cfg.lazy_topn));
            return None;
        }
        let ghost h = *host;
        let base: Vec<i32> = host.impact_heat(&self.g);
        assert(h.heat_of(self.g@) == base@);
        proof {
            assert forall|k: int| 0 <= k < roots@.len() implies moves::move_id(
                #[trigger] roots@[k] as int,
            ) by {
                assert(movegen::playable(self.g@, roots@[k] as int));
            }
        }
        let pool = pool_for(roots, &base, threads, self.cfg.lazy_topn);
        assert(pool_is(pool, roots@, base@, threads as int, self.cfg.lazy_topn));
        assert(pool_follows::<H>(self.g@, pool, roots@, threads as int, self.cfg.lazy_topn));
        Some(pool)
    }
}

/// The root list of a state is that of another with the same position and book order.
proof fn lemma_list_carries<H: SearchHost>(a: TitaniumSearch, b: TitaniumSearch, hint: int, out: Seq<i16>)
    requires
        root_moves::root_list_of::<H>(b, b.hist, hint, out),
        a.g@ == b.g@,
        a.book_order == b.book_order,
        a.book_attention == b.book_attention,
    ensures
        root_moves::root_list_of::<H>(a, b.hist, hint, out),
{
    let book = choose|book: ordering::BookHints| #[trigger]
        root_moves::root_list_is(b.g@, b.hist, hint, book, out) && book.order@ == b.book_order@
            && book.attention@ == b.book_attention@ && root_moves::denials_told::<H>(b.g@, book);
    assert(root_moves::root_list_is(a.g@, b.hist, hint, book, out));
}

/// The hint is the move of the entry that the table gave for the root.
pub open spec fn hint_told<H: SearchHost>(s: TitaniumSearch, hint: i16) -> bool {
    exists|entry: Option<tt::SharedTtEntry>| #[trigger]
        trace::entry_found::<H>(s, entry) && hint == trace::entry_move(entry)
}

/// What comes of planning for these root moves, under their heat: no plan without moves.
pub open spec fn planned<H: SearchHost>(
    p: game::Position,
    r: Option<PoolPlan>,
    roots: Seq<i16>,
    threads: int,
    topn: bool,
) -> bool {
    match r {
        None => roots.len() == 0,
        Some(pool) => roots.len() > 0 && pool_follows::<H>(p, pool, roots, threads, topn),
    }
}

/// The plan is that of these root moves under the position's heat.
pub open spec fn pool_follows<H: SearchHost>(
    p: game::Position,
    pool: PoolPlan,
    roots: Seq<i16>,
    threads: int,
    topn: bool,
) -> bool {
    exists|base: Seq<i32>| #[trigger]
        pool_is(pool, roots, base, threads, topn) && root_verify::heat_told::<H>(p, base)
}

/// The plan of a pool for root moves and heat: each worker keeps the moves above its own
/// threshold.
pub open spec fn pool_is(
    pool: PoolPlan,
    roots: Seq<i16>,
    base: Seq<i32>,
    threads: int,
    topn: bool,
) -> bool {
    &&& pool.root_moves@ == roots
    &&& pool.kept@.len() == threads
    &&& forall|k: int|
        0 <= k < threads ==> (#[trigger] pool.kept@[k])@ == lazy_smp::kept_moves(
            roots,
            root_heats(base, roots),
            hottest_root(base, roots, roots.len() as int),
            lazy_smp::threshold_of(k),
        )
    &&& pool.plans@.len() == threads
    &&& forall|k: int|
        0 <= k < threads ==> lazy_smp::plan_is(
            #[trigger] pool.plans@[k],
            k,
            pool.kept@[k]@.len() as int,
            roots.len() as int,
            topn && threads >= 3 && k == threads - 1,
        )
}

/// Heat of a root move; zero beyond the list.
pub open spec fn root_heat(base: Seq<i32>, m: int) -> int {
    if 0 <= m < base.len() {
        base[m] as int
    } else {
        0
    }
}

/// Largest heat among the first `n` root moves, zero at least.
pub open spec fn hottest_root(base: Seq<i32>, ms: Seq<i16>, n: int) -> int
    decreases n,
{
    if n <= 0 {
        0
    } else {
        num::larger(hottest_root(base, ms, n - 1), root_heat(base, ms[n - 1] as int))
    }
}

/// Heat by move identifier, of root moves only.
pub open spec fn root_heats(base: Seq<i32>, ms: Seq<i16>) -> Seq<i32> {
    Seq::new(
        256,
        |m: int|
            if ms.contains(m as i16) {
                root_heat(base, m) as i32
            } else {
                0i32
            },
    )
}

/// The plan of a pool for these root moves and this heat: each worker keeps the moves above
/// its own threshold.
pub fn pool_for(root_moves: Vec<i16>, base: &Vec<i32>, threads: usize, lazy_topn: bool) -> (pool:
    PoolPlan)
    requires
        root_moves@.len() > 0,
        1 <= threads <= 16,
        forall|k: int|
            0 <= k < root_moves@.len() ==> moves::move_id(#[trigger] root_moves@[k] as int),
    ensures
        pool.root_moves == root_moves,
        pool_is(pool, root_moves@, base@, threads as int, lazy_topn),
        forall|k: int, j: int|
            0 <= k < threads && 0 <= j < pool.kept@[k]@.len() ==> root_moves@.contains(
                #[trigger] pool.kept@[k]@[j],
            ),
{
    let mut heat: [i32; 256] = [0i32; 256];
    let mut max_heat: i32 = 0;
    let n: usize = root_moves.len();
    let mut i: usize = 0;
    while i < n
        invariant
            i <= n,
            n == root_moves@.len(),
            forall|k: int|
                0 <= k < root_moves@.len() ==> moves::move_id(#[trigger] root_moves@[k] as int),
            max_heat == hottest_root(base@, root_moves@, i as int),
            forall|m: int|
                0 <= m < 256 ==> #[trigger] heat@[m] == if root_moves@.take(i as int).contains(
                    m as i16,
                ) {
                    root_heat(base@, m)
                } else {
                    0
                },
        decreases n - i,
    {
        assert(moves::move_id(root_moves@[i as int] as int));
        let m: usize = root_moves[i] as usize;
        let h: i32 = if m < base.len() {
            base[m]
        } else {
            0
        };
        let ghost before = heat@;
        heat[m] = h;
        max_heat = max_heat.max(h);
        proof {
            let now = root_moves@.take(i + 1);
            let was = root_moves@.take(i as int);
            assert(now =~= was.push(m as i16));
            assert(now[i as int] == m as i16);
            assert forall|x: int| 0 <= x < 256 implies #[trigger] heat@[x] == if now.contains(
                x as i16,
            ) {
                root_heat(base@, x)
            } else {
                0
            } by {
                assert(before[x] == if was.contains(x as i16) {
                    root_heat(base@, x)
                } else {
                    0
                });
                if x != m {
                    assert(now.contains(x as i16) == was.contains(x as i16)) by {
                        if now.contains(x as i16) {
                            let q = choose|q: int| 0 <= q < now.len() && now[q] == x as i16;
                            assert(q < i);
                            assert(was[q] == x as i16);
                        }
                        if was.contains(x as i16) {
                            let q = choose|q: int| 0 <= q < was.len() && was[q] == x as i16;
                            assert(now[q] == x as i16);
                        }
                    }
                }
            }
        }
        i += 1;
    }
    proof {
        assert(root_moves@.take(n as int) =~= root_moves@);
        assert(heat@ =~= root_heats(base@, root_moves@));
    }
    let mut kept: Vec<Vec<i16>> = Vec::new();
    let mut w: usize = 0;
    while w < threads
        invariant
            w <= threads,
            threads <= 16,
            kept@.len() == w,
            root_moves@.len() > 0,
            forall|k: int|
                0 <= k < root_moves@.len() ==> moves::move_id(#[trigger] root_moves@[k] as int),
            forall|k: int|
                0 <= k < w ==> (#[trigger] kept@[k])@ == lazy_smp::kept_moves(
                    root_moves@,
                    heat@,
                    max_heat as int,
                    lazy_smp::threshold_of(k),
                ),
        decreases threads - w,
    {
        let mine = lazy_smp::lazy_smp_value_filtered_moves(
            &root_moves,
            &heat,
            max_heat,
            lazy_smp::lazy_smp_value_threshold_pct(w),
        );
        kept.push(mine);
        w += 1;
    }
    let plans = lazy_smp::worker_plans(&kept, n, lazy_topn);
    proof {
        assert forall|k: int, j: int|
            0 <= k < kept@.len() && 0 <= j < kept@[k]@.len() implies root_moves@.contains(
            #[trigger] kept@[k]@[j],
        ) by {
            lemma_kept_from_root(
                root_moves@,
                heat@,
                max_heat as int,
                lazy_smp::threshold_of(k),
                j,
            );
        }
    }
    PoolPlan { root_moves, kept, plans }
}

/// A plan for the pool: every worker's moves are root moves, and the plans count them.
pub open spec fn pool_ok(p: game::Position, pool: PoolPlan, threads: int, topn: bool) -> bool {
    &&& pool.root_moves@.len() > 0
    &&& movegen::all_playable(p, pool.root_moves@)
    &&& forall|i: int|
        0 <= i < pool.root_moves@.len() ==> think::legal_moves(p).contains(
            #[trigger] pool.root_moves@[i],
        )
    &&& pool.kept@.len() == threads
    &&& pool.plans@.len() == threads
    &&& forall|k: int, j: int|
        0 <= k < threads && 0 <= j < pool.kept@[k]@.len() ==> pool.root_moves@.contains(
            #[trigger] pool.kept@[k]@[j],
        )
    &&& forall|k: int|
        0 <= k < threads ==> lazy_smp::plan_is(
            #[trigger] pool.plans@[k],
            k,
            pool.kept@[k]@.len() as int,
            pool.root_moves@.len() as int,
            topn && threads >= 3 && k == threads - 1,
        )
}

proof fn lemma_kept_from_root(ms: Seq<i16>, heat: Seq<i32>, max_heat: int, pct: int, j: int)
    requires
        0 <= j < lazy_smp::kept_moves(ms, heat, max_heat, pct).len(),
    ensures
        ms.contains(lazy_smp::kept_moves(ms, heat, max_heat, pct)[j]),
{
    lemma_hot_from_root(ms, heat, max_heat, pct, ms.len() as int);
    let hot = lazy_smp::hot_moves(ms, heat, max_heat, pct, ms.len() as int);
    if !(max_heat <= 0 || hot.len() == 0) {
        assert(ms.contains(hot[j]));
    }
}

proof fn lemma_hot_from_root(ms: Seq<i16>, heat: Seq<i32>, max_heat: int, pct: int, n: int)
    requires
        0 <= n <= ms.len(),
    ensures
        forall|j: int|
            0 <= j < lazy_smp::hot_moves(ms, heat, max_heat, pct, n).len() ==> ms.contains(
                #[trigger] lazy_smp::hot_moves(ms, heat, max_heat, pct, n)[j],
            ),
    decreases n,
{
    if n > 0 {
        lemma_hot_from_root(ms, heat, max_heat, pct, n - 1);
        let before = lazy_smp::hot_moves(ms, heat, max_heat, pct, n - 1);
        let all = lazy_smp::hot_moves(ms, heat, max_heat, pct, n);
        assert forall|j: int| 0 <= j < all.len() implies ms.contains(#[trigger] all[j]) by {
            if j < before.len() {
                assert(all[j] == before[j]);
            } else {
                assert(ms[n - 1] == all[j]);
            }
        }
    }
}

/// Root moves of one worker and their places in its kept list.
pub fn worker_share(pool: &PoolPlan, worker_id: usize) -> (r: (Vec<i16>, Vec<usize>))
    requires
        worker_id < pool.kept@.len(),
        worker_id < pool.plans@.len(),
        lazy_smp::walk_fits(worker_id as int, pool.kept@[worker_id as int]@.len() as int),
    ensures
        ({
            let kept = pool.kept@[worker_id as int]@;
            let plan = pool.plans@[worker_id as int];
            lazy_smp::profile_is(
                r.0@,
                r.1@,
                kept,
                worker_id as int,
                if worker_id == 0 {
                    kept.len() as int
                } else {
                    lazy_smp::allowed_by(plan)
                },
                worker_id == 0 || plan.top_n_override is Some,
            )
        }),
        worker_id == 0 ==> r.0@ == pool.kept@[0]@,
{
    let plan = pool.plans[worker_id];
    let kept = &pool.kept[worker_id];
    if worker_id == 0 {
        let r = lazy_smp::lazy_smp_profile_root_moves(kept, 0, kept.len(), true);
        assert forall|i: int| 0 <= i < kept@.len() implies r.0@[i] == kept@[i] by {
            let stride = choose|stride: int| #[trigger]
                lazy_smp::profile_places(r.1@, 0, kept@.len() as int, true, stride);
            assert(r.1@[i] == i);
        }
        assert(r.0@ =~= kept@);
        return r;
    }
    lazy_smp::lazy_smp_profile_root_moves(
        kept,
        worker_id,
        plan.allowed_root_moves(),
        plan.top_n_override.is_some(),
    )
}

/// A later worker keeps no move that an earlier one drops.
pub proof fn law_stricter_workers_keep_less(base: Seq<i32>, ms: Seq<i16>, k: int, l: int, m: i16)
    requires
        0 <= k <= l,
        forall|i: int| 0 <= i < ms.len() ==> moves::move_id(#[trigger] ms[i] as int),
        lazy_smp::kept_moves(
            ms,
            root_heats(base, ms),
            hottest_root(base, ms, ms.len() as int),
            lazy_smp::threshold_of(l),
        ).contains(m),
    ensures
        lazy_smp::kept_moves(
            ms,
            root_heats(base, ms),
            hottest_root(base, ms, ms.len() as int),
            lazy_smp::threshold_of(k),
        ).contains(m),
{
    let n = ms.len() as int;
    let heat = root_heats(base, ms);
    let most = hottest_root(base, ms, n);
    if most > 0 {
        lemma_hottest_is_hot(base, ms, lazy_smp::threshold_of(l), n);
        lazy_smp::law_thresholds_are_monotone(
            ms,
            heat,
            most,
            lazy_smp::threshold_of(k),
            lazy_smp::threshold_of(l),
            m,
        );
    }
}

/// The hottest of the first `n` root moves clears every threshold up to all of it.
proof fn lemma_hottest_is_hot(base: Seq<i32>, ms: Seq<i16>, pct: int, n: int)
    requires
        0 <= n <= ms.len(),
        0 <= pct <= 100,
        hottest_root(base, ms, n) > 0,
        forall|i: int| 0 <= i < ms.len() ==> moves::move_id(#[trigger] ms[i] as int),
    ensures
        lazy_smp::hot_moves(
            ms,
            root_heats(base, ms),
            hottest_root(base, ms, n),
            pct,
            n,
        ).len() > 0,
    decreases n,
{
    let most = hottest_root(base, ms, n);
    let heat = root_heats(base, ms);
    let m = ms[n - 1] as int;
    assert(moves::move_id(ms[n - 1] as int));
    assert(ms.contains(m as i16));
    assert(heat[m] == root_heat(base, m));
    if hottest_root(base, ms, n - 1) >= most {
        lemma_hottest_is_hot(base, ms, pct, n - 1);
    } else {
        assert(pct * most <= 100 * most) by (nonlinear_arith)
            requires
                pct <= 100,
                most > 0,
        ;
        assert(lazy_smp::hot_enough(heat[m] as int, most, pct));
    }
}

/// A worker searches only legal moves of the root, each at most once.
pub proof fn law_workers_stay_within_the_root(
    p: game::Position,
    pool: PoolPlan,
    threads: int,
    topn: bool,
    w: int,
    i: int,
)
    requires
        pool_ok(p, pool, threads, topn),
        0 <= w < threads,
        0 <= i < pool.kept@[w]@.len(),
    ensures
        think::legal_moves(p).contains(pool.kept@[w]@[i]),
        movegen::playable(p, pool.kept@[w]@[i] as int),
{
    let m = pool.kept@[w]@[i];
    assert(pool.root_moves@.contains(m));
    let k = choose|k: int| 0 <= k < pool.root_moves@.len() && pool.root_moves@[k] == m;
    assert(think::legal_moves(p).contains(pool.root_moves@[k]));
    assert(movegen::playable(p, pool.root_moves@[k] as int));
}

/// Nodes of all answers, stopping at the largest number.
pub open spec fn node_sum(main: int, nodes: Seq<u64>, n: int) -> int
    decreases n,
{
    if n <= 0 {
        main
    } else {
        num::smaller(node_sum(main, nodes, n - 1) + nodes[n - 1], u64::MAX as int)
    }
}

/// Worker identifiers do not fall.
pub open spec fn by_worker(hs: Seq<(usize, ThinkResult, Vec<usize>)>) -> bool {
    forall|i: int, j: int| 0 <= i < j < hs.len() ==> (#[trigger] hs[i]).0 <= (#[trigger] hs[j]).0
}

/// Puts a helper's answer behind those of workers with no larger identifier.
pub fn insert_helper(
    helpers: &mut Vec<(usize, ThinkResult, Vec<usize>)>,
    entry: (usize, ThinkResult, Vec<usize>),
)
    requires
        by_worker(old(helpers)@),
    ensures
        by_worker(final(helpers)@),
        exists|at: int|
            0 <= at <= old(helpers)@.len() && final(helpers)@ == #[trigger] old(helpers)@.insert(
                at,
                entry,
            ),
{
    let mut at: usize = helpers.len();
    while at > 0 && helpers[at - 1].0 > entry.0
        invariant
            at <= helpers@.len(),
            *helpers == *old(helpers),
            by_worker(helpers@),
            forall|k: int| at <= k < helpers@.len() ==> (#[trigger] helpers@[k]).0 > entry.0,
        decreases at,
    {
        at -= 1;
    }
    let ghost before = helpers@;
    helpers.insert(at, entry);
    proof {
        assert forall|i: int, j: int| 0 <= i < j < helpers@.len() implies (
        #[trigger] helpers@[i]).0 <= (#[trigger] helpers@[j]).0 by {
            let bi = if i < at {
                i
            } else {
                i - 1
            };
            let bj = if j < at {
                j
            } else {
                j - 1
            };
            if i != at {
                assert(helpers@[i] == before[bi]);
            }
            if j != at {
                assert(helpers@[j] == before[bj]);
            }
            if j == at && at > 0 {
                assert(before[at - 1].0 <= entry.0);
                if bi < at - 1 {
                    assert(before[bi].0 <= before[at - 1].0);
                }
            } else if i == at {
                assert(before[bj].0 > entry.0);
            } else if bi < bj {
                assert(before[bi].0 <= before[bj].0);
            }
        }
    }
}

fn copy_places(v: &Vec<usize>) -> (r: Vec<usize>)
    ensures
        r@ == v@,
{
    let mut r: Vec<usize> = Vec::new();
    let n: usize = v.len();
    let mut i: usize = 0;
    while i < n
        invariant
            i <= n,
            n == v@.len(),
            r@ == v@.take(i as int),
        decreases n - i,
    {
        r.push(v[i]);
        i += 1;
        assert(r@ =~= v@.take(i as int));
    }
    assert(v@.take(n as int) =~= v@);
    r
}

/// Clock, distances, log and root of two answers agree.
pub open spec fn same_report(a: ThinkResult, b: ThinkResult) -> bool {
    &&& a.ms == b.ms
    &&& a.white_dist == b.white_dist
    &&& a.black_dist == b.black_dist
    &&& a.depth_log == b.depth_log
    &&& a.root_moves == b.root_moves
    &&& a.root_defense_diag == b.root_defense_diag
    &&& a.race == b.race
    &&& a.timing == b.timing
}

/// The pool's answer from those of its workers: the main worker's move unless it has none.
pub fn merge_workers(
    main_result: ThinkResult,
    helpers: &Vec<(usize, ThinkResult, Vec<usize>)>,
    main_visits: Vec<usize>,
    pool: PoolPlan,
) -> (r: ThinkResult)
    requires
        by_worker(helpers@),
    ensures
        r.main_completed_depth == main_result.depth,
        r.main_thread_nodes == main_result.nodes,
        r.helper_nodes@ == Seq::new(helpers@.len(), |i: int| helpers@[i].1.nodes),
        r.helper_completed_depths@ == Seq::new(helpers@.len(), |i: int| helpers@[i].1.depth),
        r.total_nodes == node_sum(
            main_result.nodes as int,
            r.helper_nodes@,
            helpers@.len() as int,
        ),
        r.nodes == r.total_nodes,
        r.root_widths == pool.plans,
        r.root_move_ids == pool.kept,
        r.root_visits@.len() == 1 + helpers@.len(),
        r.root_visits@[0] == main_visits,
        forall|i: int|
            0 <= i < helpers@.len() ==> (#[trigger] r.root_visits@[i + 1])@ == helpers@[i].2@,
        // Helpers never replace a finished move of the main worker.
        main_result.depth > 0 && main_result.mv != -1 ==> r.mv == main_result.mv && r.score
            == main_result.score && r.depth == main_result.depth && r.stop_reason
            == main_result.stop_reason && same_report(r, main_result),
        !(main_result.depth > 0 && main_result.mv != -1) ==> (exists|i: int| #[trigger]
            is_adopted(helpers@, pool.root_moves@, i) && r.mv == helpers@[i].1.mv && r.score
                == helpers@[i].1.score && r.depth == helpers@[i].1.depth && r.stop_reason@
                == "lazy_smp_helper_partial"@ && r.ms == num::larger(
                main_result.ms as int,
                helpers@[i].1.ms as int,
            ) && r.white_dist == helpers@[i].1.white_dist && r.black_dist
                == helpers@[i].1.black_dist && timing::same_log(
                r.depth_log@,
                helpers@[i].1.depth_log@,
            )) || (r.mv == main_result.mv && r.score == main_result.score && r.depth
            == main_result.depth && r.stop_reason == main_result.stop_reason && same_report(
            r,
            main_result,
        ) && forall|j: int|
            0 <= j < helpers@.len() ==> !helper_counts(
                (#[trigger] helpers@[j]).1,
                pool.root_moves@,
            )),
{
    let main_nodes: u64 = main_result.nodes;
    let main_depth: i32 = main_result.depth;
    let place = adopted_place(&main_result, helpers, &pool.root_moves);
    let mut r = main_result;
    if let Some(i) = place {
        let h = &helpers[i].1;
        r.mv = h.mv;
        r.score = h.score;
        r.depth = h.depth;
        r.ms = r.ms.max(h.ms);
        r.white_dist = h.white_dist;
        r.black_dist = h.black_dist;
        r.depth_log = timing::copy_log(&h.depth_log);
        r.stop_reason = "lazy_smp_helper_partial";
    }
    let n: usize = helpers.len();
    let mut nodes: Vec<u64> = Vec::new();
    let mut depths: Vec<i32> = Vec::new();
    let mut visits: Vec<Vec<usize>> = Vec::new();
    let mut total: u64 = main_nodes;
    visits.push(main_visits);
    let mut i: usize = 0;
    while i < n
        invariant
            i <= n,
            n == helpers@.len(),
            nodes@ == Seq::new(i as nat, |k: int| helpers@[k].1.nodes),
            depths@ == Seq::new(i as nat, |k: int| helpers@[k].1.depth),
            visits@.len() == 1 + i,
            visits@[0] == main_visits,
            forall|k: int| 0 <= k < i ==> (#[trigger] visits@[k + 1])@ == helpers@[k].2@,
            total == node_sum(main_nodes as int, nodes@, i as int),
        decreases n - i,
    {
        let h = &helpers[i];
        let ghost before = nodes@;
        nodes.push(h.1.nodes);
        depths.push(h.1.depth);
        let seen: Vec<usize> = copy_places(&h.2);
        visits.push(seen);
        proof {
            assert(nodes@ =~= Seq::new((i + 1) as nat, |k: int| helpers@[k].1.nodes));
            assert(depths@ =~= Seq::new((i + 1) as nat, |k: int| helpers@[k].1.depth));
            lemma_node_sum_prefix(main_nodes as int, before, nodes@, i as int);
        }
        total = total.saturating_add(h.1.nodes);
        i += 1;
    }
    r.main_thread_nodes = main_nodes;
    r.helper_nodes = nodes;
    r.total_nodes = total;
    r.nodes = total;
    r.main_completed_depth = main_depth;
    r.helper_completed_depths = depths;
    r.root_widths = pool.plans;
    r.root_visits = visits;
    r.root_move_ids = pool.kept;
    r
}

proof fn lemma_node_sum_prefix(main: int, a: Seq<u64>, b: Seq<u64>, n: int)
    requires
        0 <= n <= a.len(),
        n <= b.len(),
        forall|k: int| 0 <= k < n ==> a[k] == b[k],
    ensures
        node_sum(main, a, n) == node_sum(main, b, n),
    decreases n,
{
    if n > 0 {
        lemma_node_sum_prefix(main, a, b, n - 1);
    }
}

} // verus!

//! Time decisions of iterative deepening, in whole milliseconds and hundredths.

use crate::num;
use vstd::prelude::*;

verus! {

/// One finished iteration.
#[derive(Clone, Debug)]
pub struct AceDepthLogEntry {
    pub depth: i32,
    pub score: i32,
    pub nodes: u64,
    pub elapsed_ms: u64,
    pub marginal_nodes: u64,
    pub pv: String,
}

/// Two entries say the same.
pub open spec fn same_entry(a: AceDepthLogEntry, b: AceDepthLogEntry) -> bool {
    &&& a.depth == b.depth
    &&& a.score == b.score
    &&& a.nodes == b.nodes
    &&& a.elapsed_ms == b.elapsed_ms
    &&& a.marginal_nodes == b.marginal_nodes
    &&& a.pv@ == b.pv@
}

/// Two logs say the same.
pub open spec fn same_log(a: Seq<AceDepthLogEntry>, b: Seq<AceDepthLogEntry>) -> bool {
    a.len() == b.len() && forall|i: int| 0 <= i < a.len() ==> same_entry(#[trigger] a[i], b[i])
}

/// A copy of a log.
pub fn copy_log(log: &Vec<AceDepthLogEntry>) -> (out: Vec<AceDepthLogEntry>)
    ensures
        same_log(out@, log@),
{
    let mut out: Vec<AceDepthLogEntry> = Vec::new();
    let n: usize = log.len();
    let mut i: usize = 0;
    while i < n
        invariant
            i <= n,
            n == log@.len(),
            out@.len() == i,
            forall|k: int| 0 <= k < i ==> same_entry(#[trigger] out@[k], log@[k]),
        decreases n - i,
    {
        let e = &log[i];
        out.push(
            AceDepthLogEntry {
                depth: e.depth,
                score: e.score,
                nodes: e.nodes,
                elapsed_ms: e.elapsed_ms,
                marginal_nodes: e.marginal_nodes,
                pv: e.pv.clone(),
            },
        );
        i += 1;
    }
    out
}

/// Clock report of a finished search.
#[derive(Clone, Copy, Debug, PartialEq, Eq, Structural)]
pub struct TimingDiag {
    pub allocated_hard_ms: u64,
    pub allocated_soft_ms: u64,
    /// Hard budget without the reserve for the last-wall check.
    pub searchable_ms: u64,
    pub gate_reserve_ms: u64,
    pub elapsed_ms: u64,
    /// Elapsed beyond searchable; negative when some was left.
    pub hard_overshoot_ms: i64,
    pub soft_overshoot_ms: i64,
    pub last_iter_ms: u64,
    pub prev_iter_ms: u64,
    pub best_move_changes: u32,
    pub partial_iter_used: bool,
    /// Soft share of the hard budget in basis points.
    pub soft_fraction_bp: u16,
}

/// `a - b`, zero at least.
pub open spec fn minus(a: int, b: int) -> int {
    if a < b {
        0
    } else {
        a - b
    }
}

/// Time at the end of iteration `i`, zero before the first.
pub open spec fn elapsed_at(log: Seq<AceDepthLogEntry>, i: int) -> int {
    if 0 <= i < log.len() {
        log[i].elapsed_ms as int
    } else {
        0
    }
}

/// Cost of the iteration `back` from the end.
pub open spec fn iter_cost(log: Seq<AceDepthLogEntry>, back: int) -> int {
    minus(elapsed_at(log, log.len() - 1 - back), elapsed_at(log, log.len() - 2 - back))
}

/// Costs of the last iteration and the one before it.
pub fn iter_costs_ms(depth_log: &Vec<AceDepthLogEntry>) -> (r: (u64, u64))
    ensures
        r.0 == iter_cost(depth_log@, 0),
        r.1 == iter_cost(depth_log@, 1),
{
    let n: usize = depth_log.len();
    if n == 0 {
        return (0, 0);
    }
    let last_end: u64 = depth_log[n - 1].elapsed_ms;
    let prev_end: u64 = if n >= 2 {
        depth_log[n - 2].elapsed_ms
    } else {
        0
    };
    let first_end: u64 = if n >= 3 {
        depth_log[n - 3].elapsed_ms
    } else {
        0
    };
    (last_end.saturating_sub(prev_end), prev_end.saturating_sub(first_end))
}

/// Share of a hard budget that the soft budget takes, in basis points.
pub open spec fn share_bp(soft: int, hard: int) -> int {
    let whole = num::larger(hard, 1);
    (soft * 20_000 + whole) / (2 * whole)
}

impl TimingDiag {
    /// All zero.
    pub fn new() -> (t: TimingDiag)
        ensures
            t.allocated_hard_ms == 0,
            t.allocated_soft_ms == 0,
            t.searchable_ms == 0,
            t.gate_reserve_ms == 0,
            t.elapsed_ms == 0,
            t.hard_overshoot_ms == 0,
            t.soft_overshoot_ms == 0,
            t.last_iter_ms == 0,
            t.prev_iter_ms == 0,
            t.best_move_changes == 0,
            !t.partial_iter_used,
            t.soft_fraction_bp == 0,
    {
        TimingDiag {
            allocated_hard_ms: 0,
            allocated_soft_ms: 0,
            searchable_ms: 0,
            gate_reserve_ms: 0,
            elapsed_ms: 0,
            hard_overshoot_ms: 0,
            soft_overshoot_ms: 0,
            last_iter_ms: 0,
            prev_iter_ms: 0,
            best_move_changes: 0,
            partial_iter_used: false,
            soft_fraction_bp: 0,
        }
    }

    /// Report of a search by its log.
    pub fn from_think(
        time_ms: u64,
        gate_reserve_ms: u64,
        elapsed_ms: u64,
        depth_log: &Vec<AceDepthLogEntry>,
        best_move_changes: u32,
        partial_iter_used: bool,
        soft_ms: u64,
    ) -> (t: TimingDiag)
        requires
            time_ms <= i64::MAX,
            elapsed_ms <= i64::MAX,
        ensures
            t.allocated_hard_ms == time_ms,
            t.allocated_soft_ms == num::larger(num::smaller(soft_ms as int, time_ms as int), 1),
            t.searchable_ms == minus(time_ms as int, gate_reserve_ms as int),
            t.gate_reserve_ms == gate_reserve_ms,
            t.elapsed_ms == elapsed_ms,
            t.hard_overshoot_ms == elapsed_ms - t.searchable_ms,
            t.soft_overshoot_ms == elapsed_ms - t.allocated_soft_ms,
            t.last_iter_ms == iter_cost(depth_log@, 0),
            t.prev_iter_ms == iter_cost(depth_log@, 1),
            t.best_move_changes == best_move_changes,
            t.partial_iter_used == partial_iter_used,
            t.soft_fraction_bp == share_bp(t.allocated_soft_ms as int, time_ms as int),
    {
        let soft: u64 = soft_ms.min(time_ms).max(1);
        let searchable: u64 = time_ms.saturating_sub(gate_reserve_ms);
        let (last_iter_ms, prev_iter_ms) = iter_costs_ms(depth_log);
        let whole: u128 = time_ms.max(1) as u128;
        proof {
            assert(soft <= whole);
            let s = soft as int;
            let w = whole as int;
            assert((s * 20_000 + w) / (2 * w) <= 10_000) by (nonlinear_arith)
                requires
                    0 <= s <= w,
                    w >= 1,
            ;
            assert(0 <= (s * 20_000 + w) / (2 * w)) by (nonlinear_arith)
                requires
                    0 <= s,
                    w >= 1,
            ;
        }
        let bp: u128 = (soft as u128 * 20_000 + whole) / (2 * whole);
        TimingDiag {
            allocated_hard_ms: time_ms,
            allocated_soft_ms: soft,
            searchable_ms: searchable,
            gate_reserve_ms,
            elapsed_ms,
            hard_overshoot_ms: elapsed_ms as i64 - searchable as i64,
            soft_overshoot_ms: elapsed_ms as i64 - soft as i64,
            last_iter_ms,
            prev_iter_ms,
            best_move_changes,
            partial_iter_used,
            soft_fraction_bp: bp as u16,
        }
    }
}

impl Default for TimingDiag {
    fn default() -> (t: TimingDiag)
        ensures
            t.allocated_hard_ms == 0,
            t.elapsed_ms == 0,
    {
        Self::new()
    }
}

/// Soft share of the hard budget in hundredths: more when the best move flips or the
/// score falls, less when both are quiet.
pub open spec fn soft_share(last_score: int, changes: int, delta: int, stable: int) -> int {
    let base = if last_score < -80 {
        92int
    } else {
        85int
    };
    let flips = 5 * num::smaller(changes, 3);
    let swing = if delta <= -40 {
        8int
    } else if delta >= 80 {
        3int
    } else {
        0int
    };
    let quiet = if stable >= 3 && changes == 0 && num::magnitude(delta) < 30 {
        10int
    } else if stable >= 2 && changes == 0 && num::magnitude(delta) < 20 {
        5int
    } else {
        0int
    };
    num::clamped(base + flips + swing - quiet, 55, 100)
}

/// Soft share of the hard budget in hundredths.
pub fn stability_soft_share(
    last_score: i32,
    best_move_changes: u32,
    score_delta: i32,
    stable_iters: u32,
) -> (share: u64)
    ensures
        share == soft_share(
            last_score as int,
            best_move_changes as int,
            score_delta as int,
            stable_iters as int,
        ),
        55 <= share <= 100,
{
    let mut share: i32 = if last_score < -80 {
        92
    } else {
        85
    };
    let flips: u32 = best_move_changes.min(3);
    share = share + 5 * flips as i32;
    if score_delta <= -40 {
        share = share + 8;
    } else if score_delta >= 80 {
        share = share + 3;
    }
    let calm30: bool = score_delta > -30 && score_delta < 30;
    let calm20: bool = score_delta > -20 && score_delta < 20;
    if stable_iters >= 3 && best_move_changes == 0 && calm30 {
        share = share - 10;
    } else if stable_iters >= 2 && best_move_changes == 0 && calm20 {
        share = share - 5;
    }
    num::clamp_i32(share, 55, 100) as u64
}

/// Soft budget: the share of the hard budget, rounded to the nearest millisecond.
pub open spec fn soft_budget(time_ms: int, share: int) -> int {
    (time_ms * share + 50) / 100
}

/// Soft budget in milliseconds.
pub fn stability_soft_ms(
    time_ms: u64,
    last_score: i32,
    best_move_changes: u32,
    score_delta: i32,
    stable_iters: u32,
) -> (ms: u64)
    ensures
        ms == soft_budget(
            time_ms as int,
            soft_share(
                last_score as int,
                best_move_changes as int,
                score_delta as int,
                stable_iters as int,
            ),
        ),
        ms <= time_ms,
{
    let share: u64 = stability_soft_share(last_score, best_move_changes, score_delta, stable_iters);
    proof {
        law_soft_budget_is_within_hard(time_ms as int, share as int);
        assert(time_ms * share <= 0x1_0000_0000_0000_0000_0000) by (nonlinear_arith)
            requires
                0 <= time_ms <= 0xFFFF_FFFF_FFFF_FFFF,
                0 <= share <= 100,
        ;
    }
    ((time_ms as u128 * share as u128 + 50) / 100) as u64
}

/// The soft budget never exceeds the hard one, and is at least about half of it.
pub proof fn law_soft_budget_is_within_hard(time_ms: int, share: int)
    requires
        0 <= time_ms,
        55 <= share <= 100,
    ensures
        0 <= soft_budget(time_ms, share) <= time_ms,
        2 * soft_budget(time_ms, share) >= time_ms,
{
    assert(time_ms * share <= time_ms * 100) by (nonlinear_arith)
        requires
            0 <= time_ms,
            share <= 100,
    ;
    assert(time_ms * share >= time_ms * 55) by (nonlinear_arith)
        requires
            0 <= time_ms,
            share >= 55,
    ;
}

/// The next iteration, expected to cost as much as the dearer of the last two and at least
/// 20 ms, would not fit.
pub open spec fn predicted_over(elapsed: int, budget: int, log: Seq<AceDepthLogEntry>) -> bool {
    log.len() > 0 && elapsed + num::larger(
        num::larger(
            elapsed_at(log, log.len() - 1) - elapsed_at(log, log.len() - 2),
            if log.len() >= 2 {
                elapsed_at(log, log.len() - 2) - elapsed_at(log, log.len() - 3)
            } else {
                0
            },
        ),
        20,
    ) > budget
}

/// Would the next iteration overrun the budget?
pub fn predicted_over_time_budget(
    elapsed_ms: u64,
    time_ms: u64,
    depth_log: &Vec<AceDepthLogEntry>,
) -> (over: bool)
    ensures
        over == predicted_over(elapsed_ms as int, time_ms as int, depth_log@),
{
    let n: usize = depth_log.len();
    if n == 0 {
        return false;
    }
    let last_end: i128 = depth_log[n - 1].elapsed_ms as i128;
    let prev_end: i128 = if n >= 2 {
        depth_log[n - 2].elapsed_ms as i128
    } else {
        0
    };
    let first_end: i128 = if n >= 3 {
        depth_log[n - 3].elapsed_ms as i128
    } else {
        0
    };
    let last: i128 = last_end - prev_end;
    let prev: i128 = if n >= 2 {
        prev_end - first_end
    } else {
        0
    };
    let dearer: i128 = if last < prev {
        prev
    } else {
        last
    };
    let projected: i128 = if dearer < 20 {
        20
    } else {
        dearer
    };
    elapsed_ms as i128 + projected > time_ms as i128
}

/// Time kept back for the last-wall check: the table build time, 25 ms or 15 percent,
/// whichever is most, but no more than 30 percent.
pub open spec fn gate_reserve(time_ms: int, build_ms: int) -> int {
    num::smaller(
        num::larger(num::larger(build_ms, 25), time_ms * 15 / 100),
        time_ms * 3 / 10,
    )
}

/// Time kept back for the last-wall check.
pub fn gate_reserve_ms(time_ms: u64, build_ms: u64, applies: bool) -> (ms: u64)
    ensures
        ms == if applies {
            gate_reserve(time_ms as int, build_ms as int)
        } else {
            0
        },
        ms <= time_ms,
{
    if !applies {
        return 0;
    }
    let cap: u64 = (time_ms as u128 * 3 / 10) as u64;
    let part: u64 = (time_ms as u128 * 15 / 100) as u64;
    let mut ms: u64 = if build_ms < 25 {
        25
    } else {
        build_ms
    };
    if part > ms {
        ms = part;
    }
    if cap < ms {
        ms = cap;
    }
    ms
}

} // verus!

//! What the search has learned about moves: cutoff histories, killers, replies, and the
//! bias of the static evaluation on a wall structure.

use crate::game::GameState;
use crate::moves;
use crate::num;
use crate::score::MAX_PLY;
use crate::zobrist;
use vstd::prelude::*;

verus! {

/// Entries per history table; every move identifier is below it.
pub const HIST_SPAN: usize = 256;

/// Side-split history saturates here.
pub const SF_HIST_MAX: i32 = 1_048_576;

/// The shared counter is halved above this.
pub const LEGACY_HIST_MAX: i32 = 100_000_000;

/// Largest weight of history among pawn moves: less than half a step of progress.
pub const SF_PAWN_HISTORY_TIEBREAK_MAX: i32 = 499;

/// Buckets of the correction table of one side.
pub const CORR_SIZE: usize = 16_384;

/// Largest correction in centipawns.
pub const CORR_MAX: i32 = 256;

/// History of a pawn move squeezed into a tie-break.
pub open spec fn pawn_tiebreak(history: int) -> int {
    num::trunc_div(num::clamped(history, -1_048_576, 1_048_576) * 499, 1_048_576)
}

/// History of a pawn move squeezed into a tie-break.
pub fn sf_pawn_history_tiebreak(history: i32) -> (t: i32)
    ensures
        t == pawn_tiebreak(history as int),
        -499 <= t <= 499,
{
    let bounded: i64 = num::clamp_i32(history, -SF_HIST_MAX, SF_HIST_MAX) as i64;
    proof {
        law_tiebreak_stays_inside_a_step(history as int);
    }
    num::trunc_div_i64(bounded * SF_PAWN_HISTORY_TIEBREAK_MAX as i64, SF_HIST_MAX as i64) as i32
}

/// The tie-break stays within half a step of progress, so a pawn move that is one step
/// nearer to the goal always outranks one that is not, whatever their histories.
pub proof fn law_tiebreak_stays_inside_a_step(history: int)
    ensures
        -499 <= pawn_tiebreak(history) <= 499,
{
    let b = num::clamped(history, -1_048_576, 1_048_576);
    if b >= 0 {
        assert(0 <= (b * 499) / 1_048_576 <= 499) by (nonlinear_arith)
            requires
                0 <= b <= 1_048_576,
        ;
    } else {
        let c = -b;
        assert(-(b * 499) == c * 499) by (nonlinear_arith)
            requires
                c == -b,
        ;
        assert(0 <= (c * 499) / 1_048_576 <= 499) by (nonlinear_arith)
            requires
                0 <= c <= 1_048_576,
        ;
    }
}

/// Entry after a bonus or malus: pulled towards the bonus, never beyond saturation.
pub open spec fn gravity(h: int, bonus: int) -> int {
    h + bonus - num::trunc_div(h * num::magnitude(bonus), 1_048_576)
}

/// Gravity keeps an entry within saturation.
pub proof fn law_gravity_saturates(h: int, bonus: int)
    requires
        -1_048_576 <= h <= 1_048_576,
        -1_048_576 <= bonus <= 1_048_576,
    ensures
        -1_048_576 <= gravity(h, bonus) <= 1_048_576,
{
    let m: int = 1_048_576;
    let b = num::magnitude(bonus);
    let a = num::magnitude(h);
    let q = (a * b) / m;
    assert(a * b >= 0) by (nonlinear_arith)
        requires
            a >= 0,
            b >= 0,
    ;
    // a + b - q stays within the bound: (m - a)(m - b) >= 0.
    assert(q * m > a * b - m) by (nonlinear_arith)
        requires
            q == (a * b) / m,
            m == 1_048_576,
    ;
    assert(a * b >= m * a + m * b - m * m) by (nonlinear_arith)
        requires
            0 <= a <= m,
            0 <= b <= m,
    ;
    assert(a + b - q <= m) by (nonlinear_arith)
        requires
            q * m > a * b - m,
            a * b >= m * a + m * b - m * m,
            m == 1_048_576,
    ;
    assert(q <= a) by (nonlinear_arith)
        requires
            q == (a * b) / m,
            0 <= a,
            0 <= b <= m,
            m == 1_048_576,
    ;
    assert(q >= 0) by (nonlinear_arith)
        requires
            q == (a * b) / m,
            a * b >= 0,
            m == 1_048_576,
    ;
    if h < 0 {
        assert(-(h * b) == a * b) by (nonlinear_arith)
            requires
                a == -h,
        ;
        if a * b == 0 {
            assert(h * b == 0);
        }
    }
}

/// Applies a bonus or malus to one entry.
pub fn gravity_step(h: i32, bonus: i32) -> (r: i32)
    requires
        -SF_HIST_MAX <= h <= SF_HIST_MAX,
        -SF_HIST_MAX <= bonus <= SF_HIST_MAX,
    ensures
        r == gravity(h as int, bonus as int),
        -SF_HIST_MAX <= r <= SF_HIST_MAX,
{
    let b: i64 = if bonus < 0 {
        -(bonus as i64)
    } else {
        bonus as i64
    };
    proof {
        law_gravity_saturates(h as int, bonus as int);
        assert(-0x1_0000_0000_0000 <= h * b <= 0x1_0000_0000_0000) by (nonlinear_arith)
            requires
                -1_048_576 <= h <= 1_048_576,
                0 <= b <= 1_048_576,
        ;
        num::lemma_trunc_div_bound(h * b, 1_048_576);
    }
    let pull: i64 = num::trunc_div_i64(h as i64 * b, SF_HIST_MAX as i64);
    (h as i64 + bonus as i64 - pull) as i32
}

/// Learned move statistics.
pub struct History {
    /// Cutoffs per move, both sides together.
    pub history_tbl: Vec<i32>,
    /// Saturating statistics per side and move.
    pub hist_sf0: Vec<i32>,
    pub hist_sf1: Vec<i32>,
    /// Saturating statistics per previous move and move.
    pub cont_hist: Vec<i32>,
    /// Reply that last refuted a move.
    pub cm: Vec<i16>,
    /// Two killer walls per ply.
    pub killers: Vec<(i16, i16)>,
    /// Evaluation bias per side and wall structure.
    pub corr0: Vec<i16>,
    pub corr1: Vec<i16>,
    /// Use the side-split statistics instead of the shared counter.
    pub sf_history: bool,
}

/// The move statistics alone, as something outside scales them.
pub struct Statistics {
    pub history_tbl: Vec<i32>,
    pub hist_sf0: Vec<i32>,
    pub hist_sf1: Vec<i32>,
    pub cont_hist: Vec<i32>,
}

/// Is a table of this length with every entry in range?
fn in_range(t: &Vec<i32>, n: usize, lo: i32, hi: i32) -> (yes: bool)
    ensures
        yes == (t@.len() == n && forall|i: int| 0 <= i < n ==> lo <= #[trigger] t@[i] <= hi),
{
    if t.len() != n {
        return false;
    }
    let mut i: usize = 0;
    while i < n
        invariant
            i <= n,
            n == t@.len(),
            forall|k: int| 0 <= k < i ==> lo <= #[trigger] t@[k] <= hi,
        decreases n - i,
    {
        if t[i] < lo || t[i] > hi {
            return false;
        }
        i += 1;
    }
    true
}

impl Statistics {
    /// The sizes and ranges of a history's tables.
    pub open spec fn fits(&self) -> bool {
        &&& self.history_tbl@.len() == 256
        &&& forall|i: int| 0 <= i < 256 ==> 0 <= #[trigger] self.history_tbl@[i] <= 100_000_000
        &&& saturated_table(self.hist_sf0@, 256)
        &&& saturated_table(self.hist_sf1@, 256)
        &&& saturated_table(self.cont_hist@, 65_536)
    }

    /// Do the tables fit a history?
    pub fn is_fitting(&self) -> (yes: bool)
        ensures
            yes == self.fits(),
    {
        in_range(&self.history_tbl, 256, 0, 100_000_000) && in_range(
            &self.hist_sf0,
            256,
            -1_048_576,
            1_048_576,
        ) && in_range(&self.hist_sf1, 256, -1_048_576, 1_048_576) && in_range(
            &self.cont_hist,
            65_536,
            -1_048_576,
            1_048_576,
        )
    }
}

/// Every entry of a saturating table is within saturation.
pub open spec fn saturated_table(t: Seq<i32>, n: int) -> bool {
    t.len() == n && forall|i: int| 0 <= i < n ==> -1_048_576 <= #[trigger] t[i] <= 1_048_576
}

/// Every correction is within its bound.
pub open spec fn correction_table(t: Seq<i16>) -> bool {
    t.len() == 16_384 && forall|i: int| 0 <= i < 16_384 ==> -256 <= #[trigger] t[i] <= 256
}

/// A killer slot or reply holds a move or nothing.
pub open spec fn hint_ok(m: i16) -> bool {
    0 <= m < 256
}

/// Counter after one more cutoff at `depth`.
pub open spec fn counted(t: Seq<i32>, m: int, depth: int) -> Seq<i32> {
    let raised = t[m] + depth * depth;
    let after = t.update(m, raised as i32);
    if raised > 100_000_000 {
        Seq::new(t.len(), |i: int| (after[i] as int / 2) as i32)
    } else {
        after
    }
}

/// Killers after a cutoff by wall `m`.
pub open spec fn killers_after(k: (i16, i16), m: i16) -> (i16, i16) {
    if k.0 != m {
        (m, k.0)
    } else {
        k
    }
}

/// Correction after the search contradicted the static evaluation.
pub open spec fn corrected(e: int, best: int, static_ev: int, depth: int) -> int {
    num::clamped(
        e + num::trunc_div((best - static_ev) * num::smaller(depth + 1, 16), 64),
        -256,
        256,
    )
}

/// The verdict can contradict the static evaluation: both are ordinary scores, and a bound
/// points the right way.
pub open spec fn teaches(best: int, static_ev: int, flag: int) -> bool {
    &&& -2000 < static_ev < 2000
    &&& -2000 < best < 2000
    &&& !(flag == 2 && best >= static_ev)
    &&& !(flag == 1 && best <= static_ev)
}

/// Can the verdict contradict the static evaluation?
pub fn correction_applies(best: i32, static_ev: i32, flag: i32) -> (yes: bool)
    ensures
        yes == teaches(best as int, static_ev as int, flag as int),
{
    static_ev > -2000 && static_ev < 2000 && best > -2000 && best < 2000 && !(flag == 2 && best
        >= static_ev) && !(flag == 1 && best <= static_ev)
}

/// Bucket of a wall structure.
pub open spec fn corr_bucket(g: GameState) -> int {
    zobrist::walls_key(g.topo(), false) as int % 16_384
}

/// Bucket of the position's wall structure.
pub fn wall_corr_index(g: &GameState) -> (i: usize)
    requires
        g.wf(),
    ensures
        i == corr_bucket(*g),
        i < CORR_SIZE,
{
    let (lo, _hi) = g.wall_topology_key();
    (lo % 16_384) as usize
}

fn zeros_i32(n: usize) -> (v: Vec<i32>)
    ensures
        v@ == Seq::new(n as nat, |i: int| 0i32),
{
    let v: Vec<i32> = vec![0i32; n];
    assert(v@ =~= Seq::new(n as nat, |i: int| 0i32));
    v
}

fn no_killers() -> (v: Vec<(i16, i16)>)
    ensures
        v@.len() == MAX_PLY,
        forall|i: int| 0 <= i < MAX_PLY ==> #[trigger] v@[i] == (0i16, 0i16),
{
    let mut v: Vec<(i16, i16)> = Vec::new();
    let mut i: usize = 0;
    while i < MAX_PLY
        invariant
            i <= MAX_PLY,
            v@.len() == i,
            forall|k: int| 0 <= k < i ==> #[trigger] v@[k] == (0i16, 0i16),
        decreases MAX_PLY - i,
    {
        v.push((0i16, 0i16));
        i += 1;
    }
    v
}

/// Nothing learned: every statistic, reply, killer and correction is zero.
pub open spec fn is_blank(h: History) -> bool {
    &&& h.history_tbl@ == Seq::new(256, |i: int| 0i32)
    &&& h.hist_sf0@ == Seq::new(256, |i: int| 0i32)
    &&& h.hist_sf1@ == Seq::new(256, |i: int| 0i32)
    &&& h.cont_hist@ == Seq::new(65_536, |i: int| 0i32)
    &&& h.cm@ == Seq::new(256, |i: int| 0i16)
    &&& forall|i: int| 0 <= i < MAX_PLY ==> #[trigger] h.killers@[i] == (0i16, 0i16)
    &&& h.corr0@ == Seq::new(16_384, |i: int| 0i16)
    &&& h.corr1@ == Seq::new(16_384, |i: int| 0i16)
}

/// The bias of a side and wall structure has moved towards what the search found, and
/// nothing else has changed.
pub open spec fn taught(
    before: History,
    after: History,
    bucket: int,
    side: int,
    best: int,
    static_ev: int,
    depth: int,
) -> bool {
    let e = corrected(before.bias(side, bucket), best, static_ev, depth);
    if side == 0 {
        after == (History { corr0: after.corr0, ..before }) && after.corr0@ == before.corr0@.update(
            bucket,
            e as i16,
        )
    } else {
        after == (History { corr1: after.corr1, ..before }) && after.corr1@ == before.corr1@.update(
            bucket,
            e as i16,
        )
    }
}

impl History {
    pub open spec fn wf(&self) -> bool {
        &&& self.history_tbl@.len() == 256
        &&& forall|i: int|
            0 <= i < 256 ==> 0 <= #[trigger] self.history_tbl@[i] <= 100_000_000
        &&& saturated_table(self.hist_sf0@, 256)
        &&& saturated_table(self.hist_sf1@, 256)
        &&& saturated_table(self.cont_hist@, 65_536)
        &&& self.cm@.len() == 256
        &&& forall|i: int| 0 <= i < 256 ==> hint_ok(#[trigger] self.cm@[i])
        &&& self.killers@.len() == MAX_PLY
        &&& forall|i: int|
            0 <= i < MAX_PLY ==> hint_ok((#[trigger] self.killers@[i]).0) && hint_ok(
                self.killers@[i].1,
            )
        &&& correction_table(self.corr0@)
        &&& correction_table(self.corr1@)
    }

    /// Statistic of a move as ordering and pruning see it.
    pub open spec fn hist_of(&self, stm: int, m: int) -> int {
        if self.sf_history {
            if stm == 0 {
                self.hist_sf0@[m] as int
            } else {
                self.hist_sf1@[m] as int
            }
        } else {
            self.history_tbl@[m] as int
        }
    }

    /// Statistic of a reply; zero without a previous move.
    pub open spec fn reply_of(&self, prev: int, m: int) -> int {
        if prev < 0 {
            0
        } else {
            self.cont_hist@[prev * 256 + m] as int
        }
    }

    /// Forgets everything; which statistics are in use stays.
    pub fn clear(&mut self)
        ensures
            final(self).wf(),
            is_blank(*final(self)),
            final(self).sf_history == old(self).sf_history,
    {
        let sf_history: bool = self.sf_history;
        *self = History::new();
        self.sf_history = sf_history;
    }

    /// Nothing learned.
    pub fn new() -> (h: History)
        ensures
            h.wf(),
            !h.sf_history,
            is_blank(h),
    {
        let h = History {
            history_tbl: zeros_i32(256),
            hist_sf0: zeros_i32(256),
            hist_sf1: zeros_i32(256),
            cont_hist: zeros_i32(65_536),
            cm: vec![0i16; 256],
            killers: no_killers(),
            corr0: vec![0i16; CORR_SIZE],
            corr1: vec![0i16; CORR_SIZE],
            sf_history: false,
        };
        assert(h.cm@ =~= Seq::new(256, |i: int| 0i16));
        assert(h.corr0@ =~= Seq::new(16_384, |i: int| 0i16));
        assert(h.corr1@ =~= Seq::new(16_384, |i: int| 0i16));
        h
    }

    /// Replaces the statistics by scaled ones. Replies, killers and corrections stay.
    pub fn rescale(&mut self, s: Statistics)
        requires
            old(self).wf(),
            s.fits(),
        ensures
            final(self).wf(),
            *final(self) == (History {
                history_tbl: s.history_tbl,
                hist_sf0: s.hist_sf0,
                hist_sf1: s.hist_sf1,
                cont_hist: s.cont_hist,
                ..*old(self)
            }),
    {
        self.history_tbl = s.history_tbl;
        self.hist_sf0 = s.hist_sf0;
        self.hist_sf1 = s.hist_sf1;
        self.cont_hist = s.cont_hist;
    }

    /// Statistic of a move as ordering and pruning see it.
    pub fn move_hist(&self, stm: usize, m: i16) -> (h: i32)
        requires
            self.wf(),
            0 <= m < 256,
        ensures
            h == self.hist_of(stm as int, m as int),
            -1_048_576 <= h <= 100_000_000,
    {
        if self.sf_history {
            if stm == 0 {
                self.hist_sf0[m as usize]
            } else {
                self.hist_sf1[m as usize]
            }
        } else {
            self.history_tbl[m as usize]
        }
    }

    /// Statistic of a reply; zero without a previous move.
    pub fn cont_hist_read(&self, prev_move: i16, m: i16) -> (h: i32)
        requires
            self.wf(),
            prev_move < 256,
            0 <= m < 256,
        ensures
            h == self.reply_of(prev_move as int, m as int),
            -1_048_576 <= h <= 1_048_576,
    {
        if prev_move < 0 {
            return 0;
        }
        self.cont_hist[prev_move as usize * 256 + m as usize]
    }

    /// Bonus or malus for a move of a side.
    pub fn sf_hist_apply(&mut self, stm: usize, m: i16, bonus: i32)
        requires
            old(self).wf(),
            0 <= m < 256,
            -SF_HIST_MAX <= bonus <= SF_HIST_MAX,
        ensures
            final(self).wf(),
            stm == 0 ==> *final(self) == (History { hist_sf0: final(self).hist_sf0, ..*old(self) })
                && final(self).hist_sf0@ == old(self).hist_sf0@.update(
                m as int,
                gravity(old(self).hist_sf0@[m as int] as int, bonus as int) as i32,
            ),
            stm != 0 ==> *final(self) == (History { hist_sf1: final(self).hist_sf1, ..*old(self) })
                && final(self).hist_sf1@ == old(self).hist_sf1@.update(
                m as int,
                gravity(old(self).hist_sf1@[m as int] as int, bonus as int) as i32,
            ),
    {
        if stm == 0 {
            let h: i32 = gravity_step(self.hist_sf0[m as usize], bonus);
            self.hist_sf0.set(m as usize, h);
        } else {
            let h: i32 = gravity_step(self.hist_sf1[m as usize], bonus);
            self.hist_sf1.set(m as usize, h);
        }
    }

    /// Bonus or malus for a reply.
    pub fn cont_hist_apply(&mut self, prev_move: i16, m: i16, bonus: i32)
        requires
            old(self).wf(),
            0 <= prev_move < 256,
            0 <= m < 256,
            -SF_HIST_MAX <= bonus <= SF_HIST_MAX,
        ensures
            final(self).wf(),
            *final(self) == (History { cont_hist: final(self).cont_hist, ..*old(self) }),
            final(self).cont_hist@ == old(self).cont_hist@.update(
                prev_move * 256 + m,
                gravity(old(self).cont_hist@[prev_move * 256 + m] as int, bonus as int) as i32,
            ),
    {
        let i: usize = prev_move as usize * 256 + m as usize;
        let h: i32 = gravity_step(self.cont_hist[i], bonus);
        self.cont_hist.set(i, h);
    }

    /// Counts a cutoff in the shared counter; halves all counters when one gets large.
    pub fn count_cutoff(&mut self, m: i16, depth: i32)
        requires
            old(self).wf(),
            0 <= m < 256,
            0 <= depth <= 1000,
        ensures
            final(self).wf(),
            *final(self) == (History { history_tbl: final(self).history_tbl, ..*old(self) }),
            final(self).history_tbl@ == counted(old(self).history_tbl@, m as int, depth as int),
    {
        assert(0 <= depth * depth <= 1_000_000) by (nonlinear_arith)
            requires
                0 <= depth <= 1000,
        ;
        let raised: i32 = self.history_tbl[m as usize] + depth * depth;
        let ghost before = self.history_tbl@;
        self.history_tbl.set(m as usize, raised);
        if raised > LEGACY_HIST_MAX {
            self.halve_counters();
        }
        assert(self.history_tbl@ =~= counted(before, m as int, depth as int));
    }

    fn halve_counters(&mut self)
        requires
            old(self).history_tbl@.len() == 256,
            forall|i: int|
                0 <= i < 256 ==> 0 <= #[trigger] old(self).history_tbl@[i] <= 101_000_000,
        ensures
            *final(self) == (History { history_tbl: final(self).history_tbl, ..*old(self) }),
            final(self).history_tbl@ == Seq::new(
                256,
                |i: int| (old(self).history_tbl@[i] as int / 2) as i32,
            ),
    {
        let ghost before = self.history_tbl@;
        let mut i: usize = 0;
        while i < 256
            invariant
                i <= 256,
                before == old(self).history_tbl@,
                self.history_tbl@.len() == 256,
                forall|k: int| 0 <= k < 256 ==> 0 <= #[trigger] before[k] <= 101_000_000,
                forall|k: int| 0 <= k < i ==> self.history_tbl@[k] == (before[k] as int / 2) as i32,
                forall|k: int| i <= k < 256 ==> self.history_tbl@[k] == before[k],
                *self == (History { history_tbl: self.history_tbl, ..*old(self) }),
            decreases 256 - i,
        {
            let h: i32 = self.history_tbl[i];
            assert(before[i as int] >= 0);
            let half: u32 = h as u32 / 2;
            self.history_tbl.set(i, half as i32);
            i += 1;
        }
        assert(self.history_tbl@ =~= Seq::new(256, |k: int| (before[k] as int / 2) as i32));
    }

    /// Remembers a wall that cut at `ply`.
    pub fn note_killer(&mut self, ply: usize, m: i16)
        requires
            old(self).wf(),
            ply < MAX_PLY,
            0 <= m < 256,
        ensures
            final(self).wf(),
            *final(self) == (History { killers: final(self).killers, ..*old(self) }),
            final(self).killers@ == old(self).killers@.update(
                ply as int,
                killers_after(old(self).killers@[ply as int], m),
            ),
    {
        let k = self.killers[ply];
        let after = if k.0 != m {
            (m, k.0)
        } else {
            k
        };
        self.killers.set(ply, after);
    }

    /// Remembers the reply that refuted a move.
    pub fn note_reply(&mut self, prev_move: i16, m: i16)
        requires
            old(self).wf(),
            0 <= prev_move < 256,
            0 <= m < 256,
        ensures
            final(self).wf(),
            *final(self) == (History { cm: final(self).cm, ..*old(self) }),
            final(self).cm@ == old(self).cm@.update(prev_move as int, m),
    {
        self.cm.set(prev_move as usize, m);
    }

    /// Learned evaluation bias of a side on a wall structure.
    pub open spec fn bias(&self, side: int, bucket: int) -> int {
        if side == 0 {
            self.corr0@[bucket] as int
        } else {
            self.corr1@[bucket] as int
        }
    }

    /// Learned evaluation bias of a side on the position's wall structure.
    pub fn correction(&self, g: &GameState, side: usize) -> (c: i32)
        requires
            self.wf(),
            g.wf(),
        ensures
            c == self.bias(side as int, corr_bucket(*g)),
            -256 <= c <= 256,
    {
        let i: usize = wall_corr_index(g);
        if side == 0 {
            self.corr0[i] as i32
        } else {
            self.corr1[i] as i32
        }
    }

    /// Teaches the bias what the search found.
    pub fn learn_correction(
        &mut self,
        g: &GameState,
        side: usize,
        best: i32,
        static_ev: i32,
        depth: i32,
    )
        requires
            old(self).wf(),
            g.wf(),
            -2000 < best < 2000,
            -2000 < static_ev < 2000,
            0 <= depth <= 1000,
        ensures
            final(self).wf(),
            taught(
                *old(self),
                *final(self),
                corr_bucket(*g),
                side as int,
                best as int,
                static_ev as int,
                depth as int,
            ),
    {
        let i: usize = wall_corr_index(g);
        let w: i64 = if depth + 1 < 16 {
            depth as i64 + 1
        } else {
            16
        };
        let gap: i64 = best as i64 - static_ev as i64;
        assert(-64_000 <= gap * w <= 64_000) by (nonlinear_arith)
            requires
                -4000 <= gap <= 4000,
                1 <= w <= 16,
        ;
        proof {
            num::lemma_trunc_div_bound(gap * w, 64);
        }
        let step: i64 = num::trunc_div_i64(gap * w, 64);
        let e: i32 = self.correction(g, side);
        let next: i32 = num::clamp_i32(e + step as i32, -CORR_MAX, CORR_MAX);
        if side == 0 {
            self.corr0.set(i, next as i16);
        } else {
            self.corr1.set(i, next as i16);
        }
    }

    /// Credits the move that cut and debits the moves of its kind tried before it.
    pub fn credit_cutoff(
        &mut self,
        stm: usize,
        m: i16,
        prev_move: i16,
        depth: i32,
        walls: &Vec<i16>,
        pawns: &Vec<i16>,
    )
        requires
            old(self).wf(),
            0 <= m < 256,
            prev_move < 256,
            0 <= depth <= 1000,
            forall|i: int| 0 <= i < walls@.len() ==> 0 <= #[trigger] walls@[i] < 256,
            forall|i: int| 0 <= i < pawns@.len() ==> 0 <= #[trigger] pawns@[i] < 256,
        ensures
            final(self).wf(),
            final(self).hist_sf0@ == if stm == 0 {
                credited(old(self).hist_sf0@, m, depth * depth, walls@ + pawns@)
            } else {
                old(self).hist_sf0@
            },
            final(self).hist_sf1@ == if stm != 0 {
                credited(old(self).hist_sf1@, m, depth * depth, walls@ + pawns@)
            } else {
                old(self).hist_sf1@
            },
            final(self).cont_hist@ == if prev_move >= 0 {
                replies_credited(old(self).cont_hist@, prev_move as int, m, depth * depth, walls@)
            } else {
                old(self).cont_hist@
            },
            *final(self) == (History {
                hist_sf0: final(self).hist_sf0,
                hist_sf1: final(self).hist_sf1,
                cont_hist: final(self).cont_hist,
                ..*old(self)
            }),
    {
        assert(0 <= depth * depth <= 1_000_000) by (nonlinear_arith)
            requires
                0 <= depth <= 1000,
        ;
        let bonus: i32 = depth * depth;
        let ghost start = *self;
        self.sf_hist_apply(stm, m, bonus);
        if moves::is_wall_move(m) && prev_move >= 0 {
            self.cont_hist_apply(prev_move, m, bonus);
        }
        let ghost table0 = if stm == 0 {
            start.hist_sf0@
        } else {
            start.hist_sf1@
        };
        let ghost first = table0.update(m as int, gravity(table0[m as int] as int, bonus as int) as i32);
        let ghost cont_first = if moves::wall_id(m as int) && prev_move >= 0 {
            start.cont_hist@.update(
                prev_move * 256 + m,
                gravity(start.cont_hist@[prev_move * 256 + m] as int, bonus as int) as i32,
            )
        } else {
            start.cont_hist@
        };
        let ghost tried = walls@ + pawns@;
        let nw: usize = walls.len();
        let mut j: usize = 0;
        while j < nw
            invariant
                j <= nw,
                nw == walls@.len(),
                self.wf(),
                tried == walls@ + pawns@,
                0 <= m < 256,
                prev_move < 256,
                0 <= bonus <= 1_000_000,
                forall|i: int| 0 <= i < walls@.len() ==> 0 <= #[trigger] walls@[i] < 256,
                *self == (History {
                    hist_sf0: self.hist_sf0,
                    hist_sf1: self.hist_sf1,
                    cont_hist: self.cont_hist,
                    ..start
                }),
                stm == 0 ==> self.hist_sf1 == start.hist_sf1 && self.hist_sf0@ == debited(
                    first,
                    m,
                    bonus as int,
                    tried,
                    j as int,
                ),
                stm != 0 ==> self.hist_sf0 == start.hist_sf0 && self.hist_sf1@ == debited(
                    first,
                    m,
                    bonus as int,
                    tried,
                    j as int,
                ),
                prev_move < 0 ==> self.cont_hist == start.cont_hist,
                prev_move >= 0 ==> self.cont_hist@ == replies_debited(
                    cont_first,
                    prev_move as int,
                    m,
                    bonus as int,
                    walls@,
                    j as int,
                ),
            decreases nw - j,
        {
            let pm: i16 = walls[j];
            assert(tried[j as int] == pm);
            if pm != m {
                self.sf_hist_apply(stm, pm, -bonus);
                if prev_move >= 0 {
                    self.cont_hist_apply(prev_move, pm, -bonus);
                }
            }
            j += 1;
        }
        let np: usize = pawns.len();
        let mut k: usize = 0;
        while k < np
            invariant
                k <= np,
                np == pawns@.len(),
                nw == walls@.len(),
                self.wf(),
                tried == walls@ + pawns@,
                0 <= m < 256,
                0 <= bonus <= 1_000_000,
                forall|i: int| 0 <= i < pawns@.len() ==> 0 <= #[trigger] pawns@[i] < 256,
                *self == (History {
                    hist_sf0: self.hist_sf0,
                    hist_sf1: self.hist_sf1,
                    cont_hist: self.cont_hist,
                    ..start
                }),
                stm == 0 ==> self.hist_sf1 == start.hist_sf1 && self.hist_sf0@ == debited(
                    first,
                    m,
                    bonus as int,
                    tried,
                    nw + k,
                ),
                stm != 0 ==> self.hist_sf0 == start.hist_sf0 && self.hist_sf1@ == debited(
                    first,
                    m,
                    bonus as int,
                    tried,
                    nw + k,
                ),
                prev_move < 0 ==> self.cont_hist == start.cont_hist,
                prev_move >= 0 ==> self.cont_hist@ == replies_debited(
                    cont_first,
                    prev_move as int,
                    m,
                    bonus as int,
                    walls@,
                    nw as int,
                ),
            decreases np - k,
        {
            let pm: i16 = pawns[k];
            assert(tried[nw + k] == pm);
            if pm != m {
                self.sf_hist_apply(stm, pm, -bonus);
            }
            k += 1;
        }
    }

    /// Ages the statistics between searches: old experience counts half.
    pub fn age(&mut self)
        requires
            old(self).wf(),
        ensures
            final(self).wf(),
            aged(*old(self), *final(self)),
    {
        self.halve_counters();
        halve_table(&mut self.hist_sf0);
        halve_table(&mut self.hist_sf1);
        halve_table(&mut self.cont_hist);
    }
}

/// Every statistic counts half; replies, killers and corrections stay.
pub open spec fn aged(before: History, after: History) -> bool {
    &&& after.history_tbl@ == Seq::new(256, |i: int| (before.history_tbl@[i] as int / 2) as i32)
    &&& after.hist_sf0@ == halves(before.hist_sf0@)
    &&& after.hist_sf1@ == halves(before.hist_sf1@)
    &&& after.cont_hist@ == halves(before.cont_hist@)
    &&& after == (History {
        history_tbl: after.history_tbl,
        hist_sf0: after.hist_sf0,
        hist_sf1: after.hist_sf1,
        cont_hist: after.cont_hist,
        ..before
    })
}

/// Half of every entry, rounded towards zero.
pub open spec fn halves(t: Seq<i32>) -> Seq<i32> {
    Seq::new(t.len(), |i: int| num::trunc_div(t[i] as int, 2) as i32)
}

fn halve_table(t: &mut Vec<i32>)
    requires
        saturated_table(old(t)@, old(t)@.len() as int),
    ensures
        final(t)@ == halves(old(t)@),
        saturated_table(final(t)@, old(t)@.len() as int),
{
    let ghost before = t@;
    let n: usize = t.len();
    let mut i: usize = 0;
    while i < n
        invariant
            i <= n,
            n == before.len(),
            before == old(t)@,
            saturated_table(before, n as int),
            t@.len() == n,
            forall|k: int|
                0 <= k < i ==> #[trigger] t@[k] == num::trunc_div(before[k] as int, 2) as i32,
            forall|k: int| i <= k < n ==> #[trigger] t@[k] == before[k],
        decreases n - i,
    {
        let h: i64 = t[i] as i64;
        assert(-1_048_576 <= before[i as int] <= 1_048_576);
        proof {
            num::lemma_trunc_div_bound(h as int, 2);
        }
        let half: i64 = num::trunc_div_i64(h, 2);
        t.set(i, half as i32);
        i += 1;
    }
    assert(t@ =~= halves(before));
    assert forall|k: int| 0 <= k < n implies -1_048_576 <= #[trigger] t@[k] <= 1_048_576 by {
        num::lemma_trunc_div_bound(before[k] as int, 2);
        assert(-1_048_576 <= before[k] <= 1_048_576);
    }
}

/// Table after debiting the first `n` tried moves, all but the one that cut.
pub open spec fn debited(t: Seq<i32>, m: i16, bonus: int, tried: Seq<i16>, n: int) -> Seq<i32>
    decreases n,
{
    if n <= 0 {
        t
    } else {
        let before = debited(t, m, bonus, tried, n - 1);
        let pm = tried[n - 1];
        if pm == m {
            before
        } else {
            before.update(pm as int, gravity(before[pm as int] as int, -bonus) as i32)
        }
    }
}

/// Table after crediting the move that cut and debiting the other tried moves.
pub open spec fn credited(t: Seq<i32>, m: i16, bonus: int, tried: Seq<i16>) -> Seq<i32> {
    debited(
        t.update(m as int, gravity(t[m as int] as int, bonus) as i32),
        m,
        bonus,
        tried,
        tried.len() as int,
    )
}

/// Reply table after debiting the first `n` tried walls.
pub open spec fn replies_debited(
    t: Seq<i32>,
    prev: int,
    m: i16,
    bonus: int,
    tried: Seq<i16>,
    n: int,
) -> Seq<i32>
    decreases n,
{
    if n <= 0 {
        t
    } else {
        let before = replies_debited(t, prev, m, bonus, tried, n - 1);
        let pm = tried[n - 1];
        let i = prev * 256 + pm;
        if pm == m {
            before
        } else {
            before.update(i, gravity(before[i] as int, -bonus) as i32)
        }
    }
}

/// Reply table after a cutoff: only walls are credited and debited.
pub open spec fn replies_credited(t: Seq<i32>, prev: int, m: i16, bonus: int, walls: Seq<i16>) -> Seq<
    i32,
> {
    let i = prev * 256 + m;
    replies_debited(
        if moves::wall_id(m as int) {
            t.update(i, gravity(t[i] as int, bonus) as i32)
        } else {
            t
        },
        prev,
        m,
        bonus,
        walls,
        walls.len() as int,
    )
}

/// The same statistics under the same switch.
pub open spec fn same_experience(a: History, b: History) -> bool {
    &&& a.history_tbl@ == b.history_tbl@
    &&& a.hist_sf0@ == b.hist_sf0@
    &&& a.hist_sf1@ == b.hist_sf1@
    &&& a.cont_hist@ == b.cont_hist@
    &&& a.cm@ == b.cm@
    &&& a.killers@ == b.killers@
    &&& a.corr0@ == b.corr0@
    &&& a.corr1@ == b.corr1@
    &&& a.sf_history == b.sf_history
}

fn copy_i32(v: &Vec<i32>) -> (r: Vec<i32>)
    ensures
        r@ == v@,
{
    let r = v.clone();
    assert(r@ =~= v@);
    r
}

fn copy_i16(v: &Vec<i16>) -> (r: Vec<i16>)
    ensures
        r@ == v@,
{
    let r = v.clone();
    assert(r@ =~= v@);
    r
}

fn copy_killers(v: &Vec<(i16, i16)>) -> (r: Vec<(i16, i16)>)
    ensures
        r@ == v@,
{
    let mut r: Vec<(i16, i16)> = Vec::new();
    let n: usize = v.len();
    let mut i: usize = 0;
    while i < n
        invariant
            i <= n,
            n == v@.len(),
            r@ == v@.take(i as int),
        decreases n - i,
    {
        r.push(v[i]);
        i += 1;
        assert(r@ =~= v@.take(i as int));
    }
    assert(v@.take(n as int) =~= v@);
    r
}

impl History {
    /// A copy of everything learned.
    pub fn duplicate(&self) -> (h: History)
        requires
            self.wf(),
        ensures
            h.wf(),
            same_experience(h, *self),
    {
        History {
            history_tbl: copy_i32(&self.history_tbl),
            hist_sf0: copy_i32(&self.hist_sf0),
            hist_sf1: copy_i32(&self.hist_sf1),
            cont_hist: copy_i32(&self.cont_hist),
            cm: copy_i16(&self.cm),
            killers: copy_killers(&self.killers),
            corr0: copy_i16(&self.corr0),
            corr1: copy_i16(&self.corr1),
            sf_history: self.sf_history,
        }
    }
}

} // verus!

//! Sharing a root between threads: which root moves each helper searches, and in which
//! order.

use crate::num;
use vstd::prelude::*;

verus! {

/// Width of the root by worker, in percent of the moves.
pub const LAZY_SMP_WIDTHS: [usize; 4] = [95, 80, 80, 80];

/// Root moves of the last worker when it goes for depth.
pub const LAZY_SMP_LAST_WORKER_TOP_N: usize = 3;

pub const LAZY_SMP_MAX_THREADS: usize = 16;

/// Heat a root move needs by worker, in percent of the hottest.
pub const LAZY_SMP_VALUE_THRESHOLD_PCTS: [i32; 4] = [20, 30, 40, 40];

/// Root share of one worker.
#[derive(Clone, Copy, Debug, PartialEq, Eq, Structural)]
pub struct WorkerPlan {
    pub worker_id: usize,
    /// Root moves left to the worker by the heat filter.
    pub root_move_count: usize,
    /// Root moves before the filter.
    pub root_moves_before_filter: usize,
    /// Heat threshold of the filter, in percent of the hottest move.
    pub root_value_threshold_pct: usize,
    /// Only this many of them, the best ordered.
    pub top_n_override: Option<usize>,
}

/// Number of root moves a plan allows.
pub open spec fn allowed_by(p: WorkerPlan) -> int {
    match p.top_n_override {
        Some(top) => num::smaller(
            num::larger(top as int, 1),
            num::larger(p.root_move_count as int, 1),
        ),
        None => p.root_move_count as int,
    }
}

impl WorkerPlan {
    /// Number of root moves the worker searches.
    pub fn allowed_root_moves(&self) -> (n: usize)
        ensures
            n == allowed_by(*self),
    {
        match self.top_n_override {
            Some(top) => top.max(1).min(self.root_move_count.max(1)),
            None => self.root_move_count,
        }
    }
}

/// Width of a worker; workers beyond the schedule take its last entry.
pub fn lazy_smp_width_percent(worker_id: usize) -> (pct: usize)
    ensures
        pct == if worker_id == 0 {
            95int
        } else {
            80int
        },
{
    let widths: [usize; 4] = LAZY_SMP_WIDTHS;
    if worker_id < 4 {
        widths[worker_id]
    } else {
        widths[3]
    }
}

/// Heat threshold of a worker.
pub open spec fn threshold_of(worker_id: int) -> int {
    if worker_id == 0 {
        20
    } else if worker_id == 1 {
        30
    } else {
        40
    }
}

/// Heat threshold of a worker; workers beyond the schedule take its last entry.
pub fn lazy_smp_value_threshold_pct(worker_id: usize) -> (pct: i32)
    ensures
        pct == threshold_of(worker_id as int),
{
    let pcts: [i32; 4] = LAZY_SMP_VALUE_THRESHOLD_PCTS;
    if worker_id < 4 {
        pcts[worker_id]
    } else {
        pcts[3]
    }
}

/// No more than the largest `i32`, no less than the least.
pub open spec fn saturated(x: int) -> int {
    num::clamped(x, i32::MIN as int, i32::MAX as int)
}

/// The move clears the threshold.
pub open spec fn hot_enough(heat: int, max_heat: int, pct: int) -> bool {
    saturated(num::larger(heat, 0) * 100) >= saturated(pct * max_heat)
}

/// The hot moves among the first `n`.
pub open spec fn hot_moves(
    ms: Seq<i16>,
    heat: Seq<i32>,
    max_heat: int,
    pct: int,
    n: int,
) -> Seq<i16>
    decreases n,
{
    if n <= 0 {
        Seq::empty()
    } else {
        let before = hot_moves(ms, heat, max_heat, pct, n - 1);
        if hot_enough(heat[ms[n - 1] as int] as int, max_heat, pct) {
            before.push(ms[n - 1])
        } else {
            before
        }
    }
}

/// What a worker keeps of the root moves: the hot ones, or all where there is no heat or
/// none is hot enough.
pub open spec fn kept_moves(ms: Seq<i16>, heat: Seq<i32>, max_heat: int, pct: int) -> Seq<i16> {
    let hot = hot_moves(ms, heat, max_heat, pct, ms.len() as int);
    if max_heat <= 0 || hot.len() == 0 {
        ms
    } else {
        hot
    }
}

fn saturating_product(a: i32, b: i32) -> (r: i32)
    ensures
        r == saturated(a * b),
{
    let (x, y): (i64, i64) = (a as i64, b as i64);
    assert(-0x4000_0000_0000_0000 <= x * y <= 0x4000_0000_0000_0000) by (nonlinear_arith)
        requires
            -0x8000_0000 <= x <= 0x7FFF_FFFF,
            -0x8000_0000 <= y <= 0x7FFF_FFFF,
    ;
    let p: i64 = x * y;
    if p < -0x8000_0000 {
        i32::MIN
    } else if p > 0x7FFF_FFFF {
        i32::MAX
    } else {
        p as i32
    }
}

fn copied(ms: &[i16], n: usize) -> (out: Vec<i16>)
    requires
        n <= ms@.len(),
    ensures
        out@ == ms@.take(n as int),
{
    let mut out: Vec<i16> = Vec::new();
    let mut i: usize = 0;
    while i < n
        invariant
            i <= n <= ms@.len(),
            out@ == ms@.take(i as int),
        decreases n - i,
    {
        out.push(ms[i]);
        i += 1;
        assert(out@ =~= ms@.take(i as int));
    }
    out
}

/// What a worker keeps of the root moves.
pub fn lazy_smp_value_filtered_moves(
    root_moves: &[i16],
    heat_by_id: &[i32; 256],
    max_heat: i32,
    threshold_pct: i32,
) -> (kept: Vec<i16>)
    requires
        forall|i: int| 0 <= i < root_moves@.len() ==> 0 <= #[trigger] root_moves@[i] < 256,
    ensures
        kept@ == kept_moves(root_moves@, heat_by_id@, max_heat as int, threshold_pct as int),
{
    let n: usize = root_moves.len();
    assert(root_moves@.take(n as int) =~= root_moves@);
    if max_heat <= 0 {
        return copied(root_moves, n);
    }
    let need: i32 = saturating_product(threshold_pct, max_heat);
    let mut kept: Vec<i16> = Vec::new();
    let mut i: usize = 0;
    while i < n
        invariant
            i <= n,
            n == root_moves@.len(),
            forall|k: int| 0 <= k < root_moves@.len() ==> 0 <= #[trigger] root_moves@[k] < 256,
            need == saturated(threshold_pct * max_heat),
            kept@ == hot_moves(
                root_moves@,
                heat_by_id@,
                max_heat as int,
                threshold_pct as int,
                i as int,
            ),
        decreases n - i,
    {
        let m: i16 = root_moves[i];
        let h: i32 = heat_by_id[m as usize].max(0);
        if saturating_product(h, 100) >= need {
            kept.push(m);
        }
        i += 1;
    }
    if kept.len() == 0 {
        copied(root_moves, n)
    } else {
        kept
    }
}

proof fn lemma_hot_moves_shrink(
    ms: Seq<i16>,
    heat: Seq<i32>,
    max_heat: int,
    loose: int,
    strict: int,
    n: int,
    m: i16,
)
    requires
        0 <= n <= ms.len(),
        max_heat > 0,
        loose <= strict,
    ensures
        hot_moves(ms, heat, max_heat, strict, n).contains(m) ==> hot_moves(
            ms,
            heat,
            max_heat,
            loose,
            n,
        ).contains(m),
        hot_moves(ms, heat, max_heat, strict, n).len() <= hot_moves(ms, heat, max_heat, loose, n).len(),
    decreases n,
{
    if n > 0 {
        lemma_hot_moves_shrink(ms, heat, max_heat, loose, strict, n - 1, m);
        assert(loose * max_heat <= strict * max_heat) by (nonlinear_arith)
            requires
                loose <= strict,
                max_heat > 0,
        ;
        let s0 = hot_moves(ms, heat, max_heat, strict, n - 1);
        let l0 = hot_moves(ms, heat, max_heat, loose, n - 1);
        let s = hot_moves(ms, heat, max_heat, strict, n);
        let l = hot_moves(ms, heat, max_heat, loose, n);
        if s.contains(m) {
            let i = choose|i: int| 0 <= i < s.len() && s[i] == m;
            if i < s0.len() {
                assert(s0[i] == m);
                assert(l0.contains(m));
                let j = choose|j: int| 0 <= j < l0.len() && l0[j] == m;
                assert(l[j] == m);
            } else {
                assert(l[l.len() - 1] == m);
            }
        }
    }
}

/// A stricter threshold keeps no move that a looser one drops, unless it kept nothing and
/// fell back to all.
pub proof fn law_thresholds_are_monotone(
    ms: Seq<i16>,
    heat: Seq<i32>,
    max_heat: int,
    loose: int,
    strict: int,
    m: i16,
)
    requires
        loose <= strict,
        max_heat > 0,
        hot_moves(ms, heat, max_heat, strict, ms.len() as int).len() > 0,
        kept_moves(ms, heat, max_heat, strict).contains(m),
    ensures
        kept_moves(ms, heat, max_heat, loose).contains(m),
{
    lemma_hot_moves_shrink(ms, heat, max_heat, loose, strict, ms.len() as int, m);
}

/// Number of root moves that a width in percent comes to: rounded up, one at least.
pub open spec fn width_count(count: int, pct: int) -> int {
    if count == 0 {
        0
    } else {
        num::smaller(
            num::larger(
                num::smaller(num::smaller(count * pct, usize::MAX as int) + 99, usize::MAX as int)
                    / 100,
                1,
            ),
            count,
        )
    }
}

/// Number of root moves that a width in percent comes to.
pub fn lazy_smp_allowed_root_moves(root_move_count: usize, root_width_percent: usize) -> (n: usize)
    ensures
        n == width_count(root_move_count as int, root_width_percent as int),
{
    if root_move_count == 0 {
        return 0;
    }
    let limit: u128 = usize::MAX as u128;
    let (a, b): (u128, u128) = (root_move_count as u128, root_width_percent as u128);
    assert(a * b <= 0xFFFF_FFFF_FFFF_FFFE_0000_0000_0000_0001) by (nonlinear_arith)
        requires
            a <= 0xFFFF_FFFF_FFFF_FFFF,
            b <= 0xFFFF_FFFF_FFFF_FFFF,
    ;
    let product: u128 = a * b;
    let capped: u128 = if product > limit {
        limit
    } else {
        product
    };
    let sum: u128 = if capped + 99 > limit {
        limit
    } else {
        capped + 99
    };
    let allowed: usize = (sum / 100) as usize;
    allowed.max(1).min(root_move_count)
}

/// Greatest common divisor.
pub open spec fn gcd(a: nat, b: nat) -> nat
    decreases b,
{
    if b == 0 {
        a
    } else {
        gcd(b, a % b)
    }
}

/// Greatest common divisor.
pub fn gcd_usize(a: usize, b: usize) -> (g: usize)
    ensures
        g == gcd(a as nat, b as nat),
{
    let (mut x, mut y): (usize, usize) = (a, b);
    while y != 0
        invariant
            gcd(x as nat, y as nat) == gcd(a as nat, b as nat),
        decreases y,
    {
        let r: usize = x % y;
        x = y;
        y = r;
    }
    x
}

/// Coefficients that combine two numbers to their greatest common divisor.
proof fn lemma_bezout(a: nat, b: nat) -> (uv: (int, int))
    ensures
        uv.0 * a + uv.1 * b == gcd(a, b),
    decreases b,
{
    if b == 0 {
        assert(1 * a + 0 * b == a) by (nonlinear_arith);
        (1int, 0int)
    } else {
        let (u, v) = lemma_bezout(b, a % b);
        let q = (a / b) as int;
        let r = (a % b) as int;
        assert(a == b * q + r) by {
            vstd::arithmetic::div_mod::lemma_fundamental_div_mod(a as int, b as int);
        }
        assert(v * a + (u - v * q) * b == u * b + v * r) by (nonlinear_arith)
            requires
                a == b * q + r,
        ;
        (v, u - v * q)
    }
}

/// A number that divides a multiple of a coprime one divides the factor.
proof fn lemma_coprime_divides(s: nat, n: nat, x: int, k: int)
    requires
        n > 0,
        gcd(s, n) == 1,
        s * x == n * k,
    ensures
        x % (n as int) == 0,
{
    let (u, v) = lemma_bezout(s, n);
    assert(x == n * (u * k + v * x)) by (nonlinear_arith)
        requires
            u * s + v * n == 1,
            s * x == n * k,
    ;
    vstd::arithmetic::div_mod::lemma_mod_multiples_basic(u * k + v * x, n as int);
    assert((u * k + v * x) * n == n * (u * k + v * x)) by (nonlinear_arith);
}

/// Places of a coprime walk over `n` places do not repeat within `n` steps.
proof fn lemma_walk_is_injective(s: nat, n: nat, offset: int, i: int, j: int)
    requires
        n > 0,
        gcd(s, n) == 1,
        0 <= i < j < n,
    ensures
        (offset + i * s) % (n as int) != (offset + j * s) % (n as int),
{
    let a = offset + i * s;
    let b = offset + j * s;
    if a % (n as int) == b % (n as int) {
        vstd::arithmetic::div_mod::lemma_fundamental_div_mod(a, n as int);
        vstd::arithmetic::div_mod::lemma_fundamental_div_mod(b, n as int);
        let k = b / (n as int) - a / (n as int);
        let x = j - i;
        assert(s * x == n * k) by (nonlinear_arith)
            requires
                a == offset + i * s,
                b == offset + j * s,
                x == j - i,
                a == n * (a / (n as int)) + a % (n as int),
                b == n * (b / (n as int)) + b % (n as int),
                a % (n as int) == b % (n as int),
                k == b / (n as int) - a / (n as int),
        ;
        lemma_coprime_divides(s, n, x, k);
        vstd::arithmetic::div_mod::lemma_small_mod(x as nat, n);
    }
}

/// One more than a multiple is coprime.
proof fn lemma_one_more_is_coprime(n: nat, q: nat)
    requires
        n > 0,
    ensures
        gcd((1 + n * q) as nat, n) == 1,
{
    let a = (1 + n * q) as nat;
    vstd::arithmetic::div_mod::lemma_mod_multiples_vanish(q as int, 1, n as int);
    assert(n * q + 1 == a);
    if n == 1 {
        assert(a % 1 == 0);
        assert(gcd(a, 1) == gcd(1, 0));
    } else {
        vstd::arithmetic::div_mod::lemma_small_mod(1, n);
        assert(a % n == 1);
        assert(gcd(a, n) == gcd(n, 1));
        assert(gcd(n, 1) == gcd(1, n % 1));
        assert(n % 1 == 0);
    }
}

/// Stride of a worker: the first odd number from its own on that is coprime to the count.
pub open spec fn is_stride(s: int, worker_id: int, len: int) -> bool {
    let from = num::larger(2 * worker_id + 1, 3);
    &&& s >= from
    &&& s % 2 == 1
    &&& gcd(s as nat, len as nat) == 1
    &&& forall|t: int| from <= t < s && #[trigger] (t % 2) == 1 ==> gcd(t as nat, len as nat) != 1
}

/// The walk's places can be computed in machine words.
pub open spec fn walk_fits(worker_id: int, len: int) -> bool {
    37 * worker_id + 4 * len + 8 <= usize::MAX
}

fn coprime_stride(worker_id: usize, len: usize) -> (stride: usize)
    requires
        walk_fits(worker_id as int, len as int),
        0 < len,
    ensures
        is_stride(stride as int, worker_id as int, len as int),
        stride < 2 * worker_id + 3 + 2 * len,
{
    let from: usize = (2 * worker_id + 1).max(3);
    let ghost m = (from as int - 1 + 2 * len as int - 1) / (2 * len as int);
    let ghost top = 1 + len * (2 * m);
    proof {
        let l2 = 2 * len as int;
        vstd::arithmetic::div_mod::lemma_fundamental_div_mod(from as int - 1 + l2 - 1, l2);
        vstd::arithmetic::div_mod::lemma_mod_bound(from as int - 1 + l2 - 1, l2);
        assert(l2 * m == len * (2 * m)) by (nonlinear_arith)
            requires
                l2 == 2 * len,
        ;
        assert(from <= top < from + l2);
        assert(m >= 0) by {
            assert(from as int - 1 + l2 - 1 >= 0);
            vstd::arithmetic::div_mod::lemma_div_pos_is_pos(from as int - 1 + l2 - 1, l2);
        }
        lemma_one_more_is_coprime(len as nat, (2 * m) as nat);
        assert(top % 2 == 1) by {
            assert(len * (2 * m) == 2 * (len * m)) by (nonlinear_arith);
        }
    }
    let mut stride: usize = from;
    while gcd_usize(stride, len) != 1
        invariant
            from <= stride <= top,
            from == num::larger(2 * worker_id + 1, 3),
            top < from + 2 * len,
            from <= 2 * worker_id + 3,
            walk_fits(worker_id as int, len as int),
            stride % 2 == 1,
            top % 2 == 1,
            gcd(top as nat, len as nat) == 1,
            forall|t: int|
                from <= t < stride && #[trigger] (t % 2) == 1 ==> gcd(t as nat, len as nat) != 1,
        decreases top - stride,
    {
        stride = stride + 2;
    }
    stride
}

/// Places of a worker's root moves: the first ones for the main worker and for a worker
/// that goes for depth, otherwise a coprime walk that starts somewhere of its own.
pub open spec fn profile_places(
    idx: Seq<usize>,
    worker_id: int,
    len: int,
    force_top_k: bool,
    stride: int,
) -> bool {
    if worker_id == 0 || force_top_k || len <= 1 {
        forall|i: int| 0 <= i < idx.len() ==> #[trigger] idx[i] == i
    } else {
        is_stride(stride, worker_id, len) && forall|i: int|
            0 <= i < idx.len() ==> #[trigger] idx[i] == ((worker_id * 37) % len + i * stride) % len
    }
}

/// `ms` are a worker's root moves and `idx` their places: as many as allowed, none twice.
pub open spec fn profile_is(
    ms: Seq<i16>,
    idx: Seq<usize>,
    root: Seq<i16>,
    worker_id: int,
    allowed: int,
    force_top_k: bool,
) -> bool {
    &&& ms.len() == num::smaller(allowed, root.len() as int)
    &&& idx.len() == ms.len()
    &&& forall|i: int|
        0 <= i < idx.len() ==> (#[trigger] idx[i]) < root.len() && ms[i] == root[idx[i] as int]
    &&& forall|i: int, j: int| 0 <= i < j < idx.len() ==> #[trigger] idx[i] != #[trigger] idx[j]
    &&& walks(idx, worker_id, root.len() as int, force_top_k)
}

/// The places follow each other as they should, under some stride.
pub open spec fn walks(idx: Seq<usize>, worker_id: int, len: int, force_top_k: bool) -> bool {
    exists|stride: int| #[trigger] profile_places(idx, worker_id, len, force_top_k, stride)
}

/// Root moves of a worker and their places. No place comes twice.
pub fn lazy_smp_profile_root_moves(
    root_moves: &[i16],
    worker_id: usize,
    allowed: usize,
    force_top_k: bool,
) -> (r: (Vec<i16>, Vec<usize>))
    requires
        walk_fits(worker_id as int, root_moves@.len() as int),
    ensures
        profile_is(
            r.0@,
            r.1@,
            root_moves@,
            worker_id as int,
            allowed as int,
            force_top_k,
        ),
{
    let len: usize = root_moves.len();
    let count: usize = allowed.min(len);
    let mut idx: Vec<usize> = Vec::new();
    let mut ms: Vec<i16> = Vec::new();
    if worker_id == 0 || force_top_k || len <= 1 {
        let mut i: usize = 0;
        while i < count
            invariant
                i <= count <= len,
                len == root_moves@.len(),
                idx@.len() == i,
                ms@.len() == i,
                forall|k: int| 0 <= k < i ==> #[trigger] idx@[k] == k,
                forall|k: int| 0 <= k < i ==> #[trigger] ms@[k] == root_moves@[k],
            decreases count - i,
        {
            idx.push(i);
            ms.push(root_moves[i]);
            i += 1;
        }
        assert(profile_places(idx@, worker_id as int, len as int, force_top_k, 0));
        return (ms, idx);
    }
    let stride: usize = coprime_stride(worker_id, len);
    let offset: usize = (worker_id * 37) % len;
    let mut cursor: usize = offset;
    let mut i: usize = 0;
    proof {
        vstd::arithmetic::div_mod::lemma_small_mod(offset as nat, len as nat);
        assert(offset + 0 * stride == offset) by (nonlinear_arith);
    }
    while i < count
        invariant
            i <= count <= len,
            len == root_moves@.len(),
            0 < len,
            walk_fits(worker_id as int, len as int),
            stride < 2 * worker_id + 3 + 2 * len,
            gcd(stride as nat, len as nat) == 1,
            cursor < len,
            cursor == (offset + i * stride) % len as int,
            idx@.len() == i,
            ms@.len() == i,
            forall|k: int| 0 <= k < i ==> #[trigger] idx@[k] == (offset + k * stride) % len as int,
            forall|k: int|
                0 <= k < i ==> (#[trigger] idx@[k]) < len && ms@[k] == root_moves@[idx@[k] as int],
            forall|a: int, b: int|
                0 <= a < b < i ==> #[trigger] idx@[a] != #[trigger] idx@[b],
        decreases count - i,
    {
        proof {
            assert forall|k: int| 0 <= k < i implies #[trigger] idx@[k] != cursor by {
                lemma_walk_is_injective(stride as nat, len as nat, offset as int, k, i as int);
            }
            let at = offset + i * stride;
            vstd::arithmetic::div_mod::lemma_add_mod_noop(at, stride as int, len as int);
            vstd::arithmetic::div_mod::lemma_mod_twice(at, len as int);
            vstd::arithmetic::div_mod::lemma_add_mod_noop(cursor as int, stride as int, len as int);
            assert(offset + (i + 1) * stride == at + stride) by (nonlinear_arith)
                requires
                    at == offset + i * stride,
            ;
            assert((cursor + stride) % (len as int) == (offset + (i + 1) * stride) % (len as int));
        }
        idx.push(cursor);
        ms.push(root_moves[cursor]);
        cursor = (cursor + stride) % len;
        i += 1;
    }
    assert(profile_places(idx@, worker_id as int, len as int, force_top_k, stride as int));
    (ms, idx)
}

/// Plan of worker `w`.
pub open spec fn plan_is(p: WorkerPlan, w: int, count: int, before: int, deep: bool) -> bool {
    &&& p.worker_id == w
    &&& p.root_move_count == count
    &&& p.root_moves_before_filter == before
    &&& p.root_value_threshold_pct == threshold_of(w)
    &&& p.top_n_override == if deep {
        Some(3usize)
    } else {
        None
    }
}

/// Plan of each worker: how much the filter left it, and the last one's depth role.
pub fn worker_plans(
    kept: &Vec<Vec<i16>>,
    root_moves_before_filter: usize,
    lazy_topn: bool,
) -> (plans: Vec<WorkerPlan>)
    ensures
        plans@.len() == kept@.len(),
        forall|w: int|
            0 <= w < plans@.len() ==> plan_is(
                #[trigger] plans@[w],
                w,
                kept@[w]@.len() as int,
                root_moves_before_filter as int,
                lazy_topn && kept@.len() >= 3 && w == kept@.len() - 1,
            ),
{
    let threads: usize = kept.len();
    let mut plans: Vec<WorkerPlan> = Vec::new();
    let mut w: usize = 0;
    while w < threads
        invariant
            w <= threads,
            threads == kept@.len(),
            plans@.len() == w,
            forall|k: int|
                0 <= k < w ==> plan_is(
                    #[trigger] plans@[k],
                    k,
                    kept@[k]@.len() as int,
                    root_moves_before_filter as int,
                    lazy_topn && kept@.len() >= 3 && k == kept@.len() - 1,
                ),
        decreases threads - w,
    {
        let top: Option<usize> = if lazy_topn && threads >= 3 && w == threads - 1 {
            Some(LAZY_SMP_LAST_WORKER_TOP_N)
        } else {
            None
        };
        plans.push(
            WorkerPlan {
                worker_id: w,
                root_move_count: kept[w].len(),
                root_moves_before_filter,
                root_value_threshold_pct: lazy_smp_value_threshold_pct(w) as usize,
                top_n_override: top,
            },
        );
        w += 1;
    }
    plans
}

/// Threads actually used.
pub fn thread_count(threads: usize) -> (n: usize)
    ensures
        n == num::smaller(num::larger(threads as int, 1), 16),
{
    threads.max(1).min(LAZY_SMP_MAX_THREADS)
}

} // verus!

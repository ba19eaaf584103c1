//! Static evaluation around the network: certificates and their memo, the evaluation
//! cache, learned corrections, and the bookkeeping of the network's wall inputs.

use crate::dist_cache;
use crate::game;
use crate::game::GameState;
use crate::host::SearchHost;
use crate::num;
use std::collections::HashMap;
use vstd::prelude::*;

verus! {

broadcast use vstd::std_specs::hash::group_hash_axioms;

/// Score of a certified win.
pub const CERT_SCORE: i32 = 2500;

/// Score of a race decided by one side's lack of walls.
pub const BROKE_SCORE: i32 = 1800;

/// Certificate results kept before the memo is emptied.
pub const CERT_MEMO_LIMIT: usize = 16_384;

/// Budget of a certificate search that names none.
pub const CERT_DEFAULT_BUDGET: u64 = 2500;

/// Hands that fit the cache tags.
pub open spec fn hands_ok(p: game::Position) -> bool {
    0 <= p.wl0 <= 200 && 0 <= p.wl1 <= 200
}

/// Memo key of a position and side.
pub open spec fn memo_key(p: game::Position, side: int) -> int {
    p.hash_lo + p.hash_hi * 0x1_0000_0000 + side * 0x1_0000_0000_0000_0000 + p.wl0
        * 0x2_0000_0000_0000_0000 + p.wl1 * 0x200_0000_0000_0000_0000
}

/// Memo keys tell positions, sides and hands apart.
pub proof fn law_memo_keys_are_distinct(p: game::Position, s: int, q: game::Position, t: int)
    requires
        hands_ok(p),
        hands_ok(q),
        0 <= s < 2,
        0 <= t < 2,
        memo_key(p, s) == memo_key(q, t),
    ensures
        p.hash_lo == q.hash_lo,
        p.hash_hi == q.hash_hi,
        s == t,
        p.wl0 == q.wl0,
        p.wl1 == q.wl1,
{
    let b: int = 0x1_0000_0000;
    let p1 = p.hash_hi + b * (s + 2 * (p.wl0 + 256 * p.wl1));
    let q1 = q.hash_hi + b * (t + 2 * (q.wl0 + 256 * q.wl1));
    assert(memo_key(p, s) == p.hash_lo + b * p1);
    assert(memo_key(q, t) == q.hash_lo + b * q1);
    lemma_digits(p.hash_lo as int, p1, q.hash_lo as int, q1, b);
    lemma_digits(
        p.hash_hi as int,
        s + 2 * (p.wl0 + 256 * p.wl1),
        q.hash_hi as int,
        t + 2 * (q.wl0 + 256 * q.wl1),
        b,
    );
}

/// Last digit and rest of a number are determined by it.
proof fn lemma_digits(a: int, x: int, c: int, y: int, b: int)
    requires
        0 <= a < b,
        0 <= c < b,
        a + b * x == c + b * y,
    ensures
        a == c,
        x == y,
{
    if x < y {
        assert(b * (y - x) >= b) by (nonlinear_arith)
            requires
                b > 0,
                y - x >= 1,
        ;
        assert(b * (y - x) == b * y - b * x) by (nonlinear_arith);
    } else if y < x {
        assert(b * (x - y) >= b) by (nonlinear_arith)
            requires
                b > 0,
                x - y >= 1,
        ;
        assert(b * (x - y) == b * x - b * y) by (nonlinear_arith);
    }
}

/// What the memo says about a new attempt with this budget: a proof is permanent, a
/// failure answers attempts that would not work harder.
pub open spec fn memo_verdict(prior: Option<i32>, budget: int) -> Option<bool> {
    match prior {
        Some(c) => if c == 1 {
            Some(true)
        } else if budget <= -c {
            Some(false)
        } else {
            None
        },
        None => None,
    }
}

/// Work recorded for a failure: the nodes spent, or the budget when none were counted.
pub open spec fn work_done(budget: int, nodes: int) -> int {
    if nodes > 0 {
        num::smaller(nodes, i32::MAX as int)
    } else {
        budget
    }
}

/// Memo entry after an attempt. A recorded failure is never weakened.
pub open spec fn memo_entry(prior: Option<i32>, budget: int, proven: bool, nodes: int) -> int {
    if proven {
        1
    } else {
        match prior {
            Some(c) => -num::larger(work_done(budget, nodes), -c),
            None => -work_done(budget, nodes),
        }
    }
}

/// Effort of an attempt; zero asks for the default.
pub open spec fn effort(budget: int) -> int {
    if budget == 0 {
        2500
    } else {
        budget
    }
}

/// The memo with one more entry, emptied first when it has grown too large.
pub open spec fn remembered(memo: Map<u128, i32>, key: int, entry: int) -> Map<u128, i32> {
    (if memo.len() > CERT_MEMO_LIMIT {
        Map::<u128, i32>::empty()
    } else {
        memo
    }).insert(key as u128, entry as i32)
}

/// The memo came from `memo` by an attempt of this effort that ended in `proven`.
pub open spec fn attempted(
    after: Map<u128, i32>,
    memo: Map<u128, i32>,
    key: int,
    prior: Option<i32>,
    budget: int,
    proven: bool,
    nodes: u64,
) -> bool {
    after == remembered(memo, key, memo_entry(prior, budget, proven, nodes as int))
}

/// After an attempt, the memo answers the same attempt the way it came out, and whatever
/// it answered before it still answers.
pub proof fn law_memo_only_learns(prior: Option<i32>, budget: int, proven: bool, nodes: int, later: int)
    requires
        0 < budget <= i32::MAX,
        0 <= nodes,
        prior matches Some(c) ==> c == 1 || c < 0,
        memo_verdict(prior, budget) is None,
        0 < later,
    ensures
        ({
            let e = memo_entry(prior, budget, proven, nodes);
            &&& e == 1 || e < 0
            &&& proven ==> memo_verdict(Some(e as i32), later) == Some(true)
            &&& !proven && memo_verdict(prior, later) == Some(false) ==> memo_verdict(
                Some(e as i32),
                later,
            ) == Some(false)
            &&& !proven && (nodes == 0 || nodes >= budget) ==> memo_verdict(
                Some(e as i32),
                budget,
            ) == Some(false)
        }),
{
}

/// Results of certificate searches.
pub struct CertMemo {
    pub cw_cache: HashMap<u128, i32>,
    /// Certificate searches in this search, and how many may be launched from evaluation.
    pub cw_think_calls: u32,
    pub cw_cap: u32,
}

/// What came of a certificate question.
#[derive(Clone, Copy, Debug, PartialEq, Eq, Structural)]
pub enum CertOutcome {
    /// The pure race decided.
    Race(bool),
    /// The memo knew.
    Memo(bool),
    /// A search was run; its result and the nodes it spent.
    Searched(bool, u64),
}

impl CertMemo {
    /// Every entry is a proof or a failure.
    pub open spec fn wf(&self) -> bool {
        forall|k: u128| #[trigger]
            self.cw_cache@.contains_key(k) ==> self.cw_cache@[k] == 1 || self.cw_cache@[k] < 0
    }

    /// Entry of a position and side.
    pub open spec fn known(&self, p: game::Position, side: int) -> Option<i32> {
        let k = memo_key(p, side) as u128;
        if self.cw_cache@.contains_key(k) {
            Some(self.cw_cache@[k])
        } else {
            None
        }
    }

    pub fn new() -> (m: CertMemo)
        ensures
            m.wf(),
            m.cw_cache@ == Map::<u128, i32>::empty(),
            m.cw_think_calls == 0,
            m.cw_cap == 24,
    {
        CertMemo { cw_cache: HashMap::new(), cw_think_calls: 0, cw_cap: 24 }
    }

    fn key(g: &GameState, side: usize) -> (k: u128)
        requires
            g.wf(),
            hands_ok(g@),
            side < 2,
        ensures
            k == memo_key(g@, side as int),
    {
        g.hash_lo as u128 + g.hash_hi as u128 * 0x1_0000_0000 + side as u128
            * 0x1_0000_0000_0000_0000 + g.wl[0] as u128 * 0x2_0000_0000_0000_0000 + g.wl[1] as u128
            * 0x200_0000_0000_0000_0000
    }

    /// Entry of a position and side.
    pub fn lookup(&self, g: &GameState, side: usize) -> (prior: Option<i32>)
        requires
            self.wf(),
            g.wf(),
            hands_ok(g@),
            side < 2,
        ensures
            prior == self.known(g@, side as int),
            prior matches Some(c) ==> c == 1 || c < 0,
    {
        let k: u128 = Self::key(g, side);
        match self.cw_cache.get(&k) {
            Some(c) => Some(*c),
            None => None,
        }
    }

    /// Does the memo hold a proof? Launches nothing.
    pub fn cert_win_cache_hit(&self, g: &GameState, side: usize) -> (hit: bool)
        requires
            self.wf(),
            g.wf(),
            hands_ok(g@),
            side < 2,
        ensures
            hit == (self.known(g@, side as int) == Some(1i32)),
    {
        match self.lookup(g, side) {
            Some(c) => c == 1,
            None => false,
        }
    }

    /// Takes the result of a certificate search into the memo.
    pub fn record(&mut self, g: &GameState, side: usize, budget: i32, proven: bool, nodes: u64)
        requires
            old(self).wf(),
            g.wf(),
            hands_ok(g@),
            side < 2,
            0 < budget,
        ensures
            final(self).wf(),
            attempted(
                final(self).cw_cache@,
                old(self).cw_cache@,
                memo_key(g@, side as int),
                old(self).known(g@, side as int),
                budget as int,
                proven,
                nodes,
            ),
            final(self).cw_think_calls == old(self).cw_think_calls,
            final(self).cw_cap == old(self).cw_cap,
    {
        let prior = self.lookup(g, side);
        let mut work: i32 = budget;
        if nodes > 0 {
            work = if nodes > 0x7FFF_FFFF {
                0x7FFF_FFFF
            } else {
                nodes as i32
            };
        }
        if self.cw_cache.len() > CERT_MEMO_LIMIT {
            self.cw_cache.clear();
        }
        let entry: i32 = if proven {
            1
        } else {
            match prior {
                Some(c) => if c < -work {
                    c
                } else {
                    -work
                },
                None => -work,
            }
        };
        let k: u128 = Self::key(g, side);
        self.cw_cache.insert(k, entry);
    }

    /// Is a win of `side` certified? Empty hands are a pure race; otherwise the memo is
    /// asked, and only a question it cannot answer launches a search.
    pub fn cert_win<H: SearchHost>(
        &mut self,
        g: &GameState,
        side: usize,
        budget: u32,
        deadline_ms: u64,
        host: &mut H,
    ) -> (r: CertOutcome)
        requires
            old(self).wf(),
            g.wf(),
            hands_ok(g@),
            side < 2,
            budget <= i32::MAX,
        ensures
            final(self).wf(),
            final(self).cw_cap == old(self).cw_cap,
            cert_follows::<H>(
                *old(self),
                *final(self),
                g@,
                side as int,
                budget as int,
                deadline_ms,
                r,
            ),
            g@.wl0 != 0 || g@.wl1 != 0 ==> !(r is Race),
    {
        if g.wl[0] == 0 && g.wl[1] == 0 {
            let ghost h = *host;
            let told = host.hands_empty_race(g);
            assert(h.race_of(g@) == told);
            assert(race_asked::<H>(g@, told));
            if let Some(stm_wins) = told {
                return CertOutcome::Race((side == g.turn) == stm_wins);
            }
        }
        let bud: i32 = if budget == 0 {
            2500
        } else {
            budget as i32
        };
        let prior = self.lookup(g, side);
        if let Some(c) = prior {
            if c == 1 {
                return CertOutcome::Memo(true);
            }
            if bud as i64 <= -(c as i64) {
                return CertOutcome::Memo(false);
            }
        }
        if self.cw_think_calls < u32::MAX {
            self.cw_think_calls = self.cw_think_calls + 1;
        }
        let ghost h = *host;
        let (proven, nodes) = host.certify(g, side, bud as u64, deadline_ms);
        assert(effort(budget as int) as u64 == bud as u64);
        assert(h.may_certify(g@, side as int, bud as u64, deadline_ms, proven, nodes));
        assert(cert_tried::<H>(g@, side as int, bud as u64, deadline_ms, proven, nodes));
        self.record(g, side, bud, proven, nodes);
        let r = CertOutcome::Searched(proven, nodes);
        assert(cert_follows::<H>(
            *old(self),
            *self,
            g@,
            side as int,
            budget as int,
            deadline_ms,
            r,
        ));
        r
    }
}

/// The surroundings were asked about the pure race, and said so.
pub open spec fn race_asked<H: SearchHost>(p: game::Position, answer: Option<bool>) -> bool {
    exists|h: H| #[trigger] h.race_of(p) == answer
}

/// A certificate was tried for with this effort and time, and came out so.
pub open spec fn cert_tried<H: SearchHost>(
    p: game::Position,
    side: int,
    budget: u64,
    deadline_ms: u64,
    proven: bool,
    nodes: u64,
) -> bool {
    exists|h: H| #[trigger] h.may_certify(p, side, budget, deadline_ms, proven, nodes)
}

/// How a question to the memo is answered: a pure race by what the surroundings say of it,
/// what the memo knows by the memo, and everything else by a search of this effort within
/// this time, which the memo then remembers.
pub open spec fn cert_follows<H: SearchHost>(
    before: CertMemo,
    after: CertMemo,
    p: game::Position,
    side: int,
    budget: int,
    deadline_ms: u64,
    r: CertOutcome,
) -> bool {
    let bare = p.wl0 == 0 && p.wl1 == 0;
    let verdict = memo_verdict(before.known(p, side), effort(budget));
    match r {
        CertOutcome::Race(x) => bare && after == before && race_asked::<H>(
            p,
            Some(x == (side == p.turn)),
        ),
        CertOutcome::Memo(x) => {
            &&& bare ==> race_asked::<H>(p, None)
            &&& verdict == Some(x)
            &&& after == before
        },
        CertOutcome::Searched(x, nodes) => {
            &&& bare ==> race_asked::<H>(p, None)
            &&& verdict is None
            &&& attempted(
                after.cw_cache@,
                before.cw_cache@,
                memo_key(p, side),
                before.known(p, side),
                effort(budget),
                x,
                nodes,
            )
            &&& after.cw_cap == before.cw_cap
            &&& after.cw_think_calls == if before.cw_think_calls < u32::MAX {
                before.cw_think_calls + 1
            } else {
                before.cw_think_calls as int
            }
            &&& cert_tried::<H>(p, side, effort(budget) as u64, deadline_ms, x, nodes)
        },
    }
}

impl CertOutcome {
    /// The answer itself.
    pub open spec fn is_proven(&self) -> bool {
        match *self {
            CertOutcome::Race(x) => x,
            CertOutcome::Memo(x) => x,
            CertOutcome::Searched(x, _) => x,
        }
    }

    /// The answer itself.
    pub fn proven(self) -> (p: bool)
        ensures
            p == self.is_proven(),
    {
        match self {
            CertOutcome::Race(x) => x,
            CertOutcome::Memo(x) => x,
            CertOutcome::Searched(x, _) => x,
        }
    }
}

/// One cached network output.
#[derive(Clone, Copy, Debug, PartialEq, Eq, Structural)]
pub struct EvalCacheEntry {
    pub key: u64,
    pub val: i32,
    /// Hands of both players; all ones is an empty slot.
    pub meta: u16,
}

/// Tag of the hands.
pub open spec fn hand_tag(p: game::Position) -> int {
    p.wl0 * 256 + p.wl1
}

/// Both halves of the position key in one word.
pub open spec fn key_word(p: game::Position) -> int {
    p.hash_hi * 0x1_0000_0000 + p.hash_lo
}

/// Network outputs by position.
pub struct EvalCache {
    pub entries: Vec<EvalCacheEntry>,
    pub bits: usize,
}

/// Slot of a position.
pub fn eval_cache_slot(hash64: u64, bits: usize) -> (slot: usize)
    requires
        bits <= 31,
    ensures
        slot == dist_cache::hash_slot(hash64, bits as nat),
        slot < vstd::arithmetic::power2::pow2(bits as nat),
{
    dist_cache::dist_lru_slot(hash64, bits)
}

impl EvalCache {
    pub open spec fn wf(&self) -> bool {
        self.bits <= 31 && self.entries@.len() == vstd::arithmetic::power2::pow2(self.bits as nat)
    }

    /// The entry a position would use.
    pub open spec fn entry_of(&self, p: game::Position) -> EvalCacheEntry {
        self.entries@[dist_cache::hash_slot(key_word(p) as u64, self.bits as nat)]
    }

    /// Cached output of a position.
    pub open spec fn known(&self, p: game::Position) -> Option<i32> {
        let e = self.entry_of(p);
        if e.key == key_word(p) && e.meta == hand_tag(p) {
            Some(e.val)
        } else {
            None
        }
    }

    pub fn new(bits: usize) -> (c: EvalCache)
        requires
            bits <= 31,
        ensures
            c.wf(),
            c.bits == bits,
            forall|p: game::Position| hands_ok(p) ==> (#[trigger] c.known(p)) is None,
    {
        proof {
            vstd::arithmetic::power2::lemma2_to64();
            if bits < 31 {
                vstd::arithmetic::power2::lemma_pow2_strictly_increases(bits as nat, 31);
            }
            vstd::bits::lemma_usize_shl_is_mul(1usize, bits);
        }
        let size: usize = 1usize << bits;
        let empty = EvalCacheEntry { key: 0, val: 0, meta: 0xFFFF };
        let c = EvalCache { entries: vec![empty; size], bits };
        proof {
            assert forall|p: game::Position| hands_ok(p) implies (#[trigger] c.known(p)) is None by {
                dist_cache::lemma_hash_slot_bound(key_word(p) as u64, bits as nat);
            }
        }
        c
    }

    fn word(g: &GameState) -> (w: u64)
        ensures
            w == key_word(g@),
    {
        g.hash_hi as u64 * 0x1_0000_0000 + g.hash_lo as u64
    }

    /// Cached output of a position.
    pub fn get(&self, g: &GameState) -> (v: Option<i32>)
        requires
            self.wf(),
            hands_ok(g@),
        ensures
            v == self.known(g@),
    {
        let w: u64 = Self::word(g);
        let e = self.entries[eval_cache_slot(w, self.bits)];
        let tag: u16 = g.wl[0] as u16 * 256 + g.wl[1] as u16;
        if e.key == w && e.meta == tag {
            Some(e.val)
        } else {
            None
        }
    }

    /// Caches an output; the slot's old entry goes.
    pub fn put(&mut self, g: &GameState, val: i32)
        requires
            old(self).wf(),
            hands_ok(g@),
        ensures
            final(self).wf(),
            final(self).bits == old(self).bits,
            final(self).known(g@) == Some(val),
            final(self).entries@ == old(self).entries@.update(
                dist_cache::hash_slot(key_word(g@) as u64, old(self).bits as nat),
                (EvalCacheEntry {
                    key: key_word(g@) as u64,
                    val,
                    meta: hand_tag(g@) as u16,
                }),
            ),
    {
        let w: u64 = Self::word(g);
        let tag: u16 = g.wl[0] as u16 * 256 + g.wl[1] as u16;
        let i: usize = eval_cache_slot(w, self.bits);
        self.entries.set(i, EvalCacheEntry { key: w, val, meta: tag });
    }
}

/// A certificate search may raise the static evaluation: the switch is on, the hand is
/// small enough, the evaluation is undecided and the race not lost.
pub open spec fn cert_gate(
    race_proof: bool,
    leaves_only: bool,
    depth: int,
    raw: int,
    d_me: int,
    d_opp: int,
    w_me: int,
    w_opp: int,
) -> bool {
    &&& race_proof
    &&& if leaves_only {
        depth <= 0 && w_me == 0 && w_opp == 0
    } else {
        w_me <= 2
    }
    &&& -700 < raw < 700
    &&& d_me <= d_opp + 1
}

pub fn cert_gate_open(
    race_proof: bool,
    leaves_only: bool,
    depth: i32,
    raw: i32,
    d_me: i32,
    d_opp: i32,
    w_me: i32,
    w_opp: i32,
) -> (open: bool)
    requires
        d_opp < i32::MAX,
    ensures
        open == cert_gate(
            race_proof,
            leaves_only,
            depth as int,
            raw as int,
            d_me as int,
            d_opp as int,
            w_me as int,
            w_opp as int,
        ),
{
    let hand_ok: bool = if leaves_only {
        depth <= 0 && w_me == 0 && w_opp == 0
    } else {
        w_me <= 2
    };
    race_proof && hand_ok && raw > -700 && raw < 700 && d_me <= d_opp + 1
}

/// Evaluation from the network output: a certificate fixes it; an ordinary score takes the
/// learned bias and stays ordinary; anything else passes through.
pub open spec fn settled_eval(raw: int, certified: bool, bias: int) -> int {
    if certified {
        2500
    } else if -2000 < raw < 2000 {
        num::clamped(raw + bias, -1999, 1999)
    } else {
        raw
    }
}

/// Evaluation from the network output.
pub fn settle_eval(raw: i32, certified: bool, bias: i32) -> (v: i32)
    requires
        -1000 <= bias <= 1000,
    ensures
        v == settled_eval(raw as int, certified, bias as int),
{
    if certified {
        CERT_SCORE
    } else if raw > -2000 && raw < 2000 {
        num::clamp_i32(raw + bias, -1999, 1999)
    } else {
        raw
    }
}

/// A learned bias never turns an ordinary score into a certified one.
pub proof fn law_bias_keeps_scores_ordinary(raw: int, bias: int)
    requires
        -2000 < raw < 2000,
    ensures
        -2000 < settled_eval(raw, false, bias) < 2000,
{
}

/// Number of cells among the first `n` at distance `d`.
pub open spec fn width_upto(f: Seq<u8>, d: int, n: int) -> int
    decreases n,
{
    if n <= 0 {
        0
    } else {
        width_upto(f, d, n - 1) + if f[n - 1] == d {
            1int
        } else {
            0int
        }
    }
}

/// Width of the board at a goal distance: how many cells are exactly that far.
pub fn field_width(f: &[u8; 81], d: i32) -> (n: usize)
    ensures
        n == width_upto(f@, d as int, 81),
{
    let mut n: usize = 0;
    let mut c: usize = 0;
    while c < 81
        invariant
            c <= 81,
            n <= c,
            n == width_upto(f@, d as int, c as int),
        decreases 81 - c,
    {
        if f[c] as i32 == d {
            n += 1;
        }
        c += 1;
    }
    n
}

/// Bit `i` of a word.
pub open spec fn has_bit(bits: u64, i: int) -> bool {
    (bits >> (i as u64)) & 1 == 1
}

/// Packs wall slots into a word, one bit per slot.
pub fn wall_slot_bits(slots: &[u8; 64]) -> (bits: u64)
    ensures
        forall|i: int| 0 <= i < 64 ==> #[trigger] has_bit(bits, i) == (slots@[i] != 0),
{
    let mut bits: u64 = 0;
    let mut s: u64 = 0;
    assert forall|i: int| 0 <= i < 64 implies !#[trigger] has_bit(0, i) by {
        let k = i as u64;
        assert((0u64 >> k) & 1 == 0) by (bit_vector);
    }
    while s < 64
        invariant
            s <= 64,
            forall|i: int| 0 <= i < s ==> #[trigger] has_bit(bits, i) == (slots@[i] != 0),
            forall|i: int| s <= i < 64 ==> !#[trigger] has_bit(bits, i),
        decreases 64 - s,
    {
        if slots[s as usize] != 0 {
            let ghost before = bits;
            bits = bits | (1u64 << s);
            assert forall|i: int| 0 <= i < 64 implies #[trigger] has_bit(bits, i) == (has_bit(
                before,
                i,
            ) || i == s) by {
                let k = i as u64;
                assert((((before | (1u64 << s)) >> k) & 1 == 1) == ((before >> k) & 1 == 1 || k
                    == s)) by (bit_vector)
                    requires
                        k < 64,
                        s < 64,
                ;
            }
        }
        s += 1;
    }
    bits
}

/// What the network's wall inputs were last computed for.
#[derive(Clone, Copy, Debug, PartialEq, Eq, Structural)]
pub struct WallInputs {
    pub hbits: u64,
    pub vbits: u64,
    /// Pawn buckets; negative when nothing is computed.
    pub b0: i32,
    pub b1: i32,
}

/// How to bring the wall inputs up to date.
pub struct WallInputPlan {
    /// Start over from nothing.
    pub rebuild: bool,
    /// Inputs to add (`true`) or take away, horizontal slots first, then vertical ones from
    /// 64 on.
    pub changes: Vec<(usize, bool)>,
}

/// Wall input `i` of a pair of words.
pub open spec fn input_on(h: u64, v: u64, i: int) -> bool {
    if i < 64 {
        has_bit(h, i)
    } else {
        has_bit(v, i - 64)
    }
}

/// Changes among the first `n` inputs.
pub open spec fn input_changes(h0: u64, v0: u64, h1: u64, v1: u64, n: int) -> Seq<(usize, bool)>
    decreases n,
{
    if n <= 0 {
        Seq::empty()
    } else {
        let before = input_changes(h0, v0, h1, v1, n - 1);
        if input_on(h0, v0, n - 1) != input_on(h1, v1, n - 1) {
            before.push(((n - 1) as usize, input_on(h1, v1, n - 1)))
        } else {
            before
        }
    }
}

fn input_is_on(h: u64, v: u64, i: usize) -> (on: bool)
    requires
        i < 128,
    ensures
        on == input_on(h, v, i as int),
{
    if i < 64 {
        (h >> (i as u64)) & 1 == 1
    } else {
        (v >> ((i - 64) as u64)) & 1 == 1
    }
}

/// Plans the update of the wall inputs: a change of pawn bucket starts over, otherwise only
/// what differs is touched.
pub fn plan_wall_inputs(state: WallInputs, hbits: u64, vbits: u64, b0: i32, b1: i32) -> (plan:
    WallInputPlan)
    ensures
        plan.rebuild == (b0 != state.b0 || b1 != state.b1),
        plan.changes@ == if plan.rebuild {
            input_changes(0, 0, hbits, vbits, 128)
        } else {
            input_changes(state.hbits, state.vbits, hbits, vbits, 128)
        },
{
    let rebuild: bool = b0 != state.b0 || b1 != state.b1;
    let h0: u64 = if rebuild {
        0
    } else {
        state.hbits
    };
    let v0: u64 = if rebuild {
        0
    } else {
        state.vbits
    };
    let mut changes: Vec<(usize, bool)> = Vec::new();
    let mut i: usize = 0;
    while i < 128
        invariant
            i <= 128,
            changes@ == input_changes(h0, v0, hbits, vbits, i as int),
        decreases 128 - i,
    {
        let on: bool = input_is_on(hbits, vbits, i);
        if input_is_on(h0, v0, i) != on {
            changes.push((i, on));
        }
        i += 1;
    }
    WallInputPlan { rebuild, changes }
}

/// State of input `i` after the first `n` changes.
pub open spec fn input_after(start: bool, changes: Seq<(usize, bool)>, i: int, n: int) -> bool
    decreases n,
{
    if n <= 0 {
        start
    } else if changes[n - 1].0 == i {
        changes[n - 1].1
    } else {
        input_after(start, changes, i, n - 1)
    }
}

/// Applying the planned changes turns the old inputs into the new ones.
pub proof fn law_wall_inputs_catch_up(h0: u64, v0: u64, h1: u64, v1: u64, i: int)
    requires
        0 <= i < 128,
    ensures
        ({
            let c = input_changes(h0, v0, h1, v1, 128);
            input_after(input_on(h0, v0, i), c, i, c.len() as int) == input_on(h1, v1, i)
        }),
{
    lemma_changes_upto(h0, v0, h1, v1, i, 128);
}

proof fn lemma_changes_upto(h0: u64, v0: u64, h1: u64, v1: u64, i: int, n: int)
    requires
        0 <= n <= 128,
        0 <= i < 128,
    ensures
        ({
            let c = input_changes(h0, v0, h1, v1, n);
            &&& forall|k: int| 0 <= k < c.len() ==> (#[trigger] c[k]).0 < n
            &&& input_after(input_on(h0, v0, i), c, i, c.len() as int) == if i < n {
                input_on(h1, v1, i)
            } else {
                input_on(h0, v0, i)
            }
        }),
    decreases n,
{
    if n > 0 {
        lemma_changes_upto(h0, v0, h1, v1, i, n - 1);
        let before = input_changes(h0, v0, h1, v1, n - 1);
        let c = input_changes(h0, v0, h1, v1, n);
        lemma_input_after_prefix(input_on(h0, v0, i), before, c, i, before.len() as int);
    }
}

proof fn lemma_input_after_prefix(
    start: bool,
    a: Seq<(usize, bool)>,
    b: Seq<(usize, bool)>,
    i: int,
    n: int,
)
    requires
        0 <= n <= a.len(),
        n <= b.len(),
        forall|k: int| 0 <= k < n ==> #[trigger] a[k] == b[k],
    ensures
        input_after(start, a, i, n) == input_after(start, b, i, n),
    decreases n,
{
    if n > 0 {
        lemma_input_after_prefix(start, a, b, i, n - 1);
        assert(a[n - 1] == b[n - 1]);
    }
}

} // verus!

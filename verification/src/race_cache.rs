//! Least-recently-used store of solved race tables, with the budget that decides when
//! a missing table may be solved inside a search.

use crate::board;
use crate::game;
use crate::game::GameState;
use crate::race_table;
use crate::score;
use crate::zobrist;
use vstd::prelude::*;

verus! {

/// Number of tables kept.
pub const RC_SLOTS: usize = 64;

/// Largest build-time estimate, in milliseconds.
pub const MAX_BUILD_MS: u64 = 50;

/// The search's clock.
///
/// Its answers are no function of anything the search holds. What it may answer has a name, so
/// that a contract can say which question was put to it.
pub trait Clock {
    /// Is the deadline at least `ms` milliseconds away?
    fn time_left(&mut self, ms: u64) -> (left: bool)
        ensures
            old(self).may_have_left(ms, left),
    ;

    /// It may say so of the time left.
    open spec fn may_have_left(&self, ms: u64, left: bool) -> bool {
        arbitrary()
    }

    /// Milliseconds since some fixed moment.
    fn now_ms(&mut self) -> (now: u64)
        ensures
            old(self).may_read(now),
    ;

    /// It may read so.
    open spec fn may_read(&self, now: u64) -> bool {
        arbitrary()
    }
}

/// The clock was asked whether the deadline is this far away, and said so.
pub open spec fn clock_left<C: Clock>(ms: u64, left: bool) -> bool {
    exists|c: C| #[trigger] c.may_have_left(ms, left)
}

/// The clock was read.
pub open spec fn clock_read<C: Clock>(now: u64) -> bool {
    exists|c: C| #[trigger] c.may_read(now)
}

/// Whether the table of topology `w` is had: one at hand always, one to be solved when forced,
/// or where it was not refused, the budget is open and the clock leaves time for it.
pub open spec fn table_had<C: Clock>(c: RaceCache, w: board::Topo, force: bool, got: bool) -> bool {
    if c.cached(w) || force {
        got
    } else if c.refused(w) || !c.budget_open() {
        !got
    } else {
        clock_left::<C>(c.build_ms, got)
    }
}

/// The race's score where its table is had; none otherwise.
pub open spec fn score_had<C: Clock>(
    c: RaceCache,
    p: game::Position,
    force: bool,
    s: Option<i32>,
) -> bool {
    exists|got: bool| #[trigger]
        table_had::<C>(c, p.w, force, got) && if got {
            race_score_is(p, s)
        } else {
            s is None
        }
}

/// One solved wall topology.
#[derive(Debug)]
pub struct RaceSlot {
    pub key_lo: u32,
    pub key_hi: u32,
    pub hw: [u8; 64],
    pub vw: [u8; 64],
    pub tbl: Vec<i16>,
}

impl RaceSlot {
    /// The topology the table was solved on.
    pub open spec fn topo(&self) -> board::Topo {
        board::Topo { hw: self.hw@, vw: self.vw@ }
    }

    /// The table solves its topology and carries its key.
    pub open spec fn wf(&self) -> bool {
        &&& race_table::solves(self.topo(), self.tbl@)
        &&& self.key_lo == zobrist::walls_key(self.topo(), false)
        &&& self.key_hi == zobrist::walls_key(self.topo(), true)
    }
}

/// The table store.
#[derive(Debug)]
pub struct RaceCache {
    pub slots: Vec<Option<RaceSlot>>,
    /// Tick of the last use of each slot.
    pub used: Vec<u64>,
    pub tick: u64,
    /// Slot of the last answer, or -1.
    pub last: i32,
    /// Estimated build time.
    pub build_ms: u64,
    pub hits: u64,
    pub solves: u64,
    /// Time spent on tables in this search.
    pub think_solve_ms: u64,
    /// Time of the whole search; a quarter of it may go into tables. `None` is no limit.
    pub solve_cap: Option<u64>,
    /// The last refused topology, while `blocked`.
    pub blocked: bool,
    pub miss_lo: u32,
    pub miss_hi: u32,
    /// Tables solved inside this search, and how many may be.
    pub think_solves: u32,
    pub count_cap: u32,
    /// May the search solve tables at all?
    pub build_ok: bool,
}

/// Adds one, stopping at the largest value.
pub fn bump(x: u64) -> (y: u64)
    ensures
        y == if x == u64::MAX {
            x as int
        } else {
            x + 1
        },
{
    if x == u64::MAX {
        x
    } else {
        x + 1
    }
}

/// The slot to overwrite: the first empty one, or else the first among the least
/// recently used.
pub open spec fn is_victim(slots: Seq<Option<RaceSlot>>, used: Seq<u64>, v: int) -> bool {
    &&& 0 <= v < slots.len()
    &&& (slots[v] is None && forall|j: int| 0 <= j < v ==> slots[j] is Some) || ((forall|j: int|
        0 <= j < slots.len() ==> slots[j] is Some) && (forall|j: int|
        0 <= j < slots.len() ==> used[v] <= used[j]) && (forall|j: int|
        0 <= j < v ==> used[v] < used[j]))
}

fn same_slots(a: &[u8; 64], b: &[u8; 64]) -> (same: bool)
    ensures
        same == (a@ == b@),
{
    let mut i: usize = 0;
    while i < 64
        invariant
            i <= 64,
            forall|k: int| 0 <= k < i ==> a@[k] == b@[k],
        decreases 64 - i,
    {
        if a[i] != b[i] {
            return false;
        }
        i += 1;
    }
    assert(a@ =~= b@);
    true
}

impl RaceCache {
    /// Every stored table is solved, no topology is stored twice, and the last answer is
    /// still there.
    pub open spec fn wf(&self) -> bool {
        &&& self.slots@.len() == RC_SLOTS
        &&& self.used@.len() == RC_SLOTS
        &&& -1 <= self.last < 64
        &&& self.last >= 0 ==> self.slots@[self.last as int] is Some
        &&& forall|i: int|
            0 <= i < 64 ==> (#[trigger] self.slots@[i] matches Some(s) ==> s.wf())
        &&& forall|i: int, j: int|
            0 <= i < j < 64 && (#[trigger] self.slots@[i]) is Some && (
            #[trigger] self.slots@[j]) is Some ==> self.slots@[i]->0.topo()
                != self.slots@[j]->0.topo()
    }

    /// Slot `i` holds the table of topology `w`.
    pub open spec fn holds(&self, i: int, w: board::Topo) -> bool {
        0 <= i < 64 && self.slots@[i] is Some && self.slots@[i]->0.topo() == w
    }

    /// Some slot holds the table of topology `w`.
    pub open spec fn cached(&self, w: board::Topo) -> bool {
        exists|i: int| #[trigger] self.holds(i, w)
    }

    /// The counts and times allow another table, clock aside.
    pub open spec fn budget_open(&self) -> bool {
        &&& self.build_ok
        &&& self.think_solves < self.count_cap
        &&& self.solve_cap matches Some(t) ==> 4 * (self.think_solve_ms + self.build_ms) <= t
    }

    /// This topology was the last one refused.
    pub open spec fn refused(&self, w: board::Topo) -> bool {
        self.blocked && self.miss_lo == zobrist::walls_key(w, false) && self.miss_hi
            == zobrist::walls_key(w, true)
    }

    /// An empty store without limits.
    pub fn new() -> (c: Self)
        ensures
            c.wf(),
            forall|w: board::Topo| !(#[trigger] c.cached(w)),
            c.build_ok == false,
            c.count_cap == 48,
            c.build_ms == 6,
            c.solve_cap is None,
            c.think_solves == 0,
            !c.blocked,
            c.hits == 0,
            c.solves == 0,
            c.last == -1,
    {
        let mut slots: Vec<Option<RaceSlot>> = Vec::new();
        let mut used: Vec<u64> = Vec::new();
        let mut i: usize = 0;
        while i < RC_SLOTS
            invariant
                i <= RC_SLOTS,
                slots@.len() == i,
                used@.len() == i,
                forall|k: int| 0 <= k < i ==> slots@[k] is None,
            decreases RC_SLOTS - i,
        {
            slots.push(None);
            used.push(0);
            i += 1;
        }
        RaceCache {
            slots,
            used,
            tick: 0,
            last: -1,
            build_ms: 6,
            hits: 0,
            solves: 0,
            think_solve_ms: 0,
            solve_cap: None,
            blocked: false,
            miss_lo: 0,
            miss_hi: 0,
            think_solves: 0,
            count_cap: 48,
            build_ok: false,
        }
    }

    /// Starts the budgets of a search of `time_ms`.
    pub fn begin_think(&mut self, time_ms: u64)
        requires
            old(self).wf(),
        ensures
            *final(self) == (RaceCache {
                think_solve_ms: 0,
                solve_cap: Some(time_ms),
                blocked: false,
                think_solves: 0,
                build_ok: false,
                ..*old(self)
            }),
            final(self).wf(),
    {
        self.think_solve_ms = 0;
        self.solve_cap = Some(time_ms);
        self.blocked = false;
        self.think_solves = 0;
        self.build_ok = false;
    }

    fn slot_matches(&self, i: usize, g: &GameState, k_lo: u32, k_hi: u32) -> (hit: bool)
        requires
            self.wf(),
            i < 64,
            g.wf(),
            k_lo == zobrist::walls_key(g.topo(), false),
            k_hi == zobrist::walls_key(g.topo(), true),
        ensures
            hit == self.holds(i as int, g.topo()),
    {
        match &self.slots[i] {
            None => false,
            Some(s) => {
                assert(s.wf());
                let hit: bool = s.key_lo == k_lo && s.key_hi == k_hi && same_slots(&s.hw, &g.hw)
                    && same_slots(&s.vw, &g.vw);
                assert(hit == (s.topo() =~= g.topo()));
                hit
            },
        }
    }

    /// Looks the topology up without solving anything.
    pub fn race_tbl_lru_probe(&mut self, g: &GameState, k_lo: u32, k_hi: u32) -> (slot: Option<
        usize,
    >)
        requires
            old(self).wf(),
            g.wf(),
            k_lo == zobrist::walls_key(g.topo(), false),
            k_hi == zobrist::walls_key(g.topo(), true),
        ensures
            final(self).wf(),
            match slot {
                Some(i) => {
                    &&& old(self).holds(i as int, g.topo())
                    &&& final(self).last == i
                    &&& final(self).hits == if old(self).hits == u64::MAX {
                        old(self).hits as int
                    } else {
                        old(self).hits + 1
                    }
                    &&& final(self).used@ == old(self).used@
                        || final(self).used@ == old(self).used@.update(i as int, final(self).tick)
                },
                None => !old(self).cached(g.topo()) && *final(self) == *old(self),
            },
            final(self).slots@ == old(self).slots@,
            final(self).solves == old(self).solves,
            final(self).build_ms == old(self).build_ms,
            final(self).think_solve_ms == old(self).think_solve_ms,
            final(self).solve_cap == old(self).solve_cap,
            final(self).blocked == old(self).blocked,
            final(self).miss_lo == old(self).miss_lo,
            final(self).miss_hi == old(self).miss_hi,
            final(self).think_solves == old(self).think_solves,
            final(self).count_cap == old(self).count_cap,
            final(self).build_ok == old(self).build_ok,
    {
        if self.last >= 0 && self.slot_matches(self.last as usize, g, k_lo, k_hi) {
            self.hits = bump(self.hits);
            return Some(self.last as usize);
        }
        let mut i: usize = 0;
        while i < RC_SLOTS
            invariant
                i <= 64,
                *self == *old(self),
                self.wf(),
                g.wf(),
                k_lo == zobrist::walls_key(g.topo(), false),
                k_hi == zobrist::walls_key(g.topo(), true),
                forall|k: int| 0 <= k < i ==> !(#[trigger] self.holds(k, g.topo())),
            decreases 64 - i,
        {
            if self.slot_matches(i, g, k_lo, k_hi) {
                self.last = i as i32;
                self.tick = bump(self.tick);
                self.used.set(i, self.tick);
                self.hits = bump(self.hits);
                return Some(i);
            }
            i += 1;
        }
        None
    }

    /// The slot to overwrite next.
    fn victim(&self) -> (v: usize)
        requires
            self.wf(),
        ensures
            is_victim(self.slots@, self.used@, v as int),
    {
        let mut best: usize = 0;
        let mut i: usize = 0;
        while i < RC_SLOTS
            invariant
                self.wf(),
                i <= 64,
                best < 64,
                i > 0 ==> best < i,
                i == 0 ==> best == 0,
                forall|j: int| 0 <= j < i ==> self.slots@[j] is Some,
                forall|j: int| 0 <= j < i ==> self.used@[best as int] <= self.used@[j],
                forall|j: int| 0 <= j < best ==> self.used@[best as int] < self.used@[j],
            decreases 64 - i,
        {
            if self.slots[i].is_none() {
                return i;
            }
            if i == 0 || self.used[i] < self.used[best] {
                best = i;
            }
            i += 1;
        }
        best
    }

    fn budget_allows(&self) -> (open: bool)
        ensures
            open == self.budget_open(),
    {
        if !self.build_ok || self.think_solves >= self.count_cap {
            return false;
        }
        match self.solve_cap {
            None => true,
            Some(t) => 4 * (self.think_solve_ms as u128 + self.build_ms as u128) <= t as u128,
        }
    }

    /// Charges a solve that took `dt` milliseconds.
    fn charge(&mut self, dt: u64)
        requires
            old(self).wf(),
        ensures
            final(self).wf(),
            *final(self) == (RaceCache {
                think_solve_ms: final(self).think_solve_ms,
                build_ms: final(self).build_ms,
                ..*old(self)
            }),
            final(self).think_solve_ms == if old(self).think_solve_ms + dt > u64::MAX {
                u64::MAX as int
            } else {
                old(self).think_solve_ms + dt
            },
            final(self).build_ms == if dt + 1 > old(self).build_ms {
                if dt + 1 > 50 {
                    50
                } else {
                    dt + 1
                }
            } else {
                old(self).build_ms as int
            },
    {
        self.think_solve_ms = self.think_solve_ms.saturating_add(dt);
        if dt >= self.build_ms {
            self.build_ms = if dt >= MAX_BUILD_MS {
                MAX_BUILD_MS
            } else {
                dt + 1
            };
        }
    }

    /// The table of the current walls, whatever the hands hold: found, or solved when
    /// `force` or the budget and the clock allow it.
    pub fn topology_table<C: Clock>(&mut self, g: &GameState, force: bool, clock: &mut C) -> (slot:
        Option<usize>)
        requires
            old(self).wf(),
            g.wf(),
        ensures
            final(self).wf(),
            slot matches Some(i) ==> final(self).holds(i as int, g.topo()),
            old(self).cached(g.topo()) ==> slot is Some && final(self).slots@ == old(self).slots@,
            table_had::<C>(*old(self), g.topo(), force, slot is Some),
            force ==> slot is Some,
            !old(self).cached(g.topo()) && !force && (old(self).refused(g.topo())
                || !old(self).budget_open()) ==> slot is None,
            slot is None ==> final(self).slots@ == old(self).slots@,
            !old(self).cached(g.topo()) && slot is Some ==> exists|v: int|
                #[trigger] is_victim(old(self).slots@, old(self).used@, v) && slot == Some(
                    v as usize,
                ) && (forall|j: int|
                    0 <= j < 64 && j != v ==> final(self).slots@[j] == old(self).slots@[j]),
            slot is None && !old(self).refused(g.topo()) ==> final(self).refused(g.topo()),
            final(self).think_solves == old(self).think_solves + if !old(self).cached(g.topo())
                && !force && slot is Some {
                1int
            } else {
                0int
            },
            final(self).count_cap == old(self).count_cap,
            final(self).build_ok == old(self).build_ok,
            final(self).solve_cap == old(self).solve_cap,
    {
        let (k_lo, k_hi) = g.wall_topology_key();
        let hit = self.race_tbl_lru_probe(g, k_lo, k_hi);
        if hit.is_some() {
            return hit;
        }
        if !force {
            if self.blocked && k_lo == self.miss_lo && k_hi == self.miss_hi {
                return None;
            }
            let ghost c = *clock;
            let open: bool = self.budget_allows();
            let left: bool = open && clock.time_left(self.build_ms);
            proof {
                if open {
                    assert(c.may_have_left(old(self).build_ms, left));
                }
            }
            if !left {
                self.blocked = true;
                self.miss_lo = k_lo;
                self.miss_hi = k_hi;
                return None;
            }
            self.think_solves = self.think_solves + 1;
        }
        let v: usize = self.victim();
        let t0: u64 = clock.now_ms();
        let tbl = race_table::solve_race_config(&g.hw, &g.vw);
        let t1: u64 = clock.now_ms();
        self.charge(
            if t1 > t0 {
                t1 - t0
            } else {
                0
            },
        );
        let slot = RaceSlot { key_lo: k_lo, key_hi: k_hi, hw: g.hw, vw: g.vw, tbl };
        let ghost slots0 = self.slots@;
        assert(slot.topo() =~= g.topo());
        self.slots.set(v, Some(slot));
        self.tick = bump(self.tick);
        self.used.set(v, self.tick);
        self.last = v as i32;
        self.solves = bump(self.solves);
        proof {
            assert(slots0 == old(self).slots@);
            assert forall|i: int, j: int|
                0 <= i < j < 64 && (#[trigger] self.slots@[i]) is Some && (
                #[trigger] self.slots@[j]) is Some implies self.slots@[i]->0.topo()
                != self.slots@[j]->0.topo() by {
                if i == v {
                    assert(!old(self).holds(j, g.topo()));
                } else if j == v {
                    assert(!old(self).holds(i, g.topo()));
                }
            }
            assert(self.holds(v as int, g.topo()));
        }
        Some(v)
    }

    /// The table for a race with both hands empty. With walls still in hand there is none.
    pub fn race_tbl<C: Clock>(&mut self, g: &GameState, force: bool, clock: &mut C) -> (slot:
        Option<usize>)
        requires
            old(self).wf(),
            g.wf(),
        ensures
            final(self).wf(),
            slot matches Some(i) ==> final(self).holds(i as int, g.topo()),
            g@.wl0 != 0 || g@.wl1 != 0 ==> slot is None && *final(self) == *old(self),
            g@.wl0 == 0 && g@.wl1 == 0 && (force || old(self).cached(g.topo())) ==> slot is Some,
            !old(self).cached(g.topo()) && !force && (old(self).refused(g.topo())
                || !old(self).budget_open()) ==> slot is None,
            slot is None ==> final(self).slots@ == old(self).slots@,
            g@.wl0 == 0 && g@.wl1 == 0 ==> table_had::<C>(
                *old(self),
                g.topo(),
                force,
                slot is Some,
            ),
    {
        if g.wl[0] != 0 || g.wl[1] != 0 {
            return None;
        }
        self.topology_table(g, force, clock)
    }

    /// Race value of the current pawns and side to move.
    pub fn race_value(&self, slot: usize, g: &GameState) -> (v: i16)
        requires
            self.wf(),
            g.wf(),
            self.holds(slot as int, g.topo()),
        ensures
            race_table::value_is(g.topo(), state_of(g@), v as int),
            -13_122 <= v <= 13_122,
    {
        proof {
            race_table::lemma_state_index(g@.p0, g@.p1, g@.turn);
        }
        let i: usize = (g.pawn[0] * 81 + g.pawn[1]) * 2 + g.turn;
        match &self.slots[slot] {
            Some(s) => {
                assert(s.wf());
                assert(race_table::value_is(s.topo(), i as int, s.tbl@[i as int] as int));
                s.tbl[i]
            },
            None => 0,
        }
    }

    /// Race score of the current pawns and side to move, when the race is decided.
    pub fn score_from_race_slot(&self, slot: usize, g: &GameState) -> (s: Option<i32>)
        requires
            self.wf(),
            g.wf(),
            self.holds(slot as int, g.topo()),
        ensures
            s matches Some(v) ==> -score::RACE_MATE <= v <= score::RACE_MATE,
            race_score_is(g@, s),
    {
        let rv: i32 = self.race_value(slot, g) as i32;
        assert(race_table::value_is(g.topo(), state_of(g@), rv as int));
        let s: Option<i32> = if rv > 0 {
            Some(score::RACE_MATE - rv)
        } else if rv < 0 {
            Some(-(score::RACE_MATE + rv))
        } else {
            None
        };
        assert(race_score_is(g@, s));
        s
    }

    /// Exact race score of the current walls, hands aside, when a table is at hand.
    pub fn zero_wall_exact_score<C: Clock>(
        &mut self,
        race_proof: bool,
        g: &GameState,
        clock: &mut C,
    ) -> (s: Option<i32>)
        requires
            old(self).wf(),
            g.wf(),
        ensures
            final(self).wf(),
            s matches Some(v) ==> race_score_is(g@, Some(v)),
            !race_proof ==> s is None && *final(self) == *old(self),
            race_proof && old(self).cached(g.topo()) ==> race_score_is(g@, s) && final(self).slots@
                == old(self).slots@,
            final(self).count_cap == old(self).count_cap,
            race_proof ==> score_had::<C>(*old(self), g@, false, s),
    {
        if !race_proof {
            return None;
        }
        let found = self.topology_table(g, false, clock);
        assert(table_had::<C>(*old(self), g@.w, false, found is Some));
        match found {
            Some(slot) => self.score_from_race_slot(slot, g),
            None => None,
        }
    }

    /// Exact score of a race with both hands empty.
    pub fn exact_hands_empty_score<C: Clock>(
        &mut self,
        race_proof: bool,
        g: &GameState,
        force: bool,
        clock: &mut C,
    ) -> (s: Option<i32>)
        requires
            old(self).wf(),
            g.wf(),
        ensures
            final(self).wf(),
            s matches Some(v) ==> -score::RACE_MATE <= v <= score::RACE_MATE,
            s matches Some(v) ==> race_score_is(g@, Some(v)) && g@.wl0 == 0 && g@.wl1 == 0
                && race_proof,
            !race_proof || g@.wl0 != 0 || g@.wl1 != 0 ==> s is None && *final(self) == *old(self),
            race_proof && g@.wl0 == 0 && g@.wl1 == 0 && (force || old(self).cached(g.topo()))
                ==> race_score_is(g@, s),
            race_proof && g@.wl0 == 0 && g@.wl1 == 0 ==> score_had::<C>(*old(self), g@, force, s),
    {
        if !race_proof || g.wl[0] != 0 || g.wl[1] != 0 {
            return None;
        }
        let found = self.topology_table(g, force, clock);
        assert(table_had::<C>(*old(self), g@.w, force, found is Some));
        match found {
            Some(slot) => self.score_from_race_slot(slot, g),
            None => None,
        }
    }
}

/// Race state of a position.
pub open spec fn state_of(p: game::Position) -> int {
    race_table::state_index(p.p0, p.p1, p.turn)
}

/// Score of a race value: wins count down from `RACE_MATE`, losses up from its negative.
pub open spec fn score_of_value(v: int) -> Option<i32> {
    if v > 0 {
        Some((score::RACE_MATE - v) as i32)
    } else if v < 0 {
        Some((-(score::RACE_MATE + v)) as i32)
    } else {
        None
    }
}

/// `s` is the exact race score of a position, its hands aside.
pub open spec fn race_score_is(p: game::Position, s: Option<i32>) -> bool {
    exists|v: int|
        -13_122 <= v <= 13_122 && #[trigger] race_table::value_is(p.w, state_of(p), v)
            && score_of_value(v) == s
}

} // verus!

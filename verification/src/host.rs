//! What the search asks of its surroundings: clock, network, certificates, heat maps,
//! reductions, opening book, the table shared between threads, and progress reports.
//!
//! Answers have names. One that is a function of the host as it is asked and of what it is
//! asked has that function's name; of one that depends on more (the time, other threads, a
//! search of its own) the name says only that the host may give it. A name tells which
//! question a value in the search answers, and nothing of what the answer is: the search is
//! right whatever that may be.

use crate::game;
use crate::game::GameState;
use crate::race::RaceBound;
use crate::race_cache::Clock;
use crate::race_root::RaceDeducer;
use crate::score::RaceResultInfo;
use crate::timing::AceDepthLogEntry;
use crate::tt::SharedTtEntry;
use vstd::prelude::*;

verus! {

/// A late move whose depth is to be reduced.
#[derive(Clone, Copy, Debug, PartialEq, Eq, Structural)]
pub struct LmrQuery {
    /// Place in the move order.
    pub move_index: usize,
    pub depth: i32,
    pub mv: i16,
    /// Heat of the move and of the hottest wall of the node; zero without heat.
    pub heat: i32,
    pub max_heat: u32,
    /// Steps the mover's own distance shrank by.
    pub self_gain: i32,
    /// How much the mover gained in the race, where distances were looked at again.
    pub race_gain: Option<i32>,
}

/// What the opening book says about a position.
pub struct BookAdvice {
    /// Play this without searching.
    pub direct: Option<i16>,
    /// Moves to try first, and their extra weight.
    pub order: Vec<i16>,
    pub attention: Vec<i32>,
}

/// The search's surroundings.
pub trait SearchHost: Clock + RaceDeducer {
    /// Starts the clock: `time_is_up` answers by a deadline this many milliseconds away.
    fn start_clock(&mut self, ms: u64)
        ensures
            final(self).runs_for(ms),
    ;

    /// The clock has just been started for this many milliseconds.
    open spec fn runs_for(&self, ms: u64) -> bool {
        arbitrary()
    }

    /// What the opening book says.
    fn consult_book(&mut self, g: &GameState) -> (a: BookAdvice)
        ensures
            old(self).may_advise(g@, a.direct, a.order@, a.attention@),
    ;

    /// The book may say so: the move to play, the moves to try first, and their weight.
    open spec fn may_advise(
        &self,
        p: game::Position,
        direct: Option<i16>,
        order: Seq<i16>,
        attention: Seq<i32>,
    ) -> bool {
        arbitrary()
    }

    /// Has the deadline passed, or another thread called a stop?
    fn time_is_up(&mut self) -> (up: bool)
        ensures
            old(self).may_be_up(up),
    ;

    /// The clock may say so.
    open spec fn may_be_up(&self, up: bool) -> bool {
        arbitrary()
    }

    /// Network output for the side to move, in whole centipawns. The goal distances of the
    /// side to move and of the other go in with the position; with both hands empty they are
    /// jump distances, where those are known.
    fn net_eval(&mut self, g: &GameState, d_me: i32, d_opp: i32) -> (v: i32)
        ensures
            v == old(self).net_of(g@, d_me as int, d_opp as int),
    ;

    /// Network output of a position with these distances.
    open spec fn net_of(&self, p: game::Position, d_me: int, d_opp: int) -> i32 {
        arbitrary()
    }

    /// Tries to prove a forced win of `side`: proven or not, and nodes spent.
    fn certify(&mut self, g: &GameState, side: usize, budget: u64, deadline_ms: u64) -> (r: (
        bool,
        u64,
    ))
        ensures
            old(self).may_certify(g@, side as int, budget, deadline_ms, r.0, r.1),
    ;

    /// An attempt of this effort, within this time, may come out so.
    open spec fn may_certify(
        &self,
        p: game::Position,
        side: int,
        budget: u64,
        deadline_ms: u64,
        proven: bool,
        nodes: u64,
    ) -> bool {
        arbitrary()
    }

    /// Does the side to move win the pure pawn race? `None` when undecided.
    fn hands_empty_race(&mut self, g: &GameState) -> (r: Option<bool>)
        ensures
            r == old(self).race_of(g@),
    ;

    /// Does the side to move win the pure pawn race?
    open spec fn race_of(&self, p: game::Position) -> Option<bool> {
        arbitrary()
    }

    /// Goal distances with jumps, when the race is close enough to look.
    fn jump_distances(&mut self, g: &GameState) -> (d: Option<(u8, u8)>)
        ensures
            d == old(self).jumps_of(g@),
    ;

    /// Goal distances with jumps.
    open spec fn jumps_of(&self, p: game::Position) -> Option<(u8, u8)> {
        arbitrary()
    }

    /// Winner by a corridor that walls cannot touch.
    fn wall_ignore_winner(&mut self, g: &GameState) -> (w: Option<usize>)
        ensures
            w == old(self).corridor_of(g@),
    ;

    /// Winner by a corridor.
    open spec fn corridor_of(&self, p: game::Position) -> Option<usize> {
        arbitrary()
    }

    /// Impact heat by move identifier.
    fn impact_heat(&mut self, g: &GameState) -> (heat: Vec<i32>)
        ensures
            heat@ == old(self).heat_of(g@),
    ;

    /// Impact heat of a position.
    open spec fn heat_of(&self, p: game::Position) -> Seq<i32> {
        arbitrary()
    }

    /// Walls worth searching, by move identifier.
    fn relevant_walls(&mut self, g: &GameState, depth: i32) -> (relevant: Vec<bool>)
        ensures
            relevant@ == old(self).relevant_of(g@, depth as int),
    ;

    /// Walls worth searching at a depth.
    open spec fn relevant_of(&self, p: game::Position, depth: int) -> Seq<bool> {
        arbitrary()
    }

    /// Plies to take off a late wall.
    fn wall_reduction(&mut self, q: &LmrQuery) -> (plies: i32)
        ensures
            plies == old(self).wall_reduction_of(*q),
    ;

    /// Plies to take off a late wall.
    open spec fn wall_reduction_of(&self, q: LmrQuery) -> i32 {
        arbitrary()
    }

    /// Plies to take off a late pawn move; `None` for no reduction.
    fn pawn_reduction(&mut self, q: &LmrQuery) -> (plies: Option<i32>)
        ensures
            plies == old(self).pawn_reduction_of(*q),
    ;

    /// Plies to take off a late pawn move.
    open spec fn pawn_reduction_of(&self, q: LmrQuery) -> Option<i32> {
        arbitrary()
    }

    /// Is the move denied by the opening book?
    fn move_denied(&mut self, g: &GameState, m: i16) -> (denied: bool)
        ensures
            denied == old(self).denies(g@, m),
    ;

    /// Is the move denied?
    open spec fn denies(&self, p: game::Position, m: i16) -> bool {
        arbitrary()
    }

    /// Looks a position up in the shared table.
    fn shared_probe(&mut self, hash_lo: u32, hash_hi: u32) -> (e: Option<SharedTtEntry>)
        ensures
            old(self).may_find(hash_lo, hash_hi, e),
    ;

    /// The shared table may hold this for the position.
    open spec fn may_find(&self, hash_lo: u32, hash_hi: u32, e: Option<SharedTtEntry>) -> bool {
        arbitrary()
    }

    /// Offers an entry to the shared table.
    fn shared_store(&mut self, entry: SharedTtEntry, tt_gen: u8, pure_mode: bool)
        ensures
            final(self).was_offered(entry, tt_gen, pure_mode),
    ;

    /// The shared table has just been offered this.
    open spec fn was_offered(&self, entry: SharedTtEntry, tt_gen: u8, pure_mode: bool) -> bool {
        arbitrary()
    }

    /// Progress: a new best root move, or one more batch of nodes.
    fn progress(&mut self, g: &GameState, nodes: u64, best: i16, score: i32, forced: bool);

    /// A race at the root was told without a search: moves looked at, score and what it says.
    fn race_told(&mut self, g: &GameState, nodes: u64, score: i32, info: RaceResultInfo);

    /// A depth was completed, with these scores of the root moves. Told again for the same
    /// depth when a pass over the root has corrected it.
    fn depth_done(&mut self, entry: &AceDepthLogEntry, root_moves: &Vec<(i16, i32)>);
}

/// Surroundings in which nothing happens: no network, no book, no reductions, and a clock that
/// stands still. A search in them is decided by rules, races and tables alone.
pub struct StillHost;

impl Clock for StillHost {
    open spec fn may_have_left(&self, ms: u64, left: bool) -> bool {
        left
    }

    fn time_left(&mut self, ms: u64) -> (left: bool) {
        true
    }

    open spec fn may_read(&self, now: u64) -> bool {
        now == 0
    }

    fn now_ms(&mut self) -> (now: u64) {
        0
    }
}

impl RaceDeducer for StillHost {
    open spec fn deduced(&self, p: game::Position) -> (RaceBound, Option<u16>) {
        (RaceBound::Unknown, None)
    }

    fn deduce(&mut self, g: &GameState) -> (d: (RaceBound, Option<u16>)) {
        (RaceBound::Unknown, None)
    }
}

impl SearchHost for StillHost {
    open spec fn runs_for(&self, ms: u64) -> bool {
        true
    }

    fn start_clock(&mut self, ms: u64) {
    }

    open spec fn may_advise(
        &self,
        p: game::Position,
        direct: Option<i16>,
        order: Seq<i16>,
        attention: Seq<i32>,
    ) -> bool {
        direct is None && order.len() == 0 && attention.len() == 0
    }

    fn consult_book(&mut self, g: &GameState) -> (a: BookAdvice) {
        BookAdvice { direct: None, order: Vec::new(), attention: Vec::new() }
    }

    open spec fn may_be_up(&self, up: bool) -> bool {
        !up
    }

    fn time_is_up(&mut self) -> (up: bool) {
        false
    }

    open spec fn net_of(&self, p: game::Position, d_me: int, d_opp: int) -> i32 {
        0
    }

    fn net_eval(&mut self, g: &GameState, d_me: i32, d_opp: i32) -> (v: i32) {
        0
    }

    open spec fn may_certify(
        &self,
        p: game::Position,
        side: int,
        budget: u64,
        deadline_ms: u64,
        proven: bool,
        nodes: u64,
    ) -> bool {
        !proven && nodes == 0
    }

    fn certify(&mut self, g: &GameState, side: usize, budget: u64, deadline_ms: u64) -> (r: (
        bool,
        u64,
    )) {
        (false, 0)
    }

    open spec fn race_of(&self, p: game::Position) -> Option<bool> {
        None
    }

    fn hands_empty_race(&mut self, g: &GameState) -> (r: Option<bool>) {
        None
    }

    open spec fn jumps_of(&self, p: game::Position) -> Option<(u8, u8)> {
        None
    }

    fn jump_distances(&mut self, g: &GameState) -> (d: Option<(u8, u8)>) {
        None
    }

    open spec fn corridor_of(&self, p: game::Position) -> Option<usize> {
        None
    }

    fn wall_ignore_winner(&mut self, g: &GameState) -> (w: Option<usize>) {
        None
    }

    open spec fn heat_of(&self, p: game::Position) -> Seq<i32> {
        Seq::empty()
    }

    fn impact_heat(&mut self, g: &GameState) -> (heat: Vec<i32>) {
        let heat: Vec<i32> = Vec::new();
        assert(heat@ =~= Seq::empty());
        heat
    }

    open spec fn relevant_of(&self, p: game::Position, depth: int) -> Seq<bool> {
        Seq::empty()
    }

    fn relevant_walls(&mut self, g: &GameState, depth: i32) -> (relevant: Vec<bool>) {
        let relevant: Vec<bool> = Vec::new();
        assert(relevant@ =~= Seq::empty());
        relevant
    }

    open spec fn wall_reduction_of(&self, q: LmrQuery) -> i32 {
        0
    }

    fn wall_reduction(&mut self, q: &LmrQuery) -> (plies: i32) {
        0
    }

    open spec fn pawn_reduction_of(&self, q: LmrQuery) -> Option<i32> {
        None
    }

    fn pawn_reduction(&mut self, q: &LmrQuery) -> (plies: Option<i32>) {
        None
    }

    open spec fn denies(&self, p: game::Position, m: i16) -> bool {
        false
    }

    fn move_denied(&mut self, g: &GameState, m: i16) -> (denied: bool) {
        false
    }

    open spec fn may_find(&self, hash_lo: u32, hash_hi: u32, e: Option<SharedTtEntry>) -> bool {
        e is None
    }

    fn shared_probe(&mut self, hash_lo: u32, hash_hi: u32) -> (e: Option<SharedTtEntry>) {
        None
    }

    open spec fn was_offered(&self, entry: SharedTtEntry, tt_gen: u8, pure_mode: bool) -> bool {
        true
    }

    fn shared_store(&mut self, entry: SharedTtEntry, tt_gen: u8, pure_mode: bool) {
    }

    fn progress(&mut self, g: &GameState, nodes: u64, best: i16, score: i32, forced: bool) {
    }

    fn race_told(&mut self, g: &GameState, nodes: u64, score: i32, info: RaceResultInfo) {
    }

    fn depth_done(&mut self, entry: &AceDepthLogEntry, root_moves: &Vec<(i16, i32)>) {
    }
}

} // verus!

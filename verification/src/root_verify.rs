//! Full-depth passes over every root move: the most stubborn defence of a lost position,
//! and the cleanest way to win a won one.

use crate::board;
use crate::game;
use crate::host::SearchHost;
use crate::movegen;
use crate::moves;
use crate::ordering;
use crate::race_cache;
use crate::root_moves;
use crate::root_select;
use crate::root_select::{CleanWinCandidate, RootDefenseDiag};
use crate::score::INF;
use crate::search;
use crate::search::{TimeUp, TitaniumSearch};
use crate::trace;
use crate::trace::{Asked, Call};
use crate::tt;
use vstd::prelude::*;

verus! {

/// What a full-depth search of one root move found.
#[derive(Clone, Copy, Debug, PartialEq, Eq, Structural)]
pub struct RootProbe {
    pub search_score: i32,
    /// Static evaluation after the move, for the side that moved.
    pub static_eval: i32,
    pub own_dist_after: i32,
    pub opp_dist_after: i32,
    pub nodes: u64,
}

/// How one root move was searched: the searcher after the move was played, and the search.
pub struct ProbeTrace {
    pub start: TitaniumSearch,
    pub call: Call,
}

/// A root move was searched from `now` to `end`: it is played, evaluated as a leaf, searched
/// to this depth with an open window, and taken back. `static_eval` and `value` are for the
/// side that moved.
#[verifier::opaque]
pub open spec fn probed_by<H: SearchHost>(
    now: TitaniumSearch,
    end: TitaniumSearch,
    m: i16,
    child_depth: int,
    static_eval: int,
    value: int,
    t: ProbeTrace,
) -> bool {
    let k = t.call;
    &&& t.start.g@ == game::played(now.g@, m as int)
    &&& trace::same_knowledge(t.start, now)
    &&& t.start.nodes == now.nodes
    &&& trace::evaluated_to::<H>(t.start, k.before, 0, -static_eval)
    &&& trace::same_line(k.before, now, 0)
    &&& k.asked == (Asked {
        depth: child_depth,
        alpha: (-INF) as i32,
        beta: INF,
        ply: 1,
        allow_null: true,
        prev_move: m,
        q_left: 0,
    })
    &&& trace::is_result::<H>(k.before, k.after, k.asked, k.value)
    &&& value == -k.value
    &&& trace::same_knowledge(end, k.after)
    &&& end.nodes == k.after.nodes
    &&& end.g@ == now.g@
    &&& trace::same_line(end, now, 0)
}

/// The same for some such search.
pub open spec fn probed<H: SearchHost>(
    now: TitaniumSearch,
    end: TitaniumSearch,
    m: i16,
    child_depth: int,
    static_eval: int,
    value: int,
) -> bool {
    exists|t: ProbeTrace| #[trigger]
        probed_by::<H>(now, end, m, child_depth, static_eval, value, t)
}

/// The record of a root move that was searched from `now` to `end` is consistent and holds
/// the distances before and after it.
pub open spec fn defence_recorded<H: SearchHost>(
    now: TitaniumSearch,
    end: TitaniumSearch,
    d: RootDefenseDiag,
    child_depth: int,
) -> bool {
    let p = now.g@;
    let q = game::played(p, d.mv as int);
    &&& probed::<H>(now, end, d.mv, child_depth, d.static_eval as int, d.search_score as int)
    &&& d.consistent()
    &&& d.child_depth_used == child_depth
    &&& board::dist_value(p.w, p.turn, game::pawn_of(p, p.turn), d.own_dist_before as int)
    &&& board::dist_value(q.w, p.turn, game::pawn_of(q, p.turn), d.own_dist_after as int)
    &&& board::dist_value(q.w, 1 - p.turn, game::pawn_of(q, 1 - p.turn), d.opp_dist_after as int)
}

/// The record of a root move that was searched from `now` to `end` holds the opponent's
/// distance after it and its heat.
pub open spec fn win_recorded<H: SearchHost>(
    now: TitaniumSearch,
    end: TitaniumSearch,
    heat: Seq<i32>,
    c: CleanWinCandidate,
    child_depth: int,
) -> bool {
    let p = now.g@;
    let q = game::played(p, c.mv as int);
    &&& probed::<H>(now, end, c.mv, child_depth, c.static_eval as int, c.search_score as int)
    &&& board::dist_value(q.w, 1 - p.turn, game::pawn_of(q, 1 - p.turn), c.opp_dist_after as int)
    &&& c.cat_heat == if 0 <= c.mv < heat.len() {
        heat[c.mv as int] as int
    } else {
        0
    }
}

/// Every listed move was searched and recorded, each from where the one before it ended.
/// `states` holds the searcher before each move and after the last.
pub open spec fn defences_recorded<H: SearchHost>(
    states: Seq<TitaniumSearch>,
    cands: Seq<i16>,
    ds: Seq<RootDefenseDiag>,
    child_depth: int,
) -> bool {
    &&& states.len() == cands.len() + 1
    &&& ds.len() == cands.len()
    &&& forall|i: int|
        0 <= i < ds.len() ==> (#[trigger] ds[i]).mv == cands[i] && defence_recorded::<H>(
            states[i],
            states[i + 1],
            ds[i],
            child_depth,
        )
}

/// The same for winning moves.
pub open spec fn wins_recorded<H: SearchHost>(
    states: Seq<TitaniumSearch>,
    cands: Seq<i16>,
    heat: Seq<i32>,
    cs: Seq<CleanWinCandidate>,
    child_depth: int,
) -> bool {
    &&& states.len() == cands.len() + 1
    &&& cs.len() == cands.len()
    &&& forall|i: int|
        0 <= i < cs.len() ==> (#[trigger] cs[i]).mv == cands[i] && win_recorded::<H>(
            states[i],
            states[i + 1],
            heat,
            cs[i],
            child_depth,
        )
}

/// The searcher knows what it knew, but for the root's best move.
pub open spec fn pass_left(last: TitaniumSearch, after: TitaniumSearch) -> bool {
    trace::linked(last, after, 0)
}

/// The most stubborn of the recorded defences.
pub open spec fn is_stubbornest(ds: Seq<RootDefenseDiag>, mv: i16, value: i32) -> bool {
    exists|b: int|
        0 <= b < ds.len() && mv == (#[trigger] ds[b]).mv && value == ds[b].search_score && forall|
            i: int,
        |
            0 <= i < ds.len() && i != b ==> root_select::outranks(
                ds[b].rank(b),
                #[trigger] ds[i].rank(i),
            )
}

/// These defences were searched in turn, and the most stubborn stands at the root. Without
/// any the root stands.
pub open spec fn defended_among<H: SearchHost>(
    before: TitaniumSearch,
    after: TitaniumSearch,
    cands: Seq<i16>,
    child_depth: int,
    v: i32,
) -> bool {
    let ds = after.root_defense_diag@;
    &&& exists|states: Seq<TitaniumSearch>| #[trigger]
        defences_recorded::<H>(states, cands, ds, child_depth) && states[0] == before && pass_left(
            states.last(),
            after,
        )
    &&& v == after.root_score
    &&& if cands.len() == 0 {
        after.root_best == before.root_best && after.root_score == before.root_score
    } else {
        is_stubbornest(ds, after.root_best, v)
    }
}

/// These wins were searched in turn, and the cleanest stands at the root. Without any the
/// root stands.
pub open spec fn won_among<H: SearchHost>(
    before: TitaniumSearch,
    after: TitaniumSearch,
    cands: Seq<i16>,
    heat: Seq<i32>,
    child_depth: int,
    v: i32,
    cs: Seq<CleanWinCandidate>,
) -> bool {
    &&& exists|states: Seq<TitaniumSearch>| #[trigger]
        wins_recorded::<H>(states, cands, heat, cs, child_depth) && states[0] == before && pass_left(
            states.last(),
            after,
        )
    &&& v == after.root_score
    &&& if cands.len() == 0 {
        after.root_best == before.root_best && after.root_score == before.root_score
    } else {
        is_cleanest(cs, after.root_best, v)
    }
}

/// A pass over the root begins: nothing but the table's generation has moved.
pub open spec fn pass_opened(before: TitaniumSearch, opened: TitaniumSearch) -> bool {
    opened == (TitaniumSearch {
        table: tt::TitaniumTt { tt_gen: pass_generation(before), ..before.table },
        dist: opened.dist,
        root_defense_diag: opened.root_defense_diag,
        ..before
    })
}

/// A pass over a lost root: every legal move but those the book denies, in order, and the
/// most stubborn of them stands.
pub open spec fn defence_pass<H: SearchHost>(
    before: TitaniumSearch,
    after: TitaniumSearch,
    child_depth: int,
    v: i32,
) -> bool {
    exists|opened: TitaniumSearch, cands: Seq<i16>| #[trigger]
        defended_among::<H>(opened, after, cands, child_depth, v) && pass_opened(before, opened)
            && root_moves::root_list_of::<H>(before, before.hist, root_hint(before), cands)
}

/// The surroundings' impact heat of a position.
pub open spec fn heat_told<H: SearchHost>(p: game::Position, heat: Seq<i32>) -> bool {
    exists|h: H| #[trigger] h.heat_of(p) == heat
}

/// A pass over a won root: every legal move but those the book denies, in order, and the
/// cleanest win stands.
pub open spec fn win_pass<H: SearchHost>(
    before: TitaniumSearch,
    after: TitaniumSearch,
    child_depth: int,
    v: i32,
    cs: Seq<CleanWinCandidate>,
) -> bool {
    exists|opened: TitaniumSearch, cands: Seq<i16>, heat: Seq<i32>| #[trigger]
        won_among::<H>(opened, after, cands, heat, child_depth, v, cs) && pass_opened(before, opened)
            && root_moves::root_list_of::<H>(before, before.hist, root_hint(before), cands) && (
        cands.len() > 0 ==> heat_told::<H>(before.g@, heat))
}

/// Table generation of a pass over the root: a new one, unless in pure mode or pondering.
pub open spec fn pass_generation(s: TitaniumSearch) -> u8 {
    if s.cfg.pure_mode || s.cfg.is_pondering {
        s.table.tt_gen
    } else {
        ((s.table.tt_gen + 1) % 256) as u8
    }
}

/// No move of the root is legal.
pub open spec fn no_root_move(p: game::Position) -> bool {
    root_moves::legal_moves(p).len() == 0
}

/// The move a pass puts in front: the root's best.
pub open spec fn root_hint(s: TitaniumSearch) -> int {
    if s.root_best >= 0 {
        s.root_best as int
    } else {
        0
    }
}

/// The root list depends only on the position, the statistics and the book's order.
proof fn lemma_same_list<H: SearchHost>(a: TitaniumSearch, b: TitaniumSearch, hint: int, out: Seq<i16>)
    requires
        root_moves::root_list_of::<H>(b, b.hist, hint, out),
        a.g@ == b.g@,
        a.hist == b.hist,
        a.book_order == b.book_order,
        a.book_attention == b.book_attention,
    ensures
        root_moves::root_list_of::<H>(a, a.hist, hint, out),
{
    let book = choose|book: ordering::BookHints| #[trigger]
        root_moves::root_list_is(b.g@, b.hist, hint, book, out) && book.order@ == b.book_order@
            && book.attention@ == b.book_attention@ && root_moves::denials_told::<H>(b.g@, book);
    assert(root_moves::root_list_is(a.g@, a.hist, hint, book, out));
}

/// The move and its score are those of the candidate that outranks all others.
pub open spec fn is_cleanest(cs: Seq<CleanWinCandidate>, mv: i16, value: i32) -> bool {
    exists|b: int|
        0 <= b < cs.len() && mv == (#[trigger] cs[b]).mv && value == cs[b].search_score && forall|
            i: int,
        |
            0 <= i < cs.len() && i != b ==> root_select::outranks(
                cs[b].rank(b),
                #[trigger] cs[i].rank(i),
            )
}

impl TitaniumSearch {
    /// Searches one root move at full depth with an open window, unless time is up already.
    pub fn probe_root_move<H: SearchHost>(
        &mut self,
        up: bool,
        m: i16,
        child_depth: i32,
        host: &mut H,
    ) -> (r: Result<RootProbe, TimeUp>)
        requires
            old(self).ready(0),
            old(self).dist.fresh(old(self).g@),
            old(self).dist.fields_are(old(self).g.topo()),
            movegen::playable(old(self).g@, m as int),
            0 <= child_depth <= 512,
        ensures
            final(self).ready(0),
            final(self).keeps(old(self), 1),
            final(self).dist.fresh(final(self).g@),
            final(self).dist.fields_are(final(self).g.topo()),
            final(self).nodes >= old(self).nodes,
            up ==> r is Err && *final(self) == *old(self),
            // Otherwise only the clock ends it, on every 64th node alone.
            r is Err ==> up || (search::clock_looked(old(self).nodes, final(self).nodes)
                && search::clock_says::<H>(true)),
            r matches Ok(x) ==> {
                let p = old(self).g@;
                let q = game::played(p, m as int);
                &&& x.nodes == final(self).nodes - old(self).nodes
                // The score comes from a search to the depth asked for, with an open window.
                &&& probed::<H>(
                    *old(self),
                    *final(self),
                    m,
                    child_depth as int,
                    x.static_eval as int,
                    x.search_score as int,
                )
                // A move to a position with a fixed score has that score.
                &&& search::entry_score(q, old(self).path@, 1) matches Some(e) ==> x.search_score
                    == -e
                &&& search::score_ok(x.search_score as int)
                &&& search::score_ok(x.static_eval as int)
                &&& 0 <= x.own_dist_after <= 255
                &&& 0 <= x.opp_dist_after <= 255
                &&& board::dist_value(q.w, p.turn, game::pawn_of(q, p.turn), x.own_dist_after as int)
                &&& board::dist_value(
                    q.w,
                    1 - p.turn,
                    game::pawn_of(q, 1 - p.turn),
                    x.opp_dist_after as int,
                )
            },
    {
        if up {
            return Err(TimeUp);
        }
        let mark = self.dist.mark();
        let ghost before = *self;
        let root_side: usize = self.g.turn;
        let nodes_before: u64 = self.nodes;
        self.play(m, 0);
        self.refresh_dist(1);
        let ghost start = *self;
        let static_eval: i32 = -self.evaluate(0, host);
        let own: i32 = self.pawn_distance(root_side);
        let opp: i32 = self.pawn_distance(1 - root_side);
        let ghost child = *self;
        let res = self.ab(child_depth, -INF, INF, 1, true, m, 0, host);
        let ghost searched = *self;
        self.unwind_move(&mark, Ghost(before), 0);
        match res {
            Err(e) => Err(e),
            Ok(v) => {
                proof {
                    let call = Call {
                        before: child,
                        after: searched,
                        asked: trace::asked(child_depth, (-INF) as i32, INF, 1, true, m, 0),
                        value: v as int,
                    };
                    let t = ProbeTrace { start, call };
                    trace::lemma_same_line(child, before, 0);
                    trace::lemma_same_line(*self, before, 0);
                    assert(probed_by::<H>(
                        before,
                        *self,
                        m,
                        child_depth as int,
                        static_eval as int,
                        -v as int,
                        t,
                    )) by {
                        reveal(probed_by);
                    }
                }
                let nodes: u64 = self.nodes - nodes_before;
                Ok(
                    RootProbe {
                        search_score: -v,
                        static_eval,
                        own_dist_after: own,
                        opp_dist_after: opp,
                        nodes,
                    },
                )
            },
        }
    }

    /// A fresh generation, so that reduced entries of the last iteration give way.
    fn begin_root_pass(&mut self)
        requires
            old(self).ready(0),
        ensures
            final(self).ready(0),
            final(self).table == (tt::TitaniumTt {
                tt_gen: pass_generation(*old(self)),
                ..old(self).table
            }),
            *final(self) == (TitaniumSearch { table: final(self).table, ..*old(self) }),
    {
        if !self.cfg.pure_mode && !self.cfg.is_pondering {
            self.table.next_generation();
        }
    }

    /// Searches every root move at full depth and takes the most stubborn defence.
    pub fn root_defense_verify<H: SearchHost>(&mut self, depth: i32, host: &mut H) -> (r: Result<
        i32,
        TimeUp,
    >)
        requires
            old(self).ready(0),
            1 <= depth <= 512,
        ensures
            final(self).ready(0),
            final(self).g@ == old(self).g@,
            final(self).cfg == old(self).cfg,
            final(self).lazy.moves == old(self).lazy.moves,
            final(self).book_order == old(self).book_order,
            final(self).book_attention == old(self).book_attention,
            final(self).use_shared == old(self).use_shared,
            final(self).rp_demotions == old(self).rp_demotions,
            final(self).rp_root_solves == old(self).rp_root_solves,
            final(self).prover.same_config(&old(self).prover),
            // A finished pass records every legal move but those the book denies, in order.
            r matches Ok(v) ==> root_moves::root_list_of::<H>(
                *old(self),
                old(self).hist,
                root_hint(*old(self)),
                final(self).root_defense_diag@.map_values(|d: RootDefenseDiag| d.mv),
            ),
            // Whatever comes of it, the pass has opened its generation.
            final(self).table.tt_gen == pass_generation(*old(self)),
            final(self).nodes >= old(self).nodes,
            r is Err ==> final(self).root_best == old(self).root_best && final(self).root_score
                == old(self).root_score && final(self).root_defense_diag@.len() == 0,
            no_root_move(old(self).g@) ==> r is Ok && final(self).root_defense_diag@.len() == 0,
            r matches Ok(v) ==> search::score_ok(v as int) && defence_pass::<H>(
                *old(self),
                *final(self),
                depth - 1,
                v,
            ),
    {
        self.begin_root_pass();
        self.root_defense_diag = Vec::new();
        self.refresh_dist(0);
        let hint: i16 = if self.root_best >= 0 {
            self.root_best
        } else {
            0
        };
        let (cands, book) = self.root_list(hint, host);
        proof {
            lemma_no_candidates(self.g@, cands@);
        }
        let ghost opened = *self;
        let res = self.defend_among(&cands, depth, host);
        proof {
            let listed = self.root_defense_diag@.map_values(|d: RootDefenseDiag| d.mv);
            lemma_same_list::<H>(*old(self), opened, root_hint(*old(self)), cands@);
            if let Ok(v) = res {
                assert(listed =~= cands@);
                assert(pass_opened(*old(self), opened));
                assert(defended_among::<H>(opened, *self, cands@, depth - 1, v));
            }
        }
        res
    }

    /// Searches these root moves at full depth and takes the most stubborn defence: every
    /// one is recorded, and the best outranks all others. Without moves the root stands.
    pub fn defend_among<H: SearchHost>(&mut self, cands: &Vec<i16>, depth: i32, host: &mut H) -> (r:
        Result<i32, TimeUp>)
        requires
            old(self).ready(0),
            old(self).dist.fresh(old(self).g@),
            old(self).dist.fields_are(old(self).g.topo()),
            1 <= depth <= 512,
            movegen::all_playable(old(self).g@, cands@),
        ensures
            final(self).ready(0),
            final(self).g@ == old(self).g@,
            final(self).cfg == old(self).cfg,
            final(self).lazy.moves == old(self).lazy.moves,
            final(self).book_order == old(self).book_order,
            final(self).book_attention == old(self).book_attention,
            final(self).use_shared == old(self).use_shared,
            final(self).rp_demotions == old(self).rp_demotions,
            final(self).rp_root_solves == old(self).rp_root_solves,
            final(self).prover.same_config(&old(self).prover),
            r is Err ==> final(self).root_best == old(self).root_best && final(self).root_score
                == old(self).root_score && final(self).root_defense_diag
                == old(self).root_defense_diag,
            final(self).table.tt_gen == old(self).table.tt_gen,
            final(self).nodes >= old(self).nodes,
            cands@.len() == 0 ==> r is Ok,
            // Time is looked at before each move.
            r is Err ==> race_cache::clock_left::<H>(0, false) || search::clock_says::<H>(true),
            r is Ok && cands@.len() > 0 ==> race_cache::clock_left::<H>(0, true),
            r matches Ok(v) ==> defended_among::<H>(*old(self), *final(self), cands@, depth - 1, v),
    {
        let ghost start = *self;
        let n: usize = cands.len();
        let ghost mut states: Seq<TitaniumSearch> = seq![*self];
        if n == 0 {
            self.root_defense_diag = Vec::new();
            proof {
                trace::lemma_same_line(states[0], *self, 0);
                assert(states.last() == states[0]);
                assert(defences_recorded::<H>(
                    states,
                    cands@,
                    self.root_defense_diag@,
                    depth - 1,
                ));
            }
            return Ok(self.root_score);
        }
        let child_depth: i32 = depth - 1;
        let root_side: usize = self.g.turn;
        let own_before: i32 = self.pawn_distance(root_side);
        let mut diag: Vec<RootDefenseDiag> = Vec::new();
        let mut i: usize = 0;
        while i < n
            invariant
                i <= n,
                n == cands@.len(),
                i > 0 ==> race_cache::clock_left::<H>(0, true),
                0 <= child_depth <= 512,
                child_depth == depth - 1,
                0 <= own_before <= 255,
                self.ready(0),
                self.keeps(&start, 1),
                self.dist.fresh(self.g@),
                self.dist.fields_are(self.g.topo()),
                start == *old(self),
                n > 0,
                self.nodes >= start.nodes,
                movegen::all_playable(start.g@, cands@),
                root_side == start.g@.turn,
                board::dist_value(
                    start.g@.w,
                    start.g@.turn,
                    game::pawn_of(start.g@, start.g@.turn),
                    own_before as int,
                ),
                diag@.len() == i,
                states.len() == i + 1,
                states[0] == start,
                states[i as int] == *self,
                forall|k: int|
                    0 <= k < i ==> {
                        &&& (#[trigger] diag@[k]).mv == cands@[k]
                        &&& defence_recorded::<H>(states[k], states[k + 1], diag@[k], depth - 1)
                        &&& diag@[k].own_dist_before == own_before
                        &&& search::score_ok(diag@[k].search_score as int)
                    },
            decreases n - i,
        {
            let ghost h = *host;
            let left: bool = host.time_left(0);
            assert(h.may_have_left(0, left));
            let up: bool = !left;
            let m: i16 = cands[i];
            assert(movegen::playable(self.g@, m as int));
            match self.probe_root_move(up, m, child_depth, host) {
                Err(e) => {
                    return Err(e);
                },
                Ok(x) => {
                    diag.push(
                        RootDefenseDiag::record(
                            m,
                            child_depth,
                            x.search_score,
                            x.static_eval,
                            x.nodes,
                            own_before,
                            x.own_dist_after,
                            x.opp_dist_after,
                        ),
                    );
                    proof {
                        states = states.push(*self);
                        assert(defence_recorded::<H>(
                            states[i as int],
                            states[i + 1],
                            diag@[i as int],
                            depth - 1,
                        ));
                    }
                },
            }
            i += 1;
        }
        assert(states.last() == *self);
        let best: usize = root_select::pick_defense(&diag);
        let (mv, value): (i16, i32) = (diag[best].mv, diag[best].search_score);
        assert(search::score_ok(diag@[best as int].search_score as int));
        self.root_best = mv;
        self.root_score = value;
        if moves::is_pawn_move(mv) {
            self.root_pawn_best = mv;
            self.root_pawn_score = Some(value);
        }
        self.root_defense_diag = diag;
        proof {
            trace::lemma_same_line(states.last(), *self, 0);
            assert(defences_recorded::<H>(states, cands@, self.root_defense_diag@, depth - 1));
            assert(is_stubbornest(self.root_defense_diag@, mv, value));
        }
        Ok(value)
    }

    /// Searches every root move at full depth and takes the cleanest win.
    pub fn root_clean_win_verify<H: SearchHost>(&mut self, depth: i32, host: &mut H) -> (r: Result<
        (i32, Vec<CleanWinCandidate>),
        TimeUp,
    >)
        requires
            old(self).ready(0),
            1 <= depth <= 512,
        ensures
            final(self).ready(0),
            final(self).g@ == old(self).g@,
            final(self).cfg == old(self).cfg,
            final(self).lazy.moves == old(self).lazy.moves,
            final(self).book_order == old(self).book_order,
            final(self).book_attention == old(self).book_attention,
            final(self).use_shared == old(self).use_shared,
            final(self).rp_demotions == old(self).rp_demotions,
            final(self).rp_root_solves == old(self).rp_root_solves,
            final(self).prover.same_config(&old(self).prover),
            // A finished pass records every legal move but those the book denies, in order.
            r matches Ok((v, cs)) ==> root_moves::root_list_of::<H>(
                *old(self),
                old(self).hist,
                root_hint(*old(self)),
                cs@.map_values(|c: CleanWinCandidate| c.mv),
            ),
            // Whatever comes of it, the pass has opened its generation.
            final(self).table.tt_gen == pass_generation(*old(self)),
            final(self).nodes >= old(self).nodes,
            r is Err ==> final(self).root_best == old(self).root_best && final(self).root_score
                == old(self).root_score,
            no_root_move(old(self).g@) ==> (r matches Ok((v, cs)) && cs@.len() == 0),
            r matches Ok((v, cs)) ==> search::score_ok(v as int) && win_pass::<H>(
                *old(self),
                *final(self),
                depth - 1,
                v,
                cs@,
            ),
    {
        self.begin_root_pass();
        self.refresh_dist(0);
        let hint: i16 = if self.root_best >= 0 {
            self.root_best
        } else {
            0
        };
        let (cands, book) = self.root_list(hint, host);
        proof {
            lemma_no_candidates(self.g@, cands@);
        }
        let heat: Vec<i32> = if cands.len() == 0 {
            Vec::new()
        } else {
            let ghost h = *host;
            let heat = host.impact_heat(&self.g);
            assert(h.heat_of(self.g@) == heat@);
            heat
        };
        let ghost opened = *self;
        let res = self.win_among(&cands, &heat, depth, host);
        proof {
            lemma_same_list::<H>(*old(self), opened, root_hint(*old(self)), cands@);
            if res is Ok {
                let (v, cs) = (res->Ok_0.0, res->Ok_0.1@);
                let listed = cs.map_values(|c: CleanWinCandidate| c.mv);
                assert(listed =~= cands@);
                assert(pass_opened(*old(self), opened));
                assert(won_among::<H>(opened, *self, cands@, heat@, depth - 1, v, cs));
            }
        }
        res
    }

    /// Searches these root moves at full depth and takes the cleanest win: every one is
    /// recorded with its heat, and the best outranks all others. Without moves the root
    /// stands.
    pub fn win_among<H: SearchHost>(
        &mut self,
        cands: &Vec<i16>,
        heat: &Vec<i32>,
        depth: i32,
        host: &mut H,
    ) -> (r: Result<(i32, Vec<CleanWinCandidate>), TimeUp>)
        requires
            old(self).ready(0),
            old(self).dist.fresh(old(self).g@),
            old(self).dist.fields_are(old(self).g.topo()),
            1 <= depth <= 512,
            movegen::all_playable(old(self).g@, cands@),
        ensures
            final(self).ready(0),
            final(self).g@ == old(self).g@,
            final(self).cfg == old(self).cfg,
            final(self).lazy.moves == old(self).lazy.moves,
            final(self).book_order == old(self).book_order,
            final(self).book_attention == old(self).book_attention,
            final(self).use_shared == old(self).use_shared,
            final(self).rp_demotions == old(self).rp_demotions,
            final(self).rp_root_solves == old(self).rp_root_solves,
            final(self).prover.same_config(&old(self).prover),
            r is Err ==> final(self).root_best == old(self).root_best && final(self).root_score
                == old(self).root_score,
            final(self).table.tt_gen == old(self).table.tt_gen,
            final(self).nodes >= old(self).nodes,
            cands@.len() == 0 ==> r is Ok,
            // Time is looked at before each move.
            r is Err ==> race_cache::clock_left::<H>(0, false) || search::clock_says::<H>(true),
            r is Ok && cands@.len() > 0 ==> race_cache::clock_left::<H>(0, true),
            r matches Ok((v, cs)) ==> cs@.len() == cands@.len() && won_among::<H>(
                *old(self),
                *final(self),
                cands@,
                heat@,
                depth - 1,
                v,
                cs@,
            ),
    {
        let ghost start = *self;
        let n: usize = cands.len();
        let mut found: Vec<CleanWinCandidate> = Vec::new();
        let ghost mut states: Seq<TitaniumSearch> = seq![*self];
        if n == 0 {
            proof {
                trace::lemma_same_line(states[0], *self, 0);
                assert(states.last() == states[0]);
                assert(wins_recorded::<H>(states, cands@, heat@, found@, depth - 1));
            }
            return Ok((self.root_score, found));
        }
        let child_depth: i32 = depth - 1;
        let mut i: usize = 0;
        while i < n
            invariant
                i <= n,
                n == cands@.len(),
                i > 0 ==> race_cache::clock_left::<H>(0, true),
                0 <= child_depth <= 512,
                child_depth == depth - 1,
                self.ready(0),
                self.keeps(&start, 1),
                self.dist.fresh(self.g@),
                self.dist.fields_are(self.g.topo()),
                start == *old(self),
                n > 0,
                self.nodes >= start.nodes,
                movegen::all_playable(start.g@, cands@),
                found@.len() == i,
                states.len() == i + 1,
                states[0] == start,
                states[i as int] == *self,
                forall|k: int|
                    0 <= k < i ==> search::score_ok((#[trigger] found@[k]).search_score as int)
                        && found@[k].mv == cands@[k]
                            && win_recorded::<H>(states[k], states[k + 1], heat@, found@[k], depth - 1),
            decreases n - i,
        {
            let ghost h = *host;
            let left: bool = host.time_left(0);
            assert(h.may_have_left(0, left));
            let up: bool = !left;
            let m: i16 = cands[i];
            assert(movegen::playable(self.g@, m as int));
            match self.probe_root_move(up, m, child_depth, host) {
                Err(e) => {
                    return Err(e);
                },
                Ok(x) => {
                    let at: usize = m as usize;
                    let cat_heat: i32 = if at < heat.len() {
                        heat[at]
                    } else {
                        0
                    };
                    found.push(
                        CleanWinCandidate {
                            mv: m,
                            search_score: x.search_score,
                            static_eval: x.static_eval,
                            opp_dist_after: x.opp_dist_after,
                            cat_heat,
                        },
                    );
                    proof {
                        states = states.push(*self);
                        assert(win_recorded::<H>(
                            states[i as int],
                            states[i + 1],
                            heat@,
                            found@[i as int],
                            depth - 1,
                        ));
                    }
                },
            }
            i += 1;
        }
        assert(states.last() == *self);
        assert(wins_recorded::<H>(states, cands@, heat@, found@, depth - 1));
        let best: usize = root_select::pick_clean_win(&found);
        let (mv, value): (i16, i32) = (found[best].mv, found[best].search_score);
        assert(is_cleanest(found@, mv, value));
        assert(search::score_ok(found@[best as int].search_score as int));
        self.root_best = mv;
        self.root_score = value;
        if moves::is_pawn_move(mv) {
            self.root_pawn_best = mv;
            self.root_pawn_score = Some(value);
        }
        proof {
            trace::lemma_same_line(states.last(), *self, 0);
        }
        Ok((value, found))
    }
}

/// Candidates are legal moves, so without those there are none.
proof fn lemma_no_candidates(p: game::Position, cands: Seq<i16>)
    requires
        forall|i: int|
            0 <= i < cands.len() ==> root_moves::legal_moves(p).contains(#[trigger] cands[i]),
    ensures
        no_root_move(p) ==> cands.len() == 0,
{
    if cands.len() > 0 {
        assert(root_moves::legal_moves(p).contains(cands[0]));
    }
}

} // verus!

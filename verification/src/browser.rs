//! The engine as a web page drives it: a warm engine that keeps what it has learned between
//! moves, and a one-shot engine for older modes.

use crate::config::{NetWeights, SearchConfig};
use crate::game;
use crate::game::GameState;
use crate::history;
use crate::host::SearchHost;
use crate::modes;
use crate::movegen;
use crate::moves;
use crate::num;
use crate::search::TitaniumSearch;
use crate::session;
use crate::setup;
use crate::text;
use crate::think;
use crate::think::ThinkResult;
use crate::tt::TitaniumTt;
use vstd::prelude::*;

verus! {

/// Label of a strength tier: easy, medium, hard.
pub fn tier_label(tier: u8) -> (t: &'static str)
    ensures
        t@ == if tier == 0 {
            "titanium-v15-frozen"@
        } else if tier == 1 {
            "titanium-v15-medium"@
        } else {
            "titanium-v15"@
        },
{
    if tier == 0 {
        "titanium-v15-frozen"
    } else if tier == 1 {
        "titanium-v15-medium"
    } else {
        "titanium-v15"
    }
}

/// Share of late walls a helper skips: at most all.
pub fn late_wall_skip(pct: u32) -> (p: u8)
    ensures
        p == num::smaller(pct as int, 100),
{
    pct.min(100) as u8
}

/// Text of the answer: the move, or `(none)`.
pub fn answer_text(mv: i16) -> (t: String)
    ensures
        t@ == if mv == -1 {
            "(none)"@
        } else {
            moves::algebraic(mv as int)
        },
{
    if mv == moves::TITANIUM_NO_MOVE {
        session::line_of("(none)")
    } else {
        moves::move_id_to_algebraic(mv)
    }
}

/// Why a replay stops at a move.
pub open spec fn replay_refusal(p: game::Position, t: Seq<char>) -> Option<Seq<char>> {
    if game::winner_of(p) >= 0 {
        Some("illegal replay past terminal: "@ + t)
    } else if session::takes(p, moves::parsed_move(t)) {
        None
    } else {
        Some("move "@ + t + " cannot be played"@)
    }
}

/// The position after the first `n` moves, and the first refusal if there is one.
pub open spec fn replayed(p: game::Position, ms: Seq<Seq<char>>, n: int) -> (
    game::Position,
    Option<Seq<char>>,
)
    decreases n,
{
    if n <= 0 {
        (p, None)
    } else {
        let (q, r) = replayed(p, ms, n - 1);
        if r is Some {
            (q, r)
        } else if replay_refusal(q, ms[n - 1]) is Some {
            (q, replay_refusal(q, ms[n - 1]))
        } else {
            (game::played(q, moves::parsed_move(ms[n - 1])), None)
        }
    }
}

proof fn lemma_refused(p: game::Position, ms: Seq<Seq<char>>, i: int, n: int)
    requires
        0 <= i <= n,
        replayed(p, ms, i).1 is Some,
    ensures
        replayed(p, ms, n) == replayed(p, ms, i),
    decreases n,
{
    if i < n {
        lemma_refused(p, ms, i, n - 1);
    }
}

fn past_terminal(t: &str) -> (msg: String)
    ensures
        msg@ == "illegal replay past terminal: "@ + t@,
{
    let mut msg = session::line_of("illegal replay past terminal: ");
    msg.append(t);
    msg
}

/// A position from a text of moves, and how many there were.
pub fn replay_moves(moves_text: &str) -> (r: Result<(GameState, usize), String>)
    ensures
        ({
            let ms = session::words(moves_text@);
            let (q, why) = replayed(session::start_position(), ms, ms.len() as int);
            match r {
                Ok((g, n)) => g@ == q && why is None && n == ms.len() && setup::searchable(g),
                Err(e) => why == Some(e@),
            }
        }),
{
    let list = session::split_words(moves_text);
    let ghost ms = session::words(moves_text@);
    let ghost start = session::start_position();
    let mut g = GameState::new();
    proof {
        session::lemma_start(g);
    }
    let n: usize = list.len();
    let mut i: usize = 0;
    while i < n
        invariant
            i <= n,
            n == list@.len(),
            ms == session::views(list@),
            setup::searchable(g),
            replayed(start, ms, i as int) == (g@, None::<Seq<char>>),
            ms == session::words(moves_text@),
            start == session::start_position(),
        decreases n - i,
    {
        let t = list[i].as_str();
        assert(ms[i as int] == t@);
        let m: i16 = moves::algebraic_to_move_id(t);
        if g.winner() >= 0 {
            proof {
                lemma_refused(start, ms, i + 1, n as int);
            }
            return Err(past_terminal(t));
        }
        if !session::takes_move(&g, m) {
            proof {
                lemma_refused(start, ms, i + 1, n as int);
            }
            return Err(session::cannot_play(t));
        }
        g.make_move(m);
        i += 1;
    }
    Ok((g, n))
}

/// What one helper of a page's pool does differently.
#[derive(Clone, Copy, Debug, PartialEq, Eq, Structural)]
pub struct SearchProfile {
    pub worker_id: usize,
    pub late_wall_skip_pct: u8,
    pub lmr_bias: i32,
}

/// A warm engine: its searcher, its label, and what the last search came to.
pub struct WasmEngine {
    pub search: TitaniumSearch,
    pub engine_label: &'static str,
    pub profile: SearchProfile,
    pub last_depth: i32,
    pub last_nodes: u64,
}

/// What `go` answered, and the result where there was a search.
pub struct GoAnswer {
    pub text: String,
    pub result: Option<ThinkResult>,
}

impl WasmEngine {
    pub open spec fn wf(&self) -> bool {
        &&& self.search.ready(0)
        &&& self.search.lazy.moves is None
    }

    /// A warm engine at the start position; the tier chooses the weights.
    pub fn new(tier: u8) -> (e: WasmEngine)
        ensures
            e.wf(),
            e.search.g@ == session::start_position(),
            e.search.cfg == (SearchConfig {
                weights: if tier == 0 {
                    NetWeights::Frozen
                } else if tier == 1 {
                    NetWeights::Medium
                } else {
                    NetWeights::Live
                },
                ..setup::grafted_config()
            }),
            e.search.table.tt_adaptive,
            e.engine_label@ == if tier == 0 {
                "titanium-v15-frozen"@
            } else if tier == 1 {
                "titanium-v15-medium"@
            } else {
                "titanium-v15"@
            },
            e.last_depth == 0,
            e.last_nodes == 0,
    {
        let g = GameState::new();
        proof {
            session::lemma_start(g);
        }
        let search = if tier == 0 {
            TitaniumSearch::grafted_frozen(g, None)
        } else if tier == 1 {
            TitaniumSearch::grafted_medium(g, None)
        } else {
            TitaniumSearch::grafted(g, None)
        };
        WasmEngine {
            search,
            engine_label: tier_label(tier),
            profile: SearchProfile { worker_id: 0, late_wall_skip_pct: 0, lmr_bias: 0 },
            last_depth: 0,
            last_nodes: 0,
        }
    }

    /// Back to the start position, with table, killers and history cleared.
    pub fn reset(&mut self)
        requires
            old(self).wf(),
        ensures
            final(self).wf(),
            final(self).search.g@ == session::start_position(),
            forall|lo: u32, hi: u32|
                (#[trigger] final(self).search.table.base.lookup(lo, hi)) is None,
            final(self).search.table.base.filled == 0,
            history::is_blank(final(self).search.hist),
            *final(self) == (WasmEngine { search: final(self).search, ..*old(self) }),
            final(self).search.table == (TitaniumTt {
                base: final(self).search.table.base,
                ..old(self).search.table
            }),
            final(self).search.table.base.bits == old(self).search.table.base.bits,
            final(self).search == (TitaniumSearch {
                g: final(self).search.g,
                dist: final(self).search.dist,
                table: final(self).search.table,
                hist: final(self).search.hist,
                ..old(self).search
            }),
    {
        let g = GameState::new();
        proof {
            session::lemma_start(g);
        }
        self.search.set_position(g);
        self.search.forget();
    }

    /// Goes to the position after a text of moves. A refused text changes nothing.
    pub fn position(&mut self, moves_text: &str) -> (r: Result<usize, String>)
        requires
            old(self).wf(),
        ensures
            final(self).wf(),
            ({
                let ms = session::words(moves_text@);
                let (q, why) = replayed(session::start_position(), ms, ms.len() as int);
                match r {
                    Ok(n) => why is None && n == ms.len() && final(self).search.g@ == q,
                    Err(e) => why == Some(e@) && *final(self) == *old(self),
                }
            }),
            *final(self) == (WasmEngine { search: final(self).search, ..*old(self) }),
            final(self).search == (TitaniumSearch {
                g: final(self).search.g,
                dist: final(self).search.dist,
                ..old(self).search
            }),
    {
        match replay_moves(moves_text) {
            Ok((g, n)) => {
                self.search.set_position(g);
                Ok(n)
            },
            Err(e) => Err(e),
        }
    }

    /// Plays one move; `false` where the game is over or the move is not legal. A game as
    /// long as the history can hold takes no more moves.
    pub fn make_move(&mut self, mv: &str) -> (done: bool)
        requires
            old(self).wf(),
        ensures
            final(self).wf(),
            done == (game::winner_of(old(self).search.g@) < 0 && think::legal_moves(
                old(self).search.g@,
            ).contains(moves::parsed_move(mv@) as i16) && session::has_room(old(self).search.g@)),
            !done ==> *final(self) == *old(self),
            done ==> final(self).search.g@ == game::played(
                old(self).search.g@,
                moves::parsed_move(mv@),
            ),
            *final(self) == (WasmEngine { search: final(self).search, ..*old(self) }),
            final(self).search == (TitaniumSearch {
                g: final(self).search.g,
                dist: final(self).search.dist,
                ..old(self).search
            }),
    {
        if self.search.g.winner() >= 0 {
            return false;
        }
        let m: i16 = moves::algebraic_to_move_id(mv);
        let none: Vec<bool> = Vec::new();
        assert(none@ =~= Seq::empty());
        let legal = movegen::gen_moves_inner(
            &self.search.g,
            0,
            movegen::WallPolicy::Lazy,
            &none,
            0,
        );
        if !think::contains_move(&legal, m) || !session::has_room_for_move(&self.search.g) {
            return false;
        }
        proof {
            let k = choose|k: int| 0 <= k < legal@.len() && legal@[k] == m;
            assert(movegen::playable(self.search.g@, legal@[k] as int));
        }
        self.search.apply_move(m);
        true
    }

    /// Searches as the main worker. Only the clock limits the search: `max_nodes` is ignored.
    pub fn go<H: SearchHost>(&mut self, movetime_ms: u32, max_nodes: u32, host: &mut H) -> (a:
        GoAnswer)
        requires
            old(self).wf(),
        ensures
            final(self).wf(),
            go_answers::<H>(*old(self), *final(self), num::larger(movetime_ms as int, 1), a),
            final(self).profile == (SearchProfile {
                worker_id: 0,
                late_wall_skip_pct: 0,
                lmr_bias: 0,
            }),
    {
        self.go_with_profile(movetime_ms, max_nodes, 0, 0, 0, host)
    }

    /// Searches with a helper's profile.
    pub fn go_with_profile<H: SearchHost>(
        &mut self,
        movetime_ms: u32,
        _max_nodes: u32,
        worker_id: u32,
        late_wall_skip_pct: u32,
        lmr_bias: i32,
        host: &mut H,
    ) -> (a: GoAnswer)
        requires
            old(self).wf(),
        ensures
            final(self).wf(),
            go_answers::<H>(*old(self), *final(self), num::larger(movetime_ms as int, 1), a),
            final(self).profile == (SearchProfile {
                worker_id: worker_id as usize,
                late_wall_skip_pct: num::smaller(late_wall_skip_pct as int, 100) as u8,
                lmr_bias,
            }),
    {
        self.profile = SearchProfile {
            worker_id: worker_id as usize,
            late_wall_skip_pct: late_wall_skip(late_wall_skip_pct),
            lmr_bias,
        };
        if self.search.g.winner() >= 0 {
            self.last_depth = 0;
            self.last_nodes = 0;
            return GoAnswer { text: session::line_of("(none)"), result: None };
        }
        let time_ms: u64 = (movetime_ms as u64).max(1);
        let result = self.search.think(time_ms, 30, false, host);
        self.last_depth = result.depth;
        self.last_nodes = result.nodes;
        GoAnswer { text: answer_text(result.mv), result: Some(result) }
    }

    /// Depth reached by the last search.
    pub fn last_search_depth(&self) -> (d: i32)
        ensures
            d == self.last_depth,
    {
        self.last_depth
    }

    /// Nodes of the last search.
    pub fn last_search_nodes(&self) -> (n: u64)
        ensures
            n == self.last_nodes,
    {
        self.last_nodes
    }

    /// Always empty: pages keep their own list.
    pub fn legal_moves(&self) -> (t: String)
        ensures
            t@ == Seq::<char>::empty(),
    {
        let t = String::new();
        assert(t@ =~= Seq::<char>::empty());
        t
    }

    /// The winner, or -1 while the game goes on.
    pub fn winner(&self) -> (w: i32)
        ensures
            w == game::winner_of(self.search.g@),
    {
        self.search.g.winner()
    }
}

/// The answer of a search is its move, and the engine remembers depth and nodes. A finished
/// game has none.
pub open spec fn go_answers<H: SearchHost>(
    before: WasmEngine,
    after: WasmEngine,
    time_ms: int,
    a: GoAnswer,
) -> bool {
    &&& after.search.g@ == before.search.g@
    &&& after.engine_label == before.engine_label
    &&& match a.result {
        None => {
            &&& game::winner_of(before.search.g@) >= 0
            &&& a.text@ == "(none)"@
            &&& after.last_depth == 0
            &&& after.last_nodes == 0
            &&& after.search == before.search
        },
        Some(r) => {
            &&& game::winner_of(before.search.g@) < 0
            &&& a.text@ == if r.mv == -1 {
                "(none)"@
            } else {
                moves::algebraic(r.mv as int)
            }
            &&& after.last_depth == r.depth
            &&& after.last_nodes == r.nodes
            &&& r.stop_reason@ != "opening-book"@ ==> think::answers_unadvised::<H>(
                before.search,
                after.search,
                time_ms as u64,
                30,
                false,
                r,
            )
        },
    }
}

/// One search from a text of moves, on an engine built for it. `None` where the text is
/// refused or the game is over; no text where the search found no move.
pub fn titanium_genmove<H: SearchHost>(
    moves_text: &str,
    params: modes::TitaniumParams,
    engine_label: &str,
    host: &mut H,
) -> (r: Option<(Option<String>, ThinkResult)>)
    requires
        params.time_ms <= i64::MAX,
    ensures
        ({
            let ms = session::words(moves_text@);
            let (q, why) = replayed(session::start_position(), ms, ms.len() as int);
            match r {
                None => why is Some || game::winner_of(q) >= 0,
                Some((text, t)) => {
                    &&& why is None
                    &&& game::winner_of(q) < 0
                    &&& match text {
                        Some(x) => t.mv != -1 && x@ == moves::algebraic(t.mv as int),
                        None => t.mv == -1,
                    }
                    &&& t.stop_reason@ != "opening-book"@ ==> if think::legal_moves(q).len() > 0 {
                        think::legal_moves(q).contains(t.mv) && t.mv != -1
                    } else {
                        t.mv == -1
                    }
                    &&& t.stop_reason@ != "opening-book"@ ==> exists|
                        s: TitaniumSearch,
                        a: TitaniumSearch,
                    |
                        s.g@ == q && #[trigger] think::answers_unadvised::<H>(
                            s,
                            a,
                            params.time_ms,
                            params.max_depth as int,
                            params.full,
                            t,
                        )
                },
            }
        }),
{
    let (g, _): (GameState, usize) = match replay_moves(moves_text) {
        Ok(found) => found,
        Err(_) => {
            return None;
        },
    };
    if g.winner() >= 0 {
        return None;
    }
    let mut search = modes::build_titanium_search(g, params, engine_label);
    let ghost q = search.g@;
    let ghost built = search;
    let result = search.think(params.time_ms, params.max_depth, params.full, host);
    proof {
        assert(result.stop_reason@ != "opening-book"@ ==> think::answers_unadvised::<H>(
            built,
            search,
            params.time_ms,
            params.max_depth as int,
            params.full,
            result,
        ));
        let legal = think::legal_moves(q);
        movegen::lemma_generated_moves(q, true, movegen::WallPolicy::Lazy, Seq::empty(), 0);
        if legal.contains(result.mv) {
            let i = choose|i: int| 0 <= i < legal.len() && legal[i] == result.mv;
            assert(movegen::playable(q, legal[i] as int));
        }
    }
    let text: Option<String> = if result.mv == moves::TITANIUM_NO_MOVE {
        None
    } else {
        Some(moves::move_id_to_algebraic(result.mv))
    };
    Some((text, result))
}

/// The text names a legal move, or says that there is none.
pub open spec fn names_legal_move(p: game::Position, t: Seq<char>) -> bool {
    if think::legal_moves(p).len() > 0 {
        exists|m: i16| #[trigger]
            think::legal_moves(p).contains(m) && t == moves::algebraic(m as int)
    } else {
        t == "(none)"@
    }
}

/// What a one-shot engine says to a request.
pub enum AceAnswer {
    /// The move, or `(none)`; whether the book gave it; and the result with the move.
    Move(String, bool, Option<ThinkResult>),
    /// The mode belongs to the older engine: search it with these parameters.
    Older(modes::TitaniumParams),
}

/// A one-shot engine.
pub struct WasmAceEngine;

impl WasmAceEngine {
    pub fn new() -> (e: WasmAceEngine)
        ensures
            e == WasmAceEngine,
    {
        WasmAceEngine
    }

    /// Best move after a text of moves.
    pub fn genmove<H: SearchHost>(
        &self,
        moves_text: &str,
        movetime_ms: u32,
        max_depth: i32,
        engine_mode: &str,
        host: &mut H,
    ) -> (a: AceAnswer)
        ensures
            ({
                let ms = session::words(moves_text@);
                let (q, why) = replayed(session::start_position(), ms, ms.len() as int);
                match a {
                    AceAnswer::Older(p) => !text::has_prefix(engine_mode@, "ace-v13"@) && p
                        == modes::mode_params(
                        engine_mode@,
                        movetime_ms as int,
                        max_depth as int,
                        text::contains_text(engine_mode@, "-ti"@),
                    ),
                    AceAnswer::Move(t, book, found) => {
                        &&& match found {
                            Some(x) => {
                                &&& why is None
                                &&& game::winner_of(q) < 0
                                &&& x.mv != -1
                                &&& t@ == moves::algebraic(x.mv as int)
                                &&& book == (x.stop_reason@ == "opening-book"@)
                            },
                            None => t@ == "(none)"@,
                        }
                        &&& text::has_prefix(engine_mode@, "ace-v13"@)
                        &&& why is Some || game::winner_of(q) >= 0 ==> t@ == "(none)"@ && !book
                        &&& why is None && game::winner_of(q) < 0 && !book ==> names_legal_move(
                            q,
                            t@,
                        )
                    },
                }
            }),
    {
        if !modes::is_titanium_v15_mode(engine_mode) {
            return AceAnswer::Older(
                modes::ace_params_from_mode(engine_mode, movetime_ms, max_depth),
            );
        }
        let params = modes::titanium_v15_params_from_mode(engine_mode, movetime_ms, max_depth);
        match titanium_genmove(moves_text, params, engine_mode, host) {
            Some((t, r)) => {
                let book: bool = text::str_eq(r.stop_reason, "opening-book");
                match t {
                    Some(x) => {
                        proof {
                            if !book {
                                let ms = session::words(moves_text@);
                                let q = replayed(
                                    session::start_position(),
                                    ms,
                                    ms.len() as int,
                                ).0;
                                assert(think::legal_moves(q).contains(r.mv));
                                assert(names_legal_move(q, x@));
                            }
                        }
                        AceAnswer::Move(x, book, Some(r))
                    },
                    None => AceAnswer::Move(session::line_of("(none)"), book, None),
                }
            },
            None => AceAnswer::Move(session::line_of("(none)"), false, None),
        }
    }
}

} // verus!

//! Line protocol of a plain session: `reset`, `position MOVES`, `makemove MOVE`,
//! `go SECONDS`, `quit`. One searcher lives as long as the session, so what it has learned
//! stays between moves.

use crate::config::{NetWeights, SearchConfig};
use crate::eval;
use crate::game;
use crate::game::GameState;
use crate::moves;
use crate::score::MAX_PLY;
use crate::search::TitaniumSearch;
use crate::setup;
use crate::text;
use vstd::prelude::*;

verus! {

/// White space between words.
pub open spec fn is_space(c: char) -> bool {
    c == ' ' || c == '\t' || c == '\n' || c == '\r' || c == '\u{b}' || c == '\u{c}' || c == '\u{85}'
        || c == '\u{a0}' || c == '\u{1680}' || ('\u{2000}' <= c && c <= '\u{200a}') || c
        == '\u{2028}' || c == '\u{2029}' || c == '\u{202f}' || c == '\u{205f}' || c == '\u{3000}'
}

pub(crate) fn char_is_space(c: char) -> (yes: bool)
    ensures
        yes == is_space(c),
{
    c == ' ' || c == '\t' || c == '\n' || c == '\r' || c == '\u{b}' || c == '\u{c}' || c == '\u{85}'
        || c == '\u{a0}' || c == '\u{1680}' || (c >= '\u{2000}' && c <= '\u{200a}') || c
        == '\u{2028}' || c == '\u{2029}' || c == '\u{202f}' || c == '\u{205f}' || c == '\u{3000}'
}

/// Words among the first `n` characters: the finished ones and the one being read.
pub open spec fn reading(t: Seq<char>, n: int) -> (Seq<Seq<char>>, Seq<char>)
    decreases n,
{
    if n <= 0 {
        (Seq::empty(), Seq::empty())
    } else {
        let (done, cur) = reading(t, n - 1);
        if !is_space(t[n - 1]) {
            (done, cur.push(t[n - 1]))
        } else if cur.len() > 0 {
            (done.push(cur), Seq::empty())
        } else {
            (done, cur)
        }
    }
}

/// The words of a text.
pub open spec fn words(t: Seq<char>) -> Seq<Seq<char>> {
    let (done, cur) = reading(t, t.len() as int);
    if cur.len() > 0 {
        done.push(cur)
    } else {
        done
    }
}

/// Character sequences of a list of strings.
pub open spec fn views(v: Seq<String>) -> Seq<Seq<char>> {
    Seq::new(v.len(), |i: int| v[i]@)
}

/// Splits a text into its words.
pub fn split_words(t: &str) -> (out: Vec<String>)
    ensures
        views(out@) == words(t@),
{
    let n: usize = t.unicode_len();
    let mut out: Vec<String> = Vec::new();
    let mut start: usize = 0;
    let mut i: usize = 0;
    assert(views(out@) =~= Seq::empty());
    assert(t@.subrange(0, 0) =~= Seq::empty());
    while i < n
        invariant
            start <= i <= n,
            n == t@.len(),
            views(out@) == reading(t@, i as int).0,
            t@.subrange(start as int, i as int) == reading(t@, i as int).1,
        decreases n - i,
    {
        let c: char = t.get_char(i);
        let ghost before = t@.subrange(start as int, i as int);
        let ghost list = views(out@);
        if char_is_space(c) {
            if start < i {
                let word = t.substring_char(start, i).to_owned();
                out.push(word);
                assert(views(out@) =~= list.push(before));
            } else {
                assert(before.len() == 0);
            }
            start = i + 1;
            assert(t@.subrange(start as int, i + 1) =~= Seq::empty());
            assert(before.len() == 0 ==> before =~= Seq::empty());
        } else {
            assert(t@.subrange(start as int, i + 1) =~= before.push(c));
        }
        i += 1;
    }
    if start < n {
        let ghost list = views(out@);
        let word = t.substring_char(start, n).to_owned();
        out.push(word);
        assert(views(out@) =~= list.push(t@.subrange(start as int, n as int)));
    }
    out
}

/// No white space in it.
pub open spec fn no_space(w: Seq<char>) -> bool {
    forall|k: int| 0 <= k < w.len() ==> !is_space(#[trigger] w[k])
}

/// Words hold no white space and are not empty.
pub proof fn law_words_are_words(t: Seq<char>, i: int)
    requires
        0 <= i < words(t).len(),
    ensures
        words(t)[i].len() > 0,
        no_space(words(t)[i]),
{
    lemma_reading(t, t.len() as int);
    let (done, cur) = reading(t, t.len() as int);
    if i < done.len() {
        assert(words(t)[i] == done[i]);
    }
}

proof fn lemma_reading(t: Seq<char>, n: int)
    requires
        0 <= n <= t.len(),
    ensures
        forall|i: int|
            0 <= i < reading(t, n).0.len() ==> (#[trigger] reading(t, n).0[i]).len() > 0
                && no_space(reading(t, n).0[i]),
        no_space(reading(t, n).1),
    decreases n,
{
    if n > 0 {
        lemma_reading(t, n - 1);
        let (done, cur) = reading(t, n - 1);
        let (done1, cur1) = reading(t, n);
        assert forall|i: int| 0 <= i < done1.len() implies (#[trigger] done1[i]).len() > 0
            && no_space(done1[i]) by {
            if i < done.len() {
                assert(done1[i] == done[i]);
            }
        }
    }
}

/// A searcher can still play on from here.
pub open spec fn has_room(p: game::Position) -> bool {
    p.hist.len() + 1 + MAX_PLY + 4 <= game::MAX_HISTORY
}

/// A session takes this move: one it can make, with a wall in hand for a wall.
pub open spec fn takes(p: game::Position, m: int) -> bool {
    game::accepts(p, m) && has_room(p) && (moves::wall_id(m) ==> game::hand_of(p, p.turn) > 0)
}

/// Why a session refuses a move.
pub open spec fn refusal(p: game::Position, t: Seq<char>) -> Option<Seq<char>> {
    if game::winner_of(p) >= 0 {
        Some("move "@ + t + " past terminal position"@)
    } else if !takes(p, moves::parsed_move(t)) {
        Some("move "@ + t + " cannot be played"@)
    } else {
        None
    }
}

/// The position after the first `n` moves, and the first refusal if there is one.
pub open spec fn after_moves(p: game::Position, ms: Seq<Seq<char>>, n: int) -> (
    game::Position,
    Option<Seq<char>>,
)
    decreases n,
{
    if n <= 0 {
        (p, None)
    } else {
        let (q, r) = after_moves(p, ms, n - 1);
        match r {
            Some(_) => (q, r),
            None => match refusal(q, ms[n - 1]) {
                Some(why) => (q, Some(why)),
                None => (game::played(q, moves::parsed_move(ms[n - 1])), None),
            },
        }
    }
}

fn past_terminal(t: &str) -> (msg: String)
    ensures
        msg@ == "move "@ + t@ + " past terminal position"@,
{
    let mut msg: String = String::new();
    msg.append("move ");
    assert(msg@ =~= "move "@);
    msg.append(t);
    msg.append(" past terminal position");
    msg
}

pub(crate) fn cannot_play(t: &str) -> (msg: String)
    ensures
        msg@ == "move "@ + t@ + " cannot be played"@,
{
    let mut msg: String = String::new();
    msg.append("move ");
    assert(msg@ =~= "move "@);
    msg.append(t);
    msg.append(" cannot be played");
    msg
}

/// Can the game take one more move and still be searched?
pub(crate) fn has_room_for_move(g: &GameState) -> (yes: bool)
    requires
        g.wf(),
    ensures
        yes == has_room(g@),
{
    g.hist_len() + 1 + MAX_PLY + 4 <= game::MAX_HISTORY
}

/// Does a session take this move?
pub fn takes_move(g: &GameState, m: i16) -> (yes: bool)
    requires
        g.wf(),
    ensures
        yes == takes(g@, m as int),
{
    g.accepts_move(m) && has_room_for_move(g) && (
    !moves::is_wall_move(m) || g.wl[g.turn] > 0)
}

/// Plays the moves from `from` on. Stops at the first one refused.
pub(crate) fn play_words(g: &mut GameState, ms: &Vec<String>, from: usize,
    p: Ghost<game::Position>) -> (r: Result<
    (),
    String,
>)
    requires
        old(g).wf(),
        eval::hands_ok(old(g)@),
        from <= ms@.len(),
        after_moves(p@, views(ms@), from as int) == (old(g)@, None::<Seq<char>>),
    ensures
        final(g).wf(),
        eval::hands_ok(final(g)@),
        final(g)@ == after_moves(p@, views(ms@), ms@.len() as int).0,
        match r {
            Ok(_) => after_moves(p@, views(ms@), ms@.len() as int).1 is None,
            Err(e) => after_moves(p@, views(ms@), ms@.len() as int).1 == Some(e@),
        },
        old(g)@.hist.len() + MAX_PLY + 4 <= game::MAX_HISTORY ==> final(g)@.hist.len() + MAX_PLY + 4
            <= game::MAX_HISTORY,
{
    let n: usize = ms.len();
    let mut i: usize = from;
    while i < n
        invariant
            from <= i <= n,
            n == ms@.len(),
            g.wf(),
            eval::hands_ok(g@),
            after_moves(p@, views(ms@), i as int) == (g@, None::<Seq<char>>),
            old(g)@.hist.len() + MAX_PLY + 4 <= game::MAX_HISTORY ==> g@.hist.len() + MAX_PLY + 4
                <= game::MAX_HISTORY,
        decreases n - i,
    {
        let t = ms[i].as_str();
        assert(views(ms@)[i as int] == t@);
        if g.winner() >= 0 {
            proof {
                lemma_refusal_stays(p@, views(ms@), i + 1, n as int);
            }
            return Err(past_terminal(t));
        }
        let m: i16 = moves::algebraic_to_move_id(t);
        if !takes_move(g, m) {
            proof {
                lemma_refusal_stays(p@, views(ms@), i + 1, n as int);
            }
            return Err(cannot_play(t));
        }
        g.make_move(m);
        i += 1;
    }
    Ok(())
}

/// After a refusal nothing more is played.
proof fn lemma_refusal_stays(p: game::Position, ms: Seq<Seq<char>>, i: int, n: int)
    requires
        0 <= i <= n,
        after_moves(p, ms, i).1 is Some,
    ensures
        after_moves(p, ms, n) == after_moves(p, ms, i),
    decreases n,
{
    if i < n {
        lemma_refusal_stays(p, ms, i, n - 1);
    }
}

/// A game from the start position.
pub fn replay(ms: &Vec<String>) -> (r: Result<GameState, String>)
    ensures
        ({
            let start = start_position();
            let (q, why) = after_moves(start, views(ms@), ms@.len() as int);
            match r {
                Ok(g) => g@ == q && why is None && setup::searchable(g),
                Err(e) => why == Some(e@),
            }
        }),
{
    let mut g = GameState::new();
    proof {
        lemma_start(g);
    }
    let ghost start = g@;
    match play_words(&mut g, ms, 0, Ghost(start)) {
        Ok(_) => Ok(g),
        Err(e) => Err(e),
    }
}

/// The start position.
pub open spec fn start_position() -> game::Position {
    game::rekeyed(
        game::Position {
            w: crate::board::Topo {
                hw: Seq::new(64, |i: int| 0u8),
                vw: Seq::new(64, |i: int| 0u8),
            },
            p0: 76,
            p1: 4,
            wl0: 10,
            wl1: 10,
            turn: 0,
            hash_lo: 0,
            hash_hi: 0,
            stamp: 0,
            last_wall_ply: 0,
            hist: Seq::empty(),
        },
    )
}

/// A new game is the start position.
pub proof fn lemma_start(g: GameState)
    requires
        g.wf(),
        g@.p0 == 76,
        g@.p1 == 4,
        g@.wl0 == 10,
        g@.wl1 == 10,
        g@.turn == 0,
        g@.hist.len() == 0,
        g@.stamp == 0,
        g@.last_wall_ply == 0,
        forall|i: int| 0 <= i < 64 ==> g.hw[i] == 0 && g.vw[i] == 0,
    ensures
        g@ == start_position(),
{
    assert(g@.w.hw =~= Seq::new(64, |i: int| 0u8));
    assert(g@.w.vw =~= Seq::new(64, |i: int| 0u8));
    assert(g@.hist =~= Seq::empty());
    assert(g@ =~= start_position());
}

/// Labels of the grafted engine with heat-shaped reductions.
pub open spec fn is_v16_label(l: Seq<char>) -> bool {
    l == "titanium-v16"@
        || l == "titanium-v16-sfhist"@
        || l == "titanium-v17"@
        || l == "titanium-v17-cat-path-lmr"@
        || l == "titanium-v17-route-touch"@
        || l == "titanium-v17-qsearch"@
        || l == "titanium-v17-route-touch-qsearch"@
        || l == "titanium-v17-lazy-topn"@
        || l == "titanium-v17-rfp-ace"@
        || l == "titanium-v17-lmp-ace"@
        || l == "titanium-v17-no-partial-iter"@
        || l == "titanium-v17-no-predict-stop"@
        || l == "titanium-v17-no-partial-no-predict"@
}

/// Labels that share the full set of switches.
pub open spec fn is_v17_core(l: Seq<char>) -> bool {
    l == "titanium-v17"@
        || l == "titanium-v17-lmp-ace"@
        || l == "titanium-v17-no-partial-iter"@
        || l == "titanium-v17-no-predict-stop"@
        || l == "titanium-v17-no-partial-no-predict"@
}

/// Does the label name the grafted engine with heat-shaped reductions?
pub fn is_v16_graft(flag: &str) -> (yes: bool)
    ensures
        yes == is_v16_label(flag@),
{
    text::str_eq(flag, "titanium-v16")
        || text::str_eq(flag, "titanium-v16-sfhist")
        || text::str_eq(flag, "titanium-v17")
        || text::str_eq(flag, "titanium-v17-cat-path-lmr")
        || text::str_eq(flag, "titanium-v17-route-touch")
        || text::str_eq(flag, "titanium-v17-qsearch")
        || text::str_eq(flag, "titanium-v17-route-touch-qsearch")
        || text::str_eq(flag, "titanium-v17-lazy-topn")
        || text::str_eq(flag, "titanium-v17-rfp-ace")
        || text::str_eq(flag, "titanium-v17-lmp-ace")
        || text::str_eq(flag, "titanium-v17-no-partial-iter")
        || text::str_eq(flag, "titanium-v17-no-predict-stop")
        || text::str_eq(flag, "titanium-v17-no-partial-no-predict")
}

/// Switches a session label turns on.
#[derive(Clone, Copy, Debug, PartialEq, Eq, Structural)]
pub struct SessionFlags {
    pub sf_history: bool,
    pub route_touch: bool,
    pub q_search: bool,
    pub cat_path_lmr: bool,
    pub lazy_topn: bool,
    pub ace_lmp: bool,
    pub ace_rfp: bool,
    pub no_partial_iter: bool,
    pub no_predict_stop: bool,
    pub eme: bool,
}

/// Switches a session label turns on.
#[verifier::opaque]
pub open spec fn flags_of(l: Seq<char>) -> SessionFlags {
    SessionFlags {
        sf_history: is_v17_core(l) || l == "titanium-v16-sfhist"@
        || l == "titanium-v17-cat-path-lmr"@
        || l == "titanium-v17-route-touch"@
        || l == "titanium-v17-qsearch"@
        || l == "titanium-v17-route-touch-qsearch"@
        || l == "titanium-v17-lazy-topn"@
        || l == "titanium-v17-rfp-ace"@,
        route_touch: text::contains_text(l, "route-touch"@),
        q_search: is_v17_core(l) || text::contains_text(l, "qsearch"@) || l == "titanium-v17-cat-path-lmr"@
        || l == "titanium-v17-lazy-topn"@
        || l == "titanium-v17-rfp-ace"@,
        cat_path_lmr: is_v17_core(l) || l == "titanium-v17-cat-path-lmr"@
        || l == "titanium-v17-lazy-topn"@
        || l == "titanium-v17-rfp-ace"@,
        lazy_topn: l == "titanium-v17"@
        || l == "titanium-v17-lazy-topn"@
        || l == "titanium-v17-rfp-ace"@
        || l == "titanium-v17-lmp-ace"@,
        ace_lmp: l == "titanium-v17"@ || l == "titanium-v17-lmp-ace"@,
        ace_rfp: l == "titanium-v17-rfp-ace"@,
        no_partial_iter: l == "titanium-v17-no-partial-iter"@ || l
            == "titanium-v17-no-partial-no-predict"@,
        no_predict_stop: l == "titanium-v17-no-predict-stop"@ || l
            == "titanium-v17-no-partial-no-predict"@,
        eme: text::contains_text(l, "pmc"@),
    }
}

/// Switches a session label turns on.
pub fn session_flags(flag: &str) -> (f: SessionFlags)
    ensures
        f == flags_of(flag@),
{
    proof {
        reveal(flags_of);
    }
    let core: bool = text::str_eq(flag, "titanium-v17")
        || text::str_eq(flag, "titanium-v17-lmp-ace")
        || text::str_eq(flag, "titanium-v17-no-partial-iter")
        || text::str_eq(flag, "titanium-v17-no-predict-stop")
        || text::str_eq(flag, "titanium-v17-no-partial-no-predict");
    SessionFlags {
        sf_history: core || text::str_eq(flag, "titanium-v16-sfhist")
        || text::str_eq(flag, "titanium-v17-cat-path-lmr")
        || text::str_eq(flag, "titanium-v17-route-touch")
        || text::str_eq(flag, "titanium-v17-qsearch")
        || text::str_eq(flag, "titanium-v17-route-touch-qsearch")
        || text::str_eq(flag, "titanium-v17-lazy-topn")
        || text::str_eq(flag, "titanium-v17-rfp-ace"),
        route_touch: text::contains(flag, "route-touch"),
        q_search: core || text::contains(flag, "qsearch") || text::str_eq(flag, "titanium-v17-cat-path-lmr")
        || text::str_eq(flag, "titanium-v17-lazy-topn")
        || text::str_eq(flag, "titanium-v17-rfp-ace"),
        cat_path_lmr: core || text::str_eq(flag, "titanium-v17-cat-path-lmr")
        || text::str_eq(flag, "titanium-v17-lazy-topn")
        || text::str_eq(flag, "titanium-v17-rfp-ace"),
        lazy_topn: text::str_eq(flag, "titanium-v17")
        || text::str_eq(flag, "titanium-v17-lazy-topn")
        || text::str_eq(flag, "titanium-v17-rfp-ace")
        || text::str_eq(flag, "titanium-v17-lmp-ace"),
        ace_lmp: text::str_eq(flag, "titanium-v17") || text::str_eq(flag, "titanium-v17-lmp-ace"),
        ace_rfp: text::str_eq(flag, "titanium-v17-rfp-ace"),
        no_partial_iter: text::str_eq(flag, "titanium-v17-no-partial-iter") || text::str_eq(
            flag,
            "titanium-v17-no-partial-no-predict",
        ),
        no_predict_stop: text::str_eq(flag, "titanium-v17-no-predict-stop") || text::str_eq(
            flag,
            "titanium-v17-no-partial-no-predict",
        ),
        eme: text::contains(flag, "pmc"),
    }
}

/// A configuration with a label's switches on top.
#[verifier::opaque]
pub open spec fn configured(c: SearchConfig, f: SessionFlags) -> SearchConfig {
    SearchConfig {
        route_touch_ordering: c.route_touch_ordering || f.route_touch,
        q_search: c.q_search || f.q_search,
        q_max: if f.q_search {
            4
        } else {
            c.q_max
        },
        q_swing_cp: if f.q_search {
            60
        } else {
            c.q_swing_cp
        },
        cat_path_lmr: c.cat_path_lmr || f.cat_path_lmr,
        lazy_topn: c.lazy_topn || f.lazy_topn,
        ace_lmp: c.ace_lmp || f.ace_lmp,
        ace_rfp: c.ace_rfp || f.ace_rfp,
        use_partial_iter: c.use_partial_iter && !f.no_partial_iter,
        use_predict_stop: c.use_predict_stop && !f.no_predict_stop,
        eme: c.eme || f.eme,
        ..c
    }
}

fn configure(c: SearchConfig, f: &SessionFlags) -> (d: SearchConfig)
    ensures
        d == configured(c, *f),
        0 <= c.q_max <= 1000 ==> 0 <= d.q_max <= 1000,
        d.ace_rfp_max_depth == c.ace_rfp_max_depth,
{
    proof {
        reveal(configured);
    }
    SearchConfig {
        route_touch_ordering: c.route_touch_ordering || f.route_touch,
        q_search: c.q_search || f.q_search,
        q_max: if f.q_search {
            4
        } else {
            c.q_max
        },
        q_swing_cp: if f.q_search {
            60
        } else {
            c.q_swing_cp
        },
        cat_path_lmr: c.cat_path_lmr || f.cat_path_lmr,
        lazy_topn: c.lazy_topn || f.lazy_topn,
        ace_lmp: c.ace_lmp || f.ace_lmp,
        ace_rfp: c.ace_rfp || f.ace_rfp,
        use_partial_iter: c.use_partial_iter && !f.no_partial_iter,
        use_predict_stop: c.use_predict_stop && !f.no_predict_stop,
        eme: c.eme || f.eme,
        ..c
    }
}

/// Turns on what the label asks for.
pub fn configure_session_experiments(search: &mut TitaniumSearch, engine_flag: &str)
    requires
        old(search).ready(0),
    ensures
        final(search).ready(0),
        final(search).lazy == old(search).lazy,
        final(search).g == old(search).g,
        final(search).table == old(search).table,
        final(search).prover == old(search).prover,
        final(search).cfg == configured(old(search).cfg, flags_of(engine_flag@)),
        final(search).hist.sf_history == (old(search).hist.sf_history || flags_of(
            engine_flag@,
        ).sf_history),
{
    let f = session_flags(engine_flag);
    if f.sf_history {
        use_side_split_history(search);
    }
    let cfg = configure(search.cfg, &f);
    install_config(search, cfg);
}

fn use_side_split_history(search: &mut TitaniumSearch)
    requires
        old(search).ready(0),
    ensures
        final(search).ready(0),
        *final(search) == (TitaniumSearch { hist: final(search).hist, ..*old(search) }),
        final(search).hist.sf_history,
{
    search.set_sf_history(true);
}

fn install_config(search: &mut TitaniumSearch, cfg: SearchConfig)
    requires
        old(search).ready(0),
        0 <= cfg.q_max <= 1000,
        -1_000_000 <= cfg.ace_rfp_max_depth <= 1_000_000,
    ensures
        final(search).ready(0),
        *final(search) == (TitaniumSearch { cfg, ..*old(search) }),
{
    search.cfg = cfg;
}

/// The engine behind a label.
#[derive(Clone, Copy, Debug, PartialEq, Eq, Structural)]
pub enum EngineKind {
    /// The plain search.
    Plain,
    /// Legal generation, pure mode.
    TiPure,
    /// The grafted engine on medium weights.
    Medium,
    /// The grafted engine on frozen weights.
    Frozen,
    /// The grafted engine with heat-shaped reductions.
    HeatReductions,
    /// The grafted engine without race proofs.
    NoRaceproof,
    /// The grafted engine.
    Grafted,
    /// Legal generation.
    TiMovegen,
}

/// The engine behind a label.
#[verifier::opaque]
pub open spec fn kind_of(l: Seq<char>) -> EngineKind {
    if l == "ace-v13-pure"@ {
        EngineKind::Plain
    } else if l == "ace-v13-ti-pure"@ {
        EngineKind::TiPure
    } else if l == "titanium-v15-medium"@ {
        EngineKind::Medium
    } else if l == "titanium-v15-frozen"@ {
        EngineKind::Frozen
    } else if is_v16_label(l) {
        EngineKind::HeatReductions
    } else if l == "titanium-v15-no-raceproof"@ || l == "ace-v13-grafted-no-raceproof"@ {
        EngineKind::NoRaceproof
    } else if l == "ace-v13-grafted"@ || l == "titanium-v14"@ || l == "titanium-v15"@ {
        EngineKind::Grafted
    } else {
        EngineKind::TiMovegen
    }
}

/// The engine behind a label.
pub fn engine_kind(flag: &str) -> (k: EngineKind)
    ensures
        k == kind_of(flag@),
{
    proof {
        reveal(kind_of);
    }
    if text::str_eq(flag, "ace-v13-pure") {
        EngineKind::Plain
    } else if text::str_eq(flag, "ace-v13-ti-pure") {
        EngineKind::TiPure
    } else if text::str_eq(flag, "titanium-v15-medium") {
        EngineKind::Medium
    } else if text::str_eq(flag, "titanium-v15-frozen") {
        EngineKind::Frozen
    } else if is_v16_graft(flag) {
        EngineKind::HeatReductions
    } else if text::str_eq(flag, "titanium-v15-no-raceproof") || text::str_eq(
        flag,
        "ace-v13-grafted-no-raceproof",
    ) {
        EngineKind::NoRaceproof
    } else if text::str_eq(flag, "ace-v13-grafted") || text::str_eq(flag, "titanium-v14")
        || text::str_eq(flag, "titanium-v15") {
        EngineKind::Grafted
    } else {
        EngineKind::TiMovegen
    }
}

/// Switches of an engine before its label's own.
pub open spec fn base_config(k: EngineKind) -> SearchConfig {
    match k {
        EngineKind::Plain => setup::default_config(),
        EngineKind::TiPure => SearchConfig {
            ti_movegen: true,
            pure_mode: true,
            ..setup::default_config()
        },
        EngineKind::HeatReductions => setup::v17_config(100),
        EngineKind::Medium => SearchConfig {
            weights: NetWeights::Medium,
            ..setup::grafted_config()
        },
        EngineKind::Frozen => SearchConfig {
            weights: NetWeights::Frozen,
            ..setup::grafted_config()
        },
        EngineKind::NoRaceproof | EngineKind::Grafted => setup::grafted_config(),
        EngineKind::TiMovegen => SearchConfig { ti_movegen: true, ..setup::default_config() },
    }
}

/// A searcher by its label.
pub fn build_search(engine_flag: &str, g: GameState) -> (s: TitaniumSearch)
    requires
        setup::searchable(g),
    ensures
        s.ready(0),
        s.lazy_ok(),
        s.g@ == g@,
        s.cfg == configured(base_config(kind_of(engine_flag@)), flags_of(engine_flag@)),
        s.hist.sf_history == flags_of(engine_flag@).sf_history,
        s.prover.race_proof == (kind_of(engine_flag@) != EngineKind::NoRaceproof),
{
    let mut s = match engine_kind(engine_flag) {
        EngineKind::Plain => TitaniumSearch::new(g),
        EngineKind::TiPure => TitaniumSearch::with_ti_movegen_pure(g),
        EngineKind::HeatReductions => TitaniumSearch::grafted_v16(g, None),
        EngineKind::NoRaceproof => TitaniumSearch::grafted_no_raceproof(g, None),
        EngineKind::Medium => TitaniumSearch::grafted_medium(g, None),
        EngineKind::Frozen => TitaniumSearch::grafted_frozen(g, None),
        EngineKind::Grafted => TitaniumSearch::grafted(g, None),
        EngineKind::TiMovegen => TitaniumSearch::with_ti_movegen(g),
    };
    configure_session_experiments(&mut s, engine_flag);
    s
}

/// What the session asks its surroundings to do.
pub enum SessionAction {
    /// Nothing: a blank line.
    Ignore,
    /// Write this line.
    Reply(String),
    /// Search for the time given (or a default) and answer with the best move.
    Think(Option<String>),
    /// End the session.
    Quit,
}

/// A session: its searcher and the moves it was told.
pub struct TitaniumSession {
    pub search: TitaniumSearch,
    pub applied: Vec<String>,
}

/// A list continues another: not empty, no longer, and the same as far as it goes.
pub open spec fn continues(ms: Seq<Seq<char>>, applied: Seq<Seq<char>>) -> bool {
    &&& applied.len() > 0
    &&& ms.len() >= applied.len()
    &&& forall|i: int| 0 <= i < applied.len() ==> ms[i] == #[trigger] applied[i]
}

/// Does the new list continue the old one?
pub fn extends_applied(ms: &Vec<String>, applied: &Vec<String>) -> (yes: bool)
    ensures
        yes == continues(views(ms@), views(applied@)),
{
    let n: usize = applied.len();
    if n == 0 || ms.len() < n {
        return false;
    }
    let mut i: usize = 0;
    while i < n
        invariant
            i <= n,
            n == applied@.len(),
            n <= ms@.len(),
            n > 0,
            forall|k: int| 0 <= k < i ==> views(ms@)[k] == #[trigger] views(applied@)[k],
        decreases n - i,
    {
        assert(views(ms@)[i as int] == ms@[i as int]@);
        assert(views(applied@)[i as int] == applied@[i as int]@);
        if !text::str_eq(ms[i].as_str(), applied[i].as_str()) {
            return false;
        }
        i += 1;
    }
    true
}

pub(crate) fn error_line(msg: &str) -> (line: String)
    ensures
        line@ == "error "@ + msg@,
{
    let mut line: String = String::new();
    line.append("error ");
    assert(line@ =~= "error "@);
    line.append(msg);
    line
}

pub(crate) fn line_of(t: &str) -> (line: String)
    ensures
        line@ == t@,
{
    t.to_owned()
}

pub(crate) fn ready_line(n: usize) -> (line: String)
    ensures
        line@ == "ready "@ + text::dec(n as nat),
{
    let mut line: String = String::new();
    line.append("ready ");
    assert(line@ =~= "ready "@);
    text::push_u64(&mut line, n as u64);
    line
}

/// Answer to a search: the move, or none.
pub open spec fn bestmove_text(mv: int) -> Seq<char> {
    if mv == -1 {
        "bestmove (none)"@
    } else {
        "bestmove "@ + moves::algebraic(mv)
    }
}

/// Answer to a search.
pub fn bestmove_line(mv: i16) -> (line: String)
    ensures
        line@ == bestmove_text(mv as int),
{
    if mv == moves::TITANIUM_NO_MOVE {
        return line_of("bestmove (none)");
    }
    let mut line: String = String::new();
    line.append("bestmove ");
    assert(line@ =~= "bestmove "@);
    let t = moves::move_id_to_algebraic(mv);
    line.append(t.as_str());
    line
}

fn rest_words(ws: &Vec<String>) -> (out: Vec<String>)
    requires
        ws@.len() > 0,
    ensures
        views(out@) == views(ws@).drop_first(),
{
    let mut out: Vec<String> = Vec::new();
    let n: usize = ws.len();
    let mut i: usize = 1;
    assert(views(out@) =~= Seq::empty());
    while i < n
        invariant
            1 <= i <= n,
            n == ws@.len(),
            views(out@) == views(ws@).subrange(1, i as int),
        decreases n - i,
    {
        let ghost before = views(out@);
        out.push(ws[i].clone());
        i += 1;
        assert(views(out@) =~= before.push(ws@[i - 1]@));
        assert(views(out@) =~= views(ws@).subrange(1, i as int));
    }
    assert(views(out@) =~= views(ws@).drop_first());
    out
}

/// What a line asks for, by its first word.
pub open spec fn verb(t: Seq<char>) -> Option<Seq<char>> {
    if words(t).len() == 0 {
        None
    } else {
        Some(words(t)[0])
    }
}

/// The position is that of the moves.
pub open spec fn keeps_step(p: game::Position, applied: Seq<Seq<char>>) -> bool {
    after_moves(start_position(), applied, applied.len() as int) == (p, None::<Seq<char>>)
}

/// What a list of moves comes to in a game on `p` with the moves `applied`: a list that
/// continues them is played on from `p`, any other from the start.
pub open spec fn told(p: game::Position, applied: Seq<Seq<char>>, ms: Seq<Seq<char>>) -> (
    game::Position,
    Option<Seq<char>>,
) {
    if continues(ms, applied) {
        let rest = ms.skip(applied.len() as int);
        after_moves(p, rest, rest.len() as int)
    } else {
        after_moves(start_position(), ms, ms.len() as int)
    }
}

/// In a game that is in step with its moves, a list comes to what it comes to from the
/// start.
pub proof fn law_told_from_the_start(
    p: game::Position,
    applied: Seq<Seq<char>>,
    ms: Seq<Seq<char>>,
)
    requires
        keeps_step(p, applied),
    ensures
        told(p, applied, ms) == after_moves(start_position(), ms, ms.len() as int),
{
    if continues(ms, applied) {
        let k = applied.len() as int;
        lemma_same_moves_same_game(start_position(), applied, ms, k);
        lemma_moves_in_two(start_position(), ms, k, ms.len() as int);
    }
}

/// Playing a list is playing its head and then its tail.
proof fn lemma_moves_in_two(p: game::Position, ms: Seq<Seq<char>>, k: int, n: int)
    requires
        0 <= k <= n <= ms.len(),
        after_moves(p, ms, k).1 is None,
    ensures
        after_moves(p, ms, n) == after_moves(after_moves(p, ms, k).0, ms.skip(k), n - k),
    decreases n,
{
    if k < n {
        lemma_moves_in_two(p, ms, k, n - 1);
        assert(ms.skip(k)[n - k - 1] == ms[n - 1]);
    }
}

/// The moves from `from` on.
pub(crate) fn tail_moves(ms: &Vec<String>, from: usize) -> (out: Vec<String>)
    requires
        from <= ms@.len(),
    ensures
        views(out@) == views(ms@).skip(from as int),
{
    let mut out: Vec<String> = Vec::new();
    let n: usize = ms.len();
    let mut i: usize = from;
    assert(views(out@) =~= views(ms@).subrange(from as int, from as int));
    while i < n
        invariant
            from <= i <= n,
            n == ms@.len(),
            views(out@) == views(ms@).subrange(from as int, i as int),
        decreases n - i,
    {
        let ghost before = views(out@);
        out.push(ms[i].clone());
        i += 1;
        assert(views(out@) =~= before.push(ms@[i - 1]@));
        assert(views(out@) =~= views(ms@).subrange(from as int, i as int));
    }
    assert(views(ms@).subrange(from as int, n as int) =~= views(ms@).skip(from as int));
    out
}

/// Another position, and nothing else: table, killers, history, countermoves, certificates,
/// evaluations and race tables stay.
pub open spec fn is_warm(before: TitaniumSearch, after: TitaniumSearch) -> bool {
    after == (TitaniumSearch {
        g: after.g,
        dist: after.dist,
        use_shared: after.use_shared,
        lazy: after.lazy,
        ..before
    })
}

impl TitaniumSession {
    /// The searcher is ready, and works alone.
    pub open spec fn wf(&self) -> bool {
        &&& self.search.ready(0)
        &&& self.search.lazy_ok()
        &&& self.search.lazy.moves is None
    }

    /// The game is that of the moves told.
    pub open spec fn in_step(&self) -> bool {
        keeps_step(self.search.g@, views(self.applied@))
    }

    /// A session from the start position.
    pub fn new(engine_flag: &str) -> (s: TitaniumSession)
        ensures
            s.wf(),
            s.in_step(),
            s.applied@.len() == 0,
            s.search.cfg == configured(base_config(kind_of(engine_flag@)), flags_of(engine_flag@)),
    {
        let g = GameState::new();
        proof {
            lemma_start(g);
        }
        let mut search = build_search(engine_flag, g);
        search.leave_lazy_smp();
        TitaniumSession { search, applied: Vec::new() }
    }

    fn reset(&mut self)
        requires
            old(self).wf(),
        ensures
            final(self).wf(),
            final(self).applied@.len() == 0,
            final(self).search.g@ == start_position(),
            is_warm(old(self).search, final(self).search),
    {
        let g = GameState::new();
        proof {
            lemma_start(g);
        }
        self.search.set_position(g);
        self.search.leave_lazy_smp();
        self.applied = Vec::new();
    }

    /// Goes to the position after `ms`. A list that continues the last one plays only what is
    /// new, and where a move of it is refused the game stays where it got to; any other list
    /// starts over, and a refused one changes nothing.
    fn set_moves(&mut self, ms: Vec<String>) -> (r: Result<(), String>)
        requires
            old(self).wf(),
        ensures
            final(self).wf(),
            is_warm(old(self).search, final(self).search),
            ({
                let was = views(old(self).applied@);
                let (q, why) = told(old(self).search.g@, was, views(ms@));
                match r {
                    Ok(_) => why is None && final(self).search.g@ == q && final(self).applied == ms,
                    Err(e) => why == Some(e@) && final(self).applied == old(self).applied && if continues(
                        views(ms@),
                        was,
                    ) {
                        final(self).search.g@ == q
                    } else {
                        *final(self) == *old(self)
                    },
                }
            }),
    {
        if extends_applied(&ms, &self.applied) {
            let rest = tail_moves(&ms, self.applied.len());
            let mut g = self.search.g.clone();
            let ghost p = g@;
            let res = play_words(&mut g, &rest, 0, Ghost(p));
            self.search.set_position(g);
            self.search.leave_lazy_smp();
            match res {
                Ok(_) => {
                    self.applied = ms;
                    Ok(())
                },
                Err(e) => Err(e),
            }
        } else {
            match replay(&ms) {
                Ok(g) => {
                    self.search.set_position(g);
                    self.search.leave_lazy_smp();
                    self.applied = ms;
                    Ok(())
                },
                Err(e) => Err(e),
            }
        }
    }

    /// Plays one move.
    fn make_move(&mut self, t: String) -> (r: Result<(), String>)
        requires
            old(self).wf(),
        ensures
            final(self).wf(),
            is_warm(old(self).search, final(self).search),
            match r {
                Ok(_) => {
                    &&& refusal(old(self).search.g@, t@) is None
                    &&& final(self).search.g@ == game::played(
                        old(self).search.g@,
                        moves::parsed_move(t@),
                    )
                    &&& views(final(self).applied@) == views(old(self).applied@).push(t@)
                    &&& old(self).in_step() ==> final(self).in_step()
                },
                Err(e) => {
                    &&& refusal(old(self).search.g@, t@) is Some
                    &&& e@ == if game::winner_of(old(self).search.g@) >= 0 {
                        "terminal position"@
                    } else {
                        "move "@ + t@ + " cannot be played"@
                    }
                    &&& *final(self) == *old(self)
                },
            },
    {
        if self.search.g.winner() >= 0 {
            return Err(line_of("terminal position"));
        }
        let m: i16 = moves::algebraic_to_move_id(t.as_str());
        if !takes_move(&self.search.g, m) {
            return Err(cannot_play(t.as_str()));
        }
        self.search.apply_move(m);
        let ghost before = views(self.applied@);
        let ghost word = t@;
        self.applied.push(t);
        proof {
            assert(views(self.applied@) =~= before.push(word));
            lemma_same_moves_same_game(
                start_position(),
                before,
                views(self.applied@),
                before.len() as int,
            );
        }
        Ok(())
    }

    /// Takes one line.
    pub fn handle(&mut self, line: &str) -> (a: SessionAction)
        requires
            old(self).wf(),
        ensures
            final(self).wf(),
            final(self).search.cfg == old(self).search.cfg,
            verb(line@) is None ==> a is Ignore && *final(self) == *old(self),
            verb(line@) == Some("reset"@) ==> a is Reply && a->Reply_0@ == "ready"@
                && final(self).search.g@ == start_position() && final(self).applied@.len() == 0,
            verb(line@) == Some("quit"@) ==> a is Quit && *final(self) == *old(self),
            verb(line@) == Some("go"@) ==> *final(self) == *old(self) && if game::winner_of(
                old(self).search.g@,
            ) >= 0 {
                a is Reply && a->Reply_0@ == "error terminal position"@
            } else {
                a is Think && (match a->Think_0 {
                    Some(t) => words(line@).len() > 1 && t@ == words(line@)[1],
                    None => words(line@).len() == 1,
                })
            },
            // In step with its moves, a session goes where the list leads from the start.
            verb(line@) == Some("position"@) ==> ({
                let ms = words(line@).drop_first();
                let was = views(old(self).applied@);
                let (q, why) = told(old(self).search.g@, was, ms);
                &&& old(self).in_step() ==> (q, why) == after_moves(
                    start_position(),
                    ms,
                    ms.len() as int,
                )
                &&& a is Reply && match why {
                    None => a->Reply_0@ == "ready "@ + text::dec(ms.len()) && final(self).search.g@
                        == q && views(final(self).applied@) == ms,
                    Some(e) => a->Reply_0@ == "error "@ + e && final(self).applied == old(self).applied && if continues(ms, was) {
                        final(self).search.g@ == q
                    } else {
                        *final(self) == *old(self)
                    },
                }
                &&& old(self).in_step() && why is None ==> final(self).in_step()
            }),
            verb(line@) != Some("position"@) && old(self).in_step() ==> final(self).in_step(),
            verb(line@) == Some("makemove"@) && words(line@).len() == 1 ==> a is Reply
                && a->Reply_0@ == "error makemove requires a move"@ && *final(self) == *old(self),
            verb(line@) == Some("makemove"@) && words(line@).len() > 1 && refusal(
                old(self).search.g@,
                words(line@)[1],
            ) is None ==> a is Reply && a->Reply_0@ == "ready"@ && final(self).search.g@
                == game::played(old(self).search.g@, moves::parsed_move(words(line@)[1]))
                && views(final(self).applied@) == views(old(self).applied@).push(words(line@)[1]),
            verb(line@) == Some("makemove"@) && words(line@).len() > 1 && refusal(
                old(self).search.g@,
                words(line@)[1],
            ) is Some ==> a is Reply && a->Reply_0@ == (if game::winner_of(old(self).search.g@) >= 0 {
                "error terminal position"@
            } else {
                "error "@ + ("move "@ + words(line@)[1] + " cannot be played"@)
            }) && *final(self) == *old(self),
            // What was learned stays: a session is warm.
            is_warm(old(self).search, final(self).search),
            verb(line@) is Some && verb(line@) != Some("reset"@) && verb(line@) != Some("quit"@)
                && verb(line@) != Some("go"@) && verb(line@) != Some("position"@) && verb(line@)
                != Some("makemove"@) ==> a is Reply && a->Reply_0@ == "error unknown command"@
                && *final(self) == *old(self),
    {
        let ws = split_words(line);
        proof {
            reveal_strlit("reset");
            reveal_strlit("quit");
            reveal_strlit("go");
            reveal_strlit("position");
            reveal_strlit("makemove");
            if words(line@).len() > 0 {
                assert(views(ws@)[0] == ws@[0]@);
            }
            if words(line@).len() > 1 {
                assert(views(ws@)[1] == ws@[1]@);
            }
            lemma_verbs_differ();
            reveal_strlit("error ");
            reveal_strlit("terminal position");
            reveal_strlit("error terminal position");
            assert("error "@ + "terminal position"@ =~= "error terminal position"@);
        }
        if ws.len() == 0 {
            return SessionAction::Ignore;
        }
        let first = ws[0].as_str();
        if text::str_eq(first, "reset") {
            self.reset();
            SessionAction::Reply(line_of("ready"))
        } else if text::str_eq(first, "position") {
            let ms = rest_words(&ws);
            let n: usize = ms.len();
            proof {
                if self.in_step() {
                    law_told_from_the_start(
                        self.search.g@,
                        views(self.applied@),
                        words(line@).drop_first(),
                    );
                }
            }
            match self.set_moves(ms) {
                Ok(_) => SessionAction::Reply(ready_line(n)),
                Err(e) => SessionAction::Reply(error_line(e.as_str())),
            }
        } else if text::str_eq(first, "makemove") {
            if ws.len() < 2 {
                return SessionAction::Reply(line_of("error makemove requires a move"));
            }
            match self.make_move(ws[1].clone()) {
                Ok(_) => SessionAction::Reply(line_of("ready")),
                Err(e) => SessionAction::Reply(error_line(e.as_str())),
            }
        } else if text::str_eq(first, "go") {
            if self.search.g.winner() >= 0 {
                return SessionAction::Reply(line_of("error terminal position"));
            }
            if ws.len() > 1 {
                SessionAction::Think(Some(ws[1].clone()))
            } else {
                SessionAction::Think(None)
            }
        } else if text::str_eq(first, "quit") {
            SessionAction::Quit
        } else {
            SessionAction::Reply(line_of("error unknown command"))
        }
    }
}

/// The five commands are different words.
proof fn lemma_verbs_differ()
    ensures
        "reset"@ != "quit"@,
        "reset"@ != "go"@,
        "reset"@ != "position"@,
        "reset"@ != "makemove"@,
        "quit"@ != "go"@,
        "quit"@ != "position"@,
        "quit"@ != "makemove"@,
        "go"@ != "position"@,
        "go"@ != "makemove"@,
        "position"@ != "makemove"@,
{
    reveal_strlit("reset");
    reveal_strlit("quit");
    reveal_strlit("go");
    reveal_strlit("position");
    reveal_strlit("makemove");
    assert("reset"@[0] == 'r');
    assert("quit"@[0] == 'q');
    assert("go"@[0] == 'g');
    assert("position"@[0] == 'p');
    assert("makemove"@[0] == 'm');
}

/// Lists that agree on their first `n` moves lead to the same game.
pub proof fn lemma_same_moves_same_game(
    p: game::Position,
    a: Seq<Seq<char>>,
    b: Seq<Seq<char>>,
    n: int,
)
    requires
        0 <= n <= a.len(),
        n <= b.len(),
        forall|i: int| 0 <= i < n ==> #[trigger] a[i] == b[i],
    ensures
        after_moves(p, a, n) == after_moves(p, b, n),
    decreases n,
{
    if n > 0 {
        lemma_same_moves_same_game(p, a, b, n - 1);
        assert(a[n - 1] == b[n - 1]);
    }
}

} // verus!

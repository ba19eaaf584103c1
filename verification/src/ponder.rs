//! The pondering session: the line protocol with `go infinite`, `stop`, `ponderhit` and
//! `movemiss` on top, and what the search thread does between commands.

use crate::game;
use crate::game::GameState;
use crate::json::PonderTelemetry;
use crate::moves;
use crate::num;
use crate::session;
use crate::setup;
use crate::text;
use vstd::prelude::*;

verus! {

/// Length of one slice of pondering.
pub const PONDER_CHUNK_MS: u64 = 50;

/// Time spent on choosing the reply to stand on.
pub const PONDER_PROBE_MS: u64 = 400;

/// First place that is no white space.
pub open spec fn trim_start(t: Seq<char>) -> Seq<char>
    decreases t.len(),
{
    if t.len() > 0 && session::is_space(t[0]) {
        trim_start(t.drop_first())
    } else {
        t
    }
}

pub open spec fn trim_end(t: Seq<char>) -> Seq<char>
    decreases t.len(),
{
    if t.len() > 0 && session::is_space(t.last()) {
        trim_end(t.drop_last())
    } else {
        t
    }
}

/// A text without the white space around it.
pub open spec fn trimmed(t: Seq<char>) -> Seq<char> {
    trim_end(trim_start(t))
}

/// Place of the first space, or the length.
pub open spec fn first_space(t: Seq<char>, i: int) -> int
    decreases t.len() - i,
{
    if i >= t.len() || t[i] == ' ' {
        i
    } else {
        first_space(t, i + 1)
    }
}

/// A text cut at single spaces into at most `k` parts.
pub open spec fn parts_of(t: Seq<char>, k: nat) -> Seq<Seq<char>>
    decreases k,
{
    let i = first_space(t, 0);
    if k <= 1 || i >= t.len() {
        seq![t]
    } else {
        seq![t.subrange(0, i)] + parts_of(t.subrange(i + 1, t.len() as int), (k - 1) as nat)
    }
}

/// The parts of a line: up to four, cut at single spaces.
pub open spec fn line_parts(t: Seq<char>) -> Seq<Seq<char>> {
    if trimmed(t).len() == 0 {
        Seq::empty()
    } else {
        parts_of(trimmed(t), 4)
    }
}

proof fn lemma_trim_start(t: Seq<char>, i: int)
    requires
        0 <= i <= t.len(),
        forall|k: int| 0 <= k < i ==> session::is_space(#[trigger] t[k]),
        i < t.len() ==> !session::is_space(t[i]),
    ensures
        trim_start(t) == t.subrange(i, t.len() as int),
    decreases t.len(),
{
    if i == 0 {
        assert(t.subrange(0, t.len() as int) =~= t);
    } else {
        assert(session::is_space(t[0]));
        let u = t.drop_first();
        assert forall|k: int| 0 <= k < i - 1 implies session::is_space(#[trigger] u[k]) by {
            assert(u[k] == t[k + 1]);
        }
        lemma_trim_start(u, i - 1);
        assert(u.subrange(i - 1, u.len() as int) =~= t.subrange(i, t.len() as int));
    }
}

proof fn lemma_trim_end(t: Seq<char>, j: int)
    requires
        0 <= j <= t.len(),
        forall|k: int| j <= k < t.len() ==> session::is_space(#[trigger] t[k]),
        j > 0 ==> !session::is_space(t[j - 1]),
    ensures
        trim_end(t) == t.subrange(0, j),
    decreases t.len(),
{
    if j == t.len() {
        assert(t.subrange(0, j) =~= t);
    } else {
        assert(session::is_space(t[t.len() - 1]));
        let u = t.drop_last();
        assert forall|k: int| j <= k < u.len() implies session::is_space(#[trigger] u[k]) by {
            assert(u[k] == t[k]);
        }
        lemma_trim_end(u, j);
        assert(u.subrange(0, j) =~= t.subrange(0, j));
    }
}

proof fn lemma_first_space(t: Seq<char>, from: int, i: int)
    requires
        0 <= from <= i <= t.len(),
        forall|k: int| from <= k < i ==> t[k] != ' ',
        i == t.len() || t[i] == ' ',
    ensures
        first_space(t, from) == i,
    decreases i - from,
{
    if from < i {
        assert(t[from] != ' ');
        lemma_first_space(t, from + 1, i);
    }
}

/// Cuts a line into its parts.
pub fn split_line(line: &str) -> (out: Vec<String>)
    ensures
        session::views(out@) == line_parts(line@),
{
    let n: usize = line.unicode_len();
    let mut i: usize = 0;
    while i < n && session::char_is_space(line.get_char(i))
        invariant
            i <= n,
            n == line@.len(),
            forall|k: int| 0 <= k < i ==> session::is_space(#[trigger] line@[k]),
        decreases n - i,
    {
        i += 1;
    }
    let mut j: usize = n;
    while j > i && session::char_is_space(line.get_char(j - 1))
        invariant
            i <= j <= n,
            n == line@.len(),
            forall|k: int| j <= k < n ==> session::is_space(#[trigger] line@[k]),
        decreases j,
    {
        j -= 1;
    }
    let ghost body = line@.subrange(i as int, j as int);
    proof {
        lemma_trim_start(line@, i as int);
        let rest = line@.subrange(i as int, n as int);
        assert forall|k: int| j - i <= k < rest.len() implies session::is_space(
            #[trigger] rest[k],
        ) by {
            assert(rest[k] == line@[i + k]);
        }
        if j > i {
            assert(rest[j - i - 1] == line@[j - 1]);
        }
        lemma_trim_end(rest, j - i);
        assert(rest.subrange(0, j - i) =~= body);
    }
    let mut out: Vec<String> = Vec::new();
    if i == j {
        assert(session::views(out@) =~= Seq::empty());
        return out;
    }
    let ghost parts = parts_of(body, 4);
    let mut start: usize = i;
    let mut k: usize = 4;
    assert(session::views(out@) =~= Seq::empty());
    assert(session::views(out@) + parts_of(body, 4) =~= parts);
    let mut done: bool = false;
    while !done
        invariant
            i <= start <= j <= n,
            n == line@.len(),
            1 <= k <= 4,
            !done ==> session::views(out@) + parts_of(
                line@.subrange(start as int, j as int),
                k as nat,
            ) == parts,
            done ==> session::views(out@) == parts,
        decreases k + (if done {
            0int
        } else {
            1int
        }),
    {
        let ghost rest = line@.subrange(start as int, j as int);
        let mut e: usize = start;
        while e < j && line.get_char(e) != ' '
            invariant
                start <= e <= j <= n,
                n == line@.len(),
                forall|x: int| start <= x < e ==> line@[x] != ' ',
            decreases j - e,
        {
            e += 1;
        }
        proof {
            assert forall|x: int| 0 <= x < e - start implies rest[x] != ' ' by {
                assert(rest[x] == line@[start + x]);
            }
            if e < j {
                assert(rest[e - start] == line@[e as int]);
            }
            lemma_first_space(rest, 0, e - start);
        }
        let ghost before = session::views(out@);
        if k <= 1 || e >= j {
            let piece = line.substring_char(start, j).to_owned();
            out.push(piece);
            assert(session::views(out@) =~= before.push(rest));
            assert(before + seq![rest] =~= before.push(rest));
            done = true;
        } else {
            let piece = line.substring_char(start, e).to_owned();
            out.push(piece);
            proof {
                let head = rest.subrange(0, e - start);
                assert(line@.subrange(start as int, e as int) =~= head);
                assert(session::views(out@) =~= before.push(head));
                let tail = rest.subrange(e - start + 1, rest.len() as int);
                assert(line@.subrange(e + 1, j as int) =~= tail);
                assert(before + (seq![head] + parts_of(tail, (k - 1) as nat)) =~= before.push(head)
                    + parts_of(tail, (k - 1) as nat));
            }
            start = e + 1;
            k -= 1;
        }
    }
    out
}

/// What a timed command waits for.
#[derive(Clone, Copy, Debug, PartialEq, Eq, Structural)]
pub enum TimedKind {
    /// A search for the time given.
    Go,
    /// A search with a share of the time left.
    GoRemaining,
    /// The predicted move was played.
    PonderHit,
    /// Another move was played.
    MoveMiss,
}

/// What the session asks its surroundings to do.
pub enum PonderAction {
    /// Nothing: a blank line.
    Ignore,
    /// Write this line.
    Reply(String),
    /// Hand the position to the search thread, and write this line.
    SetGame(String),
    /// Ponder, on this reply if it is a move.
    Ponder(i16),
    /// Search, for the time in the text or a default, and answer with the best move.
    Timed(TimedKind, Option<String>),
    /// Stop pondering and answer with the best move so far.
    Stop,
    /// End the session.
    Quit,
}

/// The session's own view of the game.
pub struct PonderSession {
    pub g: GameState,
    pub applied: Vec<String>,
    /// Reply the search was told to ponder on; -1 for none.
    pub ponder_mv: i16,
    /// Ponder after each move.
    pub auto_ponder: bool,
}

impl PonderSession {
    /// The game can be searched.
    pub open spec fn wf(&self) -> bool {
        setup::searchable(self.g)
    }

    /// The game is that of the moves told.
    pub open spec fn in_step(&self) -> bool {
        session::keeps_step(self.g@, session::views(self.applied@))
    }

    pub fn new(auto_ponder: bool) -> (s: PonderSession)
        ensures
            s.wf(),
            s.in_step(),
            s.applied@.len() == 0,
            s.ponder_mv == -1,
            s.auto_ponder == auto_ponder,
            s.g@ == session::start_position(),
    {
        let g = GameState::new();
        proof {
            session::lemma_start(g);
        }
        PonderSession {
            g,
            applied: Vec::new(),
            ponder_mv: moves::TITANIUM_NO_MOVE,
            auto_ponder,
        }
    }

    /// Plays a move by its text.
    fn play_text(&mut self, t: String)
        requires
            old(self).wf(),
            session::refusal(old(self).g@, t@) is None,
        ensures
            final(self).wf(),
            final(self).g@ == game::played(old(self).g@, moves::parsed_move(t@)),
            session::views(final(self).applied@) == session::views(old(self).applied@).push(t@),
            old(self).in_step() ==> final(self).in_step(),
            final(self).ponder_mv == old(self).ponder_mv,
            final(self).auto_ponder == old(self).auto_ponder,
    {
        let m: i16 = moves::algebraic_to_move_id(t.as_str());
        let ghost before = session::views(self.applied@);
        let ghost told = t@;
        self.g.make_move(m);
        self.applied.push(t);
        proof {
            let after = session::views(self.applied@);
            assert(after =~= before.push(told));
            session::lemma_same_moves_same_game(
                session::start_position(),
                before,
                after,
                before.len() as int,
            );
        }
    }

    /// Plays a move by its identifier, if the game goes on and takes it.
    fn play_id(&mut self, m: i16) -> (played: bool)
        requires
            old(self).wf(),
        ensures
            final(self).wf(),
            played == (game::winner_of(old(self).g@) < 0 && session::takes(old(self).g@, m as int)),
            played ==> final(self).g@ == game::played(old(self).g@, m as int)
                && session::views(final(self).applied@) == session::views(
                old(self).applied@,
            ).push(moves::algebraic(m as int)),
            !played ==> *final(self) == *old(self),
            old(self).in_step() ==> final(self).in_step(),
            final(self).ponder_mv == old(self).ponder_mv,
            final(self).auto_ponder == old(self).auto_ponder,
    {
        if self.g.winner() >= 0 || !session::takes_move(&self.g, m) {
            return false;
        }
        proof {
            moves::law_algebraic_round_trip(m as int);
        }
        let t = moves::move_id_to_algebraic(m);
        self.play_text(t);
        true
    }

    fn set_moves(&mut self, ms: Vec<String>) -> (r: Result<(), String>)
        requires
            old(self).wf(),
        ensures
            final(self).wf(),
            final(self).auto_ponder == old(self).auto_ponder,
            ({
                let was = session::views(old(self).applied@);
                let (q, why) = session::told(old(self).g@, was, session::views(ms@));
                match r {
                    Ok(_) => why is None && final(self).g@ == q && final(self).applied == ms
                        && final(self).ponder_mv == -1,
                    Err(e) => why == Some(e@) && final(self).applied == old(self).applied
                        && final(self).ponder_mv == old(self).ponder_mv && if session::continues(
                        session::views(ms@),
                        was,
                    ) {
                        final(self).g@ == q
                    } else {
                        *final(self) == *old(self)
                    },
                }
            }),
    {
        if session::extends_applied(&ms, &self.applied) {
            let rest = session::tail_moves(&ms, self.applied.len());
            let ghost p = self.g@;
            match session::play_words(&mut self.g, &rest, 0, Ghost(p)) {
                Ok(_) => {},
                Err(e) => {
                    return Err(e);
                },
            }
        } else {
            match session::replay(&ms) {
                Ok(g) => {
                    self.g = g;
                },
                Err(e) => {
                    return Err(e);
                },
            }
        }
        self.applied = ms;
        self.ponder_mv = moves::TITANIUM_NO_MOVE;
        Ok(())
    }

    fn reset(&mut self)
        requires
            old(self).wf(),
        ensures
            final(self).wf(),
            final(self).applied@.len() == 0,
            final(self).ponder_mv == -1,
            final(self).g@ == session::start_position(),
            final(self).in_step(),
            final(self).auto_ponder == old(self).auto_ponder,
    {
        let g = GameState::new();
        proof {
            session::lemma_start(g);
        }
        self.g = g;
        self.applied = Vec::new();
        self.ponder_mv = moves::TITANIUM_NO_MOVE;
    }

    /// `go` and its arguments.
    fn handle_go(&mut self, parts: &Vec<String>) -> (a: PonderAction)
        requires
            old(self).wf(),
            parts@.len() > 0,
        ensures
            final(self).wf(),
            final(self).g@ == old(self).g@,
            final(self).applied == old(self).applied,
            go_answer(old(self).g@, session::views(parts@), a),
            ponder_noted(*old(self), *final(self), a),
    {
        proof {
            if parts@.len() > 1 {
                assert(session::views(parts@)[1] == parts@[1]@);
            }
            if parts@.len() > 2 {
                assert(session::views(parts@)[2] == parts@[2]@);
            }
        }
        if self.g.winner() >= 0 {
            return PonderAction::Reply(session::line_of("error terminal position"));
        }
        if parts.len() < 2 {
            return PonderAction::Timed(TimedKind::Go, None);
        }
        let third: Option<String> = if parts.len() > 2 {
            Some(parts[2].clone())
        } else {
            None
        };
        if text::str_eq(parts[1].as_str(), "infinite") {
            let m: i16 = match third {
                Some(t) => if t.as_str().unicode_len() == 0 {
                    moves::TITANIUM_NO_MOVE
                } else {
                    moves::algebraic_to_move_id(t.as_str())
                },
                None => moves::TITANIUM_NO_MOVE,
            };
            self.ponder_mv = m;
            return PonderAction::Ponder(m);
        }
        if text::str_eq(parts[1].as_str(), "rem") {
            return PonderAction::Timed(TimedKind::GoRemaining, third);
        }
        PonderAction::Timed(TimedKind::Go, Some(parts[1].clone()))
    }

    /// `movemiss` and its arguments.
    fn handle_miss(&mut self, parts: &Vec<String>) -> (a: PonderAction)
        requires
            old(self).wf(),
            parts@.len() > 0,
        ensures
            final(self).wf(),
            miss_answer(*old(self), *final(self), session::views(parts@), a),
            final(self).auto_ponder == old(self).auto_ponder,
            old(self).in_step() ==> final(self).in_step(),
    {
        proof {
            if parts@.len() > 1 {
                assert(session::views(parts@)[1] == parts@[1]@);
            }
            if parts@.len() > 2 {
                assert(session::views(parts@)[2] == parts@[2]@);
            }
        }
        if parts.len() < 2 {
            return PonderAction::Reply(session::line_of("error movemiss requires MOVE TIME_MS"));
        }
        let third: Option<String> = if parts.len() > 2 {
            Some(parts[2].clone())
        } else {
            None
        };
        if self.g.winner() < 0 {
            let m: i16 = moves::algebraic_to_move_id(parts[1].as_str());
            if !session::takes_move(&self.g, m) {
                let msg = session::cannot_play(parts[1].as_str());
                return PonderAction::Reply(session::error_line(msg.as_str()));
            }
            self.play_text(parts[1].clone());
        }
        self.ponder_mv = moves::TITANIUM_NO_MOVE;
        PonderAction::Timed(TimedKind::MoveMiss, third)
    }

    /// Takes one line.
    pub fn handle(&mut self, line: &str) -> (a: PonderAction)
        requires
            old(self).wf(),
        ensures
            final(self).wf(),
            handled(*old(self), *final(self), line@, a),
    {
        let parts = split_line(line);
        proof {
            lemma_commands_differ();
            if parts@.len() > 0 {
                assert(session::views(parts@)[0] == parts@[0]@);
            }
            if parts@.len() > 1 {
                assert(session::views(parts@)[1] == parts@[1]@);
            }
            if parts@.len() > 2 {
                assert(session::views(parts@)[2] == parts@[2]@);
            }
        }
        if parts.len() == 0 {
            return PonderAction::Ignore;
        }
        let first = parts[0].as_str();
        if text::str_eq(first, "reset") {
            self.reset();
            PonderAction::SetGame(session::line_of("ready"))
        } else if text::str_eq(first, "position") {
            let ms = tail_words(line);
            let n: usize = ms.len();
            proof {
                if self.in_step() {
                    session::law_told_from_the_start(
                        self.g@,
                        session::views(self.applied@),
                        session::words(line_tail(line@)),
                    );
                }
            }
            match self.set_moves(ms) {
                Ok(_) => PonderAction::SetGame(session::ready_line(n)),
                Err(e) => PonderAction::Reply(session::error_line(e.as_str())),
            }
        } else if text::str_eq(first, "makemove") {
            if parts.len() < 2 {
                return PonderAction::Reply(session::line_of("error makemove requires a move"));
            }
            if self.g.winner() >= 0 {
                return PonderAction::Reply(session::line_of("error terminal position"));
            }
            let m: i16 = moves::algebraic_to_move_id(parts[1].as_str());
            if !session::takes_move(&self.g, m) {
                let msg = session::cannot_play(parts[1].as_str());
                return PonderAction::Reply(session::error_line(msg.as_str()));
            }
            self.play_text(parts[1].clone());
            self.ponder_mv = moves::TITANIUM_NO_MOVE;
            PonderAction::SetGame(session::line_of("ready"))
        } else if text::str_eq(first, "go") {
            self.handle_go(&parts)
        } else if text::str_eq(first, "stop") {
            PonderAction::Stop
        } else if text::str_eq(first, "ponderhit") {
            let arg: Option<String> = if parts.len() > 1 {
                Some(parts[1].clone())
            } else {
                None
            };
            if self.ponder_mv != moves::TITANIUM_NO_MOVE {
                let m: i16 = self.ponder_mv;
                let _done: bool = self.play_id(m);
                self.ponder_mv = moves::TITANIUM_NO_MOVE;
            }
            PonderAction::Timed(TimedKind::PonderHit, arg)
        } else if text::str_eq(first, "movemiss") {
            self.handle_miss(&parts)
        } else if text::str_eq(first, "quit") {
            PonderAction::Quit
        } else {
            PonderAction::Reply(session::line_of("error unknown command"))
        }
    }

    /// After a timed search: the answer, and whether to play the move and ponder on.
    pub fn after_go(&mut self, mv: i16) -> (r: (String, bool))
        requires
            old(self).wf(),
        ensures
            final(self).wf(),
            r.0@ == session::bestmove_text(mv as int),
            r.1 == (mv != -1 && old(self).auto_ponder && game::winner_of(old(self).g@) < 0
                && session::takes(old(self).g@, mv as int)),
            r.1 ==> final(self).g@ == game::played(old(self).g@, mv as int),
            !r.1 ==> *final(self) == *old(self),
            old(self).in_step() ==> final(self).in_step(),
            final(self).ponder_mv == old(self).ponder_mv,
            final(self).auto_ponder == old(self).auto_ponder,
    {
        let line = session::bestmove_line(mv);
        if mv == moves::TITANIUM_NO_MOVE || !self.auto_ponder {
            return (line, false);
        }
        let on: bool = self.play_id(mv);
        (line, on)
    }
}

/// Pondering on a reply notes it; every other answer to `go` leaves the session as it was.
pub open spec fn ponder_noted(before: PonderSession, after: PonderSession, a: PonderAction) -> bool {
    match a {
        PonderAction::Ponder(m) => after == (PonderSession { ponder_mv: m, ..before }),
        _ => after == before,
    }
}

/// What a line does to the session, and what it is answered.
pub open spec fn handled(
    before: PonderSession,
    after: PonderSession,
    line: Seq<char>,
    a: PonderAction,
) -> bool {
    let ps = line_parts(line);
    &&& after.auto_ponder == before.auto_ponder
    &&& ps.len() == 0 ==> a is Ignore && after == before
    &&& ps.len() > 0 && ps[0] == "reset"@ ==> a is SetGame && a->SetGame_0@ == "ready"@
        && after.g@ == session::start_position() && after.ponder_mv == -1
        && after.applied@.len() == 0
    &&& ps.len() > 0 && ps[0] == "quit"@ ==> a is Quit && after == before
    &&& ps.len() > 0 && ps[0] == "stop"@ ==> a is Stop && after == before
    &&& ps.len() > 0 && ps[0] == "go"@ ==> go_answer(before.g@, ps, a)
        && ponder_noted(before, after, a)
    // In step with its moves, a session goes where the list leads from the start.
    &&& ps.len() > 0 && ps[0] == "position"@ ==> ({
        let ms = session::words(line_tail(line));
        let was = session::views(before.applied@);
        let (q, why) = session::told(before.g@, was, ms);
        &&& before.in_step() ==> (q, why) == session::after_moves(
            session::start_position(),
            ms,
            ms.len() as int,
        )
        &&& match why {
            None => a is SetGame && a->SetGame_0@ == "ready "@ + text::dec(ms.len())
                && after.g@ == q && after.ponder_mv == -1,
            Some(e) => a is Reply && a->Reply_0@ == "error "@ + e
                && after.applied == before.applied && after.ponder_mv
                == before.ponder_mv && if session::continues(ms, was) {
                after.g@ == q
            } else {
                after == before
            },
        }
        &&& before.in_step() && why is None ==> after.in_step()
    })
    &&& before.in_step() && (ps.len() == 0 || ps[0] != "position"@)
        ==> after.in_step()
    &&& ps.len() == 1 && ps[0] == "makemove"@ ==> a is Reply && a->Reply_0@
        == "error makemove requires a move"@ && after == before
    &&& ps.len() > 1 && ps[0] == "makemove"@ ==> match session::refusal(
        before.g@,
        ps[1],
    ) {
        None => a is SetGame && a->SetGame_0@ == "ready"@ && after.g@
            == game::played(before.g@, moves::parsed_move(ps[1]))
            && after.ponder_mv == -1,
        Some(_) => a is Reply && a->Reply_0@ == (if game::winner_of(before.g@) >= 0 {
            "error terminal position"@
        } else {
            "error "@ + ("move "@ + ps[1] + " cannot be played"@)
        }) && after == before,
    }
    &&& ps.len() > 0 && ps[0] == "movemiss"@ ==> miss_answer(
        before,
        after,
        ps,
        a,
    )
    &&& ps.len() > 0 && ps[0] == "ponderhit"@ ==> a is Timed && a->Timed_0
        == TimedKind::PonderHit && (match a->Timed_1 {
        Some(t) => ps.len() > 1 && t@ == ps[1],
        None => ps.len() == 1,
    }) && after.ponder_mv == -1
        && after.g@ == if before.ponder_mv != -1
            && game::winner_of(before.g@) < 0 && session::takes(
        before.g@,
        before.ponder_mv as int,
    ) {
        game::played(before.g@, before.ponder_mv as int)
    } else {
        before.g@
    }
    &&& ps.len() > 0 && ps[0] != "reset"@ && ps[0] != "quit"@ && ps[0] != "stop"@
        && ps[0] != "go"@ && ps[0] != "position"@ && ps[0] != "makemove"@ && ps[0]
        != "ponderhit"@ && ps[0] != "movemiss"@ ==> a is Reply && a->Reply_0@
        == "error unknown command"@ && after == before
}

/// `go infinite` with a reply, then `ponderhit`, plays that reply: the session ponders on it,
/// and the hit takes it where the game goes on and takes the move. Nothing is left to ponder.
pub proof fn law_ponderhit_plays_the_reply(
    s0: PonderSession,
    s1: PonderSession,
    s2: PonderSession,
    go: Seq<char>,
    hit: Seq<char>,
    a: PonderAction,
    b: PonderAction,
)
    requires
        handled(s0, s1, go, a),
        handled(s1, s2, hit, b),
        line_parts(go).len() > 2,
        line_parts(go)[0] == "go"@,
        line_parts(go)[1] == "infinite"@,
        line_parts(go)[2].len() > 0,
        line_parts(hit).len() > 0,
        line_parts(hit)[0] == "ponderhit"@,
        game::winner_of(s0.g@) < 0,
        session::takes(s0.g@, moves::parsed_move(line_parts(go)[2])),
    ensures
        a is Ponder,
        a->Ponder_0 == moves::parsed_move(line_parts(go)[2]),
        s1.g@ == s0.g@,
        s2.g@ == game::played(s0.g@, moves::parsed_move(line_parts(go)[2])),
        s2.ponder_mv == -1,
        s2.auto_ponder == s0.auto_ponder,
{
    lemma_commands_differ();
}

/// Plain `stop` after `go infinite` leaves the reply noted, so a later hit still takes it.
pub proof fn law_stop_keeps_the_reply(
    s0: PonderSession,
    s1: PonderSession,
    line: Seq<char>,
    a: PonderAction,
)
    requires
        handled(s0, s1, line, a),
        line_parts(line).len() > 0,
        line_parts(line)[0] == "stop"@,
    ensures
        a is Stop,
        s1 == s0,
{
    lemma_commands_differ();
}

/// What `movemiss` is answered: an error without a move or with one that cannot be played;
/// otherwise the move is played, unless the game is over, and a timed search follows.
pub open spec fn miss_answer(
    before: PonderSession,
    after: PonderSession,
    ps: Seq<Seq<char>>,
    a: PonderAction,
) -> bool {
    let p = before.g@;
    if ps.len() == 1 {
        a is Reply && a->Reply_0@ == "error movemiss requires MOVE TIME_MS"@ && after == before
    } else if game::winner_of(p) < 0 && session::refusal(p, ps[1]) is Some {
        a is Reply && a->Reply_0@ == "error "@ + ("move "@ + ps[1] + " cannot be played"@) && after
            == before
    } else {
        &&& a is Timed && a->Timed_0 == TimedKind::MoveMiss
        &&& match a->Timed_1 {
            Some(t) => ps.len() > 2 && t@ == ps[2],
            None => ps.len() == 2,
        }
        &&& after.ponder_mv == -1
        &&& after.g@ == if game::winner_of(p) < 0 {
            game::played(p, moves::parsed_move(ps[1]))
        } else {
            p
        }
    }
}

/// What `go` is answered: an error at the end of the game, pondering for `infinite`, and a
/// timed search otherwise.
pub open spec fn go_answer(p: game::Position, ps: Seq<Seq<char>>, a: PonderAction) -> bool {
    if game::winner_of(p) >= 0 {
        a is Reply && a->Reply_0@ == "error terminal position"@
    } else if ps.len() < 2 {
        a is Timed && a->Timed_0 == TimedKind::Go && a->Timed_1 is None
    } else if ps[1] == "infinite"@ {
        a is Ponder && a->Ponder_0 == if ps.len() > 2 && ps[2].len() > 0 {
            moves::parsed_move(ps[2])
        } else {
            -1
        }
    } else if ps[1] == "rem"@ {
        a is Timed && a->Timed_0 == TimedKind::GoRemaining && (match a->Timed_1 {
            Some(t) => ps.len() > 2 && t@ == ps[2],
            None => ps.len() <= 2,
        })
    } else {
        a is Timed && a->Timed_0 == TimedKind::Go && (match a->Timed_1 {
            Some(t) => t@ == ps[1],
            None => false,
        })
    }
}

/// What follows the first part of a line.
pub open spec fn line_tail(t: Seq<char>) -> Seq<char> {
    let body = trimmed(t);
    let i = first_space(body, 0);
    if i < body.len() {
        body.subrange(i + 1, body.len() as int)
    } else {
        Seq::empty()
    }
}

/// The words that follow the first part of a line.
fn tail_words(line: &str) -> (out: Vec<String>)
    ensures
        session::views(out@) == session::words(line_tail(line@)),
{
    let n: usize = line.unicode_len();
    let mut i: usize = 0;
    while i < n && session::char_is_space(line.get_char(i))
        invariant
            i <= n,
            n == line@.len(),
            forall|k: int| 0 <= k < i ==> session::is_space(#[trigger] line@[k]),
        decreases n - i,
    {
        i += 1;
    }
    let mut j: usize = n;
    while j > i && session::char_is_space(line.get_char(j - 1))
        invariant
            i <= j <= n,
            n == line@.len(),
            forall|k: int| j <= k < n ==> session::is_space(#[trigger] line@[k]),
        decreases j,
    {
        j -= 1;
    }
    let ghost body = line@.subrange(i as int, j as int);
    proof {
        lemma_trim_start(line@, i as int);
        let rest = line@.subrange(i as int, n as int);
        assert forall|k: int| j - i <= k < rest.len() implies session::is_space(
            #[trigger] rest[k],
        ) by {
            assert(rest[k] == line@[i + k]);
        }
        if j > i {
            assert(rest[j - i - 1] == line@[j - 1]);
        }
        lemma_trim_end(rest, j - i);
        assert(rest.subrange(0, j - i) =~= body);
    }
    let mut e: usize = i;
    while e < j && line.get_char(e) != ' '
        invariant
            i <= e <= j <= n,
            n == line@.len(),
            forall|x: int| i <= x < e ==> line@[x] != ' ',
        decreases j - e,
    {
        e += 1;
    }
    proof {
        assert forall|x: int| 0 <= x < e - i implies body[x] != ' ' by {
            assert(body[x] == line@[i + x]);
        }
        if e < j {
            assert(body[e - i] == line@[e as int]);
        }
        lemma_first_space(body, 0, e - i);
    }
    if e < j {
        assert(line@.subrange(e + 1, j as int) =~= line_tail(line@));
        session::split_words(line.substring_char(e + 1, j))
    } else {
        assert(line@.subrange(j as int, j as int) =~= Seq::empty());
        session::split_words(line.substring_char(j, j))
    }
}

/// The commands are different words.
proof fn lemma_commands_differ()
    ensures
        "reset"@ != "quit"@,
        "reset"@ != "go"@,
        "reset"@ != "position"@,
        "reset"@ != "makemove"@,
        "reset"@ != "stop"@,
        "reset"@ != "ponderhit"@,
        "reset"@ != "movemiss"@,
        "quit"@ != "go"@,
        "quit"@ != "position"@,
        "quit"@ != "makemove"@,
        "quit"@ != "stop"@,
        "quit"@ != "ponderhit"@,
        "quit"@ != "movemiss"@,
        "go"@ != "position"@,
        "go"@ != "makemove"@,
        "go"@ != "stop"@,
        "go"@ != "ponderhit"@,
        "go"@ != "movemiss"@,
        "position"@ != "makemove"@,
        "position"@ != "stop"@,
        "position"@ != "ponderhit"@,
        "position"@ != "movemiss"@,
        "makemove"@ != "stop"@,
        "makemove"@ != "ponderhit"@,
        "makemove"@ != "movemiss"@,
        "stop"@ != "ponderhit"@,
        "stop"@ != "movemiss"@,
        "ponderhit"@ != "movemiss"@,
{
    reveal_strlit("reset");
    reveal_strlit("quit");
    reveal_strlit("go");
    reveal_strlit("position");
    reveal_strlit("makemove");
    reveal_strlit("stop");
    reveal_strlit("ponderhit");
    reveal_strlit("movemiss");
    assert("reset"@[0] == 'r');
    assert("quit"@[0] == 'q');
    assert("go"@[0] == 'g');
    assert("position"@[0] == 'p');
    assert("position"@[2] == 's');
    assert("ponderhit"@[0] == 'p');
    assert("ponderhit"@[2] == 'n');
    assert("stop"@[0] == 's');
    assert("makemove"@[0] == 'm');
    assert("makemove"@[1] == 'a');
    assert("movemiss"@[0] == 'm');
    assert("movemiss"@[1] == 'o');
}

/// What the search thread keeps while it ponders.
#[derive(Clone, Copy, Debug)]
pub struct Pondering {
    pub tel: PonderTelemetry,
    /// Best move so far on the node stood on; -1 for none.
    pub last_mv: i16,
    /// Key of the node stood on.
    pub stands_on: Option<(u32, u32)>,
    /// Reply to stand on without probing; -1 for none.
    pub hint: i16,
    /// A reply is still to be chosen.
    pub choosing: bool,
    pub probe_ms: u64,
    pub probe_best: i16,
}

/// One finished slice of pondering.
#[derive(Clone, Copy, Debug, PartialEq, Eq, Structural)]
pub struct Slice {
    pub mv: i16,
    pub nodes: u64,
    pub ms: u64,
}

/// `a + b`, at most the largest value.
pub open spec fn capped_sum(a: u64, b: u64) -> u64 {
    num::smaller(a + b, u64::MAX as int) as u64
}

/// Best reply the probe has found.
pub open spec fn probe_best_after(p: Pondering, s: Slice) -> i16 {
    if s.mv != -1 {
        s.mv
    } else {
        p.probe_best
    }
}

/// The reply chosen by this slice, if it chooses one: the hint at once, otherwise the
/// probe's best when the probe has had its time.
pub open spec fn chosen(p: Pondering, s: Slice) -> i16 {
    if !p.choosing {
        -1i16
    } else if p.hint != -1 {
        p.hint
    } else if capped_sum(p.probe_ms, 50) >= 400 {
        probe_best_after(p, s)
    } else {
        -1i16
    }
}

/// State after a slice, before a chosen reply is stood on.
pub open spec fn sliced(p: Pondering, s: Slice) -> Pondering {
    let tel = PonderTelemetry {
        nodes: capped_sum(p.tel.nodes, s.nodes),
        ms: capped_sum(p.tel.ms, s.ms),
        chunks: if p.tel.chunks == u32::MAX {
            p.tel.chunks
        } else {
            (p.tel.chunks + 1) as u32
        },
        ..p.tel
    };
    if !p.choosing {
        Pondering { tel, ..p }
    } else if chosen(p, s) != -1 {
        Pondering {
            tel,
            hint: -1i16,
            choosing: false,
            probe_ms: 0,
            probe_best: -1i16,
            ..p
        }
    } else {
        Pondering {
            tel,
            hint: -1i16,
            probe_ms: capped_sum(p.probe_ms, 50),
            probe_best: probe_best_after(p, s),
            ..p
        }
    }
}

/// A command heard between two slices.
#[derive(Clone, Copy, Debug, PartialEq, Eq, Structural)]
pub enum Heard {
    Nothing,
    GoTimed(u64),
    Stop,
    PonderHit(u64),
    MoveMiss(u64),
    /// A new position with this key.
    SetGame(u32, u32),
    Quit,
}

/// What the search thread does next.
#[derive(Clone, Copy, Debug, PartialEq, Eq, Structural)]
pub enum PonderStep {
    /// Another slice.
    GoOn,
    /// Search for this long; first go back from the node stood on.
    ThinkAfterReturn(u64),
    /// Search for this long where it stands.
    ThinkHere(u64),
    /// Go to the new position, forget by surprise, and search for this long.
    ThinkOnNewGame(u64),
    /// Answer with this move.
    Answer(i16),
    /// Go to the new position and ponder on.
    Replace,
    /// End the thread.
    Leave,
}

/// What a command does to pondering, and what comes next.
pub open spec fn heard(p: Pondering, c: Heard) -> (Pondering, PonderStep) {
    match c {
        Heard::Nothing => (p, PonderStep::GoOn),
        Heard::GoTimed(ms) => (
            p,
            if p.stands_on is Some {
                PonderStep::ThinkAfterReturn(ms)
            } else {
                PonderStep::ThinkHere(ms)
            },
        ),
        Heard::Stop => (p, PonderStep::Answer(p.last_mv)),
        Heard::PonderHit(ms) => (
            Pondering { tel: PonderTelemetry { hit: p.tel.predicted != -1, ..p.tel }, ..p },
            PonderStep::ThinkHere(ms),
        ),
        Heard::MoveMiss(ms) => (p, PonderStep::ThinkOnNewGame(ms)),
        Heard::SetGame(lo, hi) => (
            Pondering {
                tel: PonderTelemetry { hit: p.tel.hit || p.stands_on == Some((lo, hi)), ..p.tel },
                last_mv: -1i16,
                choosing: true,
                probe_ms: 0,
                probe_best: -1i16,
                ..p
            },
            PonderStep::Replace,
        ),
        Heard::Quit => (p, PonderStep::Leave),
    }
}

impl Pondering {
    /// Pondering starts, with a reply to stand on if it is a move.
    pub fn start(hint: i16) -> (p: Pondering)
        ensures
            p == (Pondering {
                tel: PonderTelemetry {
                    nodes: 0,
                    chunks: 0,
                    ms: 0,
                    predicted: -1i16,
                    hit: false,
                },
                last_mv: -1i16,
                stands_on: None,
                hint,
                choosing: true,
                probe_ms: 0,
                probe_best: -1i16,
            }),
    {
        Pondering {
            tel: PonderTelemetry::new(),
            last_mv: moves::TITANIUM_NO_MOVE,
            stands_on: None,
            hint,
            choosing: true,
            probe_ms: 0,
            probe_best: moves::TITANIUM_NO_MOVE,
        }
    }

    /// Takes a finished slice on `cur`. A reply chosen by it is stood on unless it ends the
    /// game; the move to apply is returned.
    pub fn after_slice(&mut self, s: Slice, cur: &GameState) -> (stand: Option<i16>)
        requires
            cur.wf(),
        ensures
            ({
                let m = chosen(*old(self), s);
                let q = game::played(cur@, m as int);
                let base = sliced(*old(self), s);
                let stands = m != -1 && session::takes(cur@, m as int) && game::winner_of(q) < 0;
                let stood = if stands {
                    Pondering {
                        tel: PonderTelemetry { predicted: m, ..base.tel },
                        stands_on: Some((q.hash_lo, q.hash_hi)),
                        ..base
                    }
                } else {
                    base
                };
                &&& stand == if stands {
                    Some(m)
                } else {
                    None
                }
                &&& *final(self) == if s.mv != -1 && stood.stands_on is Some {
                    Pondering { last_mv: s.mv, ..stood }
                } else {
                    stood
                }
            }),
    {
        let was = *self;
        let mut tel = was.tel;
        tel.nodes = was.tel.nodes.saturating_add(s.nodes);
        tel.ms = was.tel.ms.saturating_add(s.ms);
        tel.chunks = was.tel.chunks.saturating_add(1);
        let mut next = was;
        next.tel = tel;
        let mut stand: Option<i16> = None;
        if was.choosing {
            let best: i16 = if s.mv != moves::TITANIUM_NO_MOVE {
                s.mv
            } else {
                was.probe_best
            };
            let spent: u64 = was.probe_ms.saturating_add(PONDER_CHUNK_MS);
            let m: i16 = if was.hint != moves::TITANIUM_NO_MOVE {
                was.hint
            } else if spent >= PONDER_PROBE_MS {
                best
            } else {
                moves::TITANIUM_NO_MOVE
            };
            next.hint = moves::TITANIUM_NO_MOVE;
            if m != moves::TITANIUM_NO_MOVE {
                next.choosing = false;
                next.probe_ms = 0;
                next.probe_best = moves::TITANIUM_NO_MOVE;
                if session::takes_move(cur, m) {
                    let mut child = cur.clone();
                    child.make_move(m);
                    if child.winner() < 0 {
                        next.stands_on = Some((child.hash_lo, child.hash_hi));
                        next.tel.predicted = m;
                        stand = Some(m);
                    }
                }
            } else {
                next.probe_ms = spent;
                next.probe_best = best;
            }
        }
        if s.mv != moves::TITANIUM_NO_MOVE && next.stands_on.is_some() {
            next.last_mv = s.mv;
        }
        *self = next;
        stand
    }

    /// Takes a command heard between two slices.
    pub fn hear(&mut self, c: Heard) -> (step: PonderStep)
        ensures
            (*final(self), step) == heard(*old(self), c),
    {
        match c {
            Heard::Nothing => PonderStep::GoOn,
            Heard::GoTimed(ms) => if self.stands_on.is_some() {
                PonderStep::ThinkAfterReturn(ms)
            } else {
                PonderStep::ThinkHere(ms)
            },
            Heard::Stop => PonderStep::Answer(self.last_mv),
            Heard::PonderHit(ms) => {
                self.tel.hit = self.tel.predicted != moves::TITANIUM_NO_MOVE;
                PonderStep::ThinkHere(ms)
            },
            Heard::MoveMiss(ms) => PonderStep::ThinkOnNewGame(ms),
            Heard::SetGame(lo, hi) => {
                if let Some((a, b)) = self.stands_on {
                    if a == lo && b == hi {
                        self.tel.hit = true;
                    }
                }
                self.last_mv = moves::TITANIUM_NO_MOVE;
                self.choosing = true;
                self.probe_ms = 0;
                self.probe_best = moves::TITANIUM_NO_MOVE;
                PonderStep::Replace
            },
            Heard::Quit => PonderStep::Leave,
        }
    }
}

/// Work done while pondering is never forgotten: no slice and no command lowers the counts.
pub proof fn law_ponder_counts_only_grow(p: Pondering, s: Slice, c: Heard)
    ensures
        sliced(p, s).tel.nodes >= p.tel.nodes,
        sliced(p, s).tel.ms >= p.tel.ms,
        sliced(p, s).tel.chunks >= p.tel.chunks,
        heard(p, c).0.tel.nodes == p.tel.nodes,
        heard(p, c).0.tel.ms == p.tel.ms,
        heard(p, c).0.tel.chunks == p.tel.chunks,
{
}

/// A position update counts as a correct prediction exactly when the opponent walked into
/// the node stood on, or had before.
pub proof fn law_hit_is_credited(p: Pondering, lo: u32, hi: u32)
    ensures
        heard(p, Heard::SetGame(lo, hi)).0.tel.hit == (p.tel.hit || p.stands_on == Some((lo, hi))),
{
}

} // verus!

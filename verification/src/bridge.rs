//! A second board kept in step with the game, for services that walk the tree on their own.

use crate::board;
use crate::game;
use crate::game::GameState;
use crate::movegen;
use crate::think;
use vstd::prelude::*;

verus! {

/// The mirrored board and how many moves it is ahead of the game.
pub struct TiBridge {
    pub board: GameState,
    pub ahead: usize,
}

/// The last `n` moves can be taken back one after the other.
pub open spec fn undoable(p: game::Position, n: nat) -> bool
    decreases n,
{
    n == 0 || (game::can_take_back(p) && undoable(game::taken_back(p), (n - 1) as nat))
}

/// The position after the first `n` recorded moves; a move that cannot be made is passed
/// over.
pub open spec fn replayed(p: game::Position, hist: Seq<game::Played>, n: int) -> game::Position
    decreases n,
{
    if n <= 0 {
        p
    } else {
        let q = replayed(p, hist, n - 1);
        let m = hist[n - 1].mv as int;
        if game::accepts(q, m) {
            game::played(q, m)
        } else {
            q
        }
    }
}

impl TiBridge {
    pub open spec fn wf(&self) -> bool {
        self.board.wf() && undoable(self.board@, self.ahead as nat)
    }

    /// A board with the game's moves on it.
    pub fn from_game(g: &GameState) -> (b: TiBridge)
        requires
            g.wf(),
        ensures
            b.wf(),
            b.ahead == 0,
            b.board@ == replayed(crate::session::start_position(), g@.hist, g@.hist.len() as int),
    {
        let mut board = GameState::new();
        proof {
            crate::session::lemma_start(board);
        }
        let n: usize = g.hist_len();
        let mut i: usize = 0;
        while i < n
            invariant
                i <= n,
                n == g@.hist.len(),
                board.wf(),
                board@ == replayed(crate::session::start_position(), g@.hist, i as int),
            decreases n - i,
        {
            let m: i16 = g.hist[i].mv;
            if board.accepts_move(m) {
                board.make_move(m);
            }
            i += 1;
        }
        TiBridge { board, ahead: 0 }
    }

    /// Plays a move ahead of the game.
    pub fn push(&mut self, m: i16)
        requires
            old(self).wf(),
            game::accepts(old(self).board@, m as int),
            old(self).ahead < usize::MAX,
        ensures
            final(self).wf(),
            final(self).board@ == game::played(old(self).board@, m as int),
            final(self).ahead == old(self).ahead + 1,
    {
        proof {
            game::law_taken_back_undoes_played(self.board@, m as int);
        }
        self.board.make_move(m);
        self.ahead = self.ahead + 1;
    }

    /// Takes the last move ahead back; nothing when there is none.
    pub fn pop(&mut self)
        requires
            old(self).wf(),
        ensures
            final(self).wf(),
            old(self).ahead == 0 ==> *final(self) == *old(self),
            old(self).ahead > 0 ==> final(self).ahead == old(self).ahead - 1 && final(self).board@
                == game::taken_back(old(self).board@),
    {
        if self.ahead > 0 {
            self.board.unmake_move();
            self.ahead = self.ahead - 1;
        }
    }

    /// All legal moves.
    pub fn gen_legal_ace(&self) -> (out: Vec<i16>)
        requires
            self.wf(),
        ensures
            out@ == think::legal_moves(self.board@),
    {
        let none: Vec<bool> = Vec::new();
        assert(none@ =~= Seq::empty());
        movegen::gen_moves_inner(&self.board, 0, movegen::WallPolicy::Lazy, &none, 0)
    }
}

/// A move played ahead and taken back leaves the board as it was.
pub proof fn law_pop_undoes_push(p: game::Position, m: int)
    requires
        game::position_ok(p),
        game::accepts(p, m),
    ensures
        game::taken_back(game::played(p, m)) == p,
{
    game::law_taken_back_undoes_played(p, m);
}

} // verus!

//! Choosing among root moves once the game is decided: the stubborn loser and the
//! clean winner.

use crate::moves;
use crate::score;
use vstd::prelude::*;

verus! {

/// Six numbers compared from the first to the last; larger is better.
pub type Rank = (int, int, int, int, int, int);

/// The first number in which the ranks differ decides.
pub open spec fn outranks(k: Rank, l: Rank) -> bool {
    if k.0 != l.0 {
        k.0 > l.0
    } else if k.1 != l.1 {
        k.1 > l.1
    } else if k.2 != l.2 {
        k.2 > l.2
    } else if k.3 != l.3 {
        k.3 > l.3
    } else if k.4 != l.4 {
        k.4 > l.4
    } else {
        k.5 > l.5
    }
}

/// Ranking is a strict order in which any two different ranks compare.
pub proof fn law_ranks_are_strictly_ordered(k: Rank, l: Rank, m: Rank)
    ensures
        !outranks(k, k),
        !(outranks(k, l) && outranks(l, k)),
        outranks(k, l) && outranks(l, m) ==> outranks(k, m),
        k != l ==> outranks(k, l) || outranks(l, k),
{
}

pub open spec fn flag(b: bool) -> int {
    if b {
        1
    } else {
        0
    }
}

/// Rank of a root move in a lost position. Any move that is not a proven loss comes
/// first, by score. Among losses: do not lose ground, then hold the opponent furthest
/// from goal, then stay nearest to one's own. Ties go to the static evaluation and
/// then to the move order.
pub open spec fn defense_rank(
    score: int,
    static_eval: int,
    own_before: int,
    own_after: int,
    opp_after: int,
    order: int,
) -> Rank {
    if score::proven_loss(score) {
        (0, flag(own_after <= own_before), opp_after, -own_after, static_eval, -order)
    } else {
        (1, score, 0, 0, static_eval, -order)
    }
}

/// Rank of a root move in a won position: score first, then pawn moves before walls,
/// among walls the one that pushes the opponent back further, then attention, static
/// evaluation and move order.
pub open spec fn clean_win_rank(
    score: int,
    static_eval: int,
    is_pawn: bool,
    opp_after: int,
    cat_heat: int,
    order: int,
) -> Rank {
    (
        score,
        flag(is_pawn),
        if is_pawn {
            0
        } else {
            opp_after
        },
        cat_heat,
        static_eval,
        -order,
    )
}

/// Stubborn-loser comparison: is the new candidate better than the best so far? A best
/// score of `i32::MIN` stands for none yet.
pub fn better_defense_candidate(
    score: i32,
    static_eval: i32,
    own_dist_before: i32,
    own_dist_after: i32,
    opp_dist_after: i32,
    order: usize,
    best_score: i32,
    best_static: i32,
    best_own_dist_after: i32,
    best_opp_dist_after: i32,
    best_order: usize,
) -> (better: bool)
    requires
        score > i32::MIN,
    ensures
        better == (best_score == i32::MIN || outranks(
            defense_rank(
                score as int,
                static_eval as int,
                own_dist_before as int,
                own_dist_after as int,
                opp_dist_after as int,
                order as int,
            ),
            defense_rank(
                best_score as int,
                best_static as int,
                own_dist_before as int,
                best_own_dist_after as int,
                best_opp_dist_after as int,
                best_order as int,
            ),
        )),
{
    if best_score == i32::MIN {
        return true;
    }
    let loss: bool = score::is_proven_loss_score(score);
    let best_loss: bool = score::is_proven_loss_score(best_score);
    if loss != best_loss {
        return !loss;
    }
    if loss {
        let worsens: bool = own_dist_after > own_dist_before;
        let best_worsens: bool = best_own_dist_after > own_dist_before;
        if worsens != best_worsens {
            return !worsens;
        }
        if opp_dist_after != best_opp_dist_after {
            return opp_dist_after > best_opp_dist_after;
        }
        if own_dist_after != best_own_dist_after {
            return own_dist_after < best_own_dist_after;
        }
    } else if score != best_score {
        return score > best_score;
    }
    if static_eval != best_static {
        return static_eval > best_static;
    }
    order < best_order
}

/// Clean-winner comparison: only exact score ties are broken.
pub fn better_clean_win_candidate(
    score: i32,
    static_eval: i32,
    is_pawn_move: bool,
    opp_dist_after: i32,
    cat_heat: i32,
    order: usize,
    best_score: i32,
    best_static: i32,
    best_is_pawn_move: bool,
    best_opp_dist_after: i32,
    best_cat_heat: i32,
    best_order: usize,
) -> (better: bool)
    ensures
        better == (best_score == i32::MIN || outranks(
            clean_win_rank(
                score as int,
                static_eval as int,
                is_pawn_move,
                opp_dist_after as int,
                cat_heat as int,
                order as int,
            ),
            clean_win_rank(
                best_score as int,
                best_static as int,
                best_is_pawn_move,
                best_opp_dist_after as int,
                best_cat_heat as int,
                best_order as int,
            ),
        )),
{
    if best_score == i32::MIN {
        return true;
    }
    if score != best_score {
        return score > best_score;
    }
    if is_pawn_move != best_is_pawn_move {
        return is_pawn_move;
    }
    if !is_pawn_move && opp_dist_after != best_opp_dist_after {
        return opp_dist_after > best_opp_dist_after;
    }
    if cat_heat != best_cat_heat {
        return cat_heat > best_cat_heat;
    }
    if static_eval != best_static {
        return static_eval > best_static;
    }
    order < best_order
}

/// Display key of a lost-position candidate; higher is preferred.
pub open spec fn selection_key(
    score: int,
    static_eval: int,
    own_worsens: bool,
    own_after: int,
    opp_after: int,
) -> int {
    if score::proven_loss(score) {
        -2_000_000 - 1_000_000 * flag(own_worsens) + opp_after * 100 - own_after
    } else if score::proven_win(score) {
        1_000_000 - (score::dtm(score)->0)
    } else {
        static_eval
    }
}

/// Selection key for lost-position root defense. Display only: the comparison itself is
/// `better_defense_candidate`.
pub fn defense_selection_key(
    score: i32,
    static_eval: i32,
    own_worsens: bool,
    own_dist_after: i32,
    opp_dist_after: i32,
) -> (key: i32)
    requires
        score > i32::MIN,
        score + 900_000 <= i32::MAX,
        score::proven_loss(score as int) ==> -20_000_000 <= opp_dist_after <= 20_000_000
            && -100_000_000 <= own_dist_after <= 100_000_000,
    ensures
        key == selection_key(
            score as int,
            static_eval as int,
            own_worsens,
            own_dist_after as int,
            opp_dist_after as int,
        ),
{
    if score::is_proven_loss_score(score) {
        let worsen_penalty: i32 = if own_worsens {
            -1_000_000
        } else {
            0
        };
        -2_000_000 + worsen_penalty + opp_dist_after * 100 - own_dist_after
    } else if score::is_proven_win_score(score) {
        match score::proven_score_dtm(score) {
            Some(d) => 1_000_000 - d,
            None => 1_000_000,
        }
    } else {
        static_eval
    }
}

/// One root move of a lost-position pass.
#[derive(Clone, Debug)]
pub struct RootDefenseDiag {
    pub mv: i16,
    pub full_depth_searched: bool,
    pub child_depth_used: i32,
    pub result_class: &'static str,
    pub dtm: Option<i32>,
    pub search_score: i32,
    pub static_eval: i32,
    pub nodes: u64,
    pub selection_key: i32,
    pub own_dist_before: i32,
    pub own_dist_after: i32,
    pub opp_dist_after: i32,
}

impl RootDefenseDiag {
    /// Rank of the entry at position `order` of its pass.
    pub open spec fn rank(&self, order: int) -> Rank {
        defense_rank(
            self.search_score as int,
            self.static_eval as int,
            self.own_dist_before as int,
            self.own_dist_after as int,
            self.opp_dist_after as int,
            order,
        )
    }

    /// Everything derived in the entry follows from what was measured.
    pub open spec fn consistent(&self) -> bool {
        &&& self.full_depth_searched
        &&& self.result_class@ == score::result_class(self.search_score as int)
        &&& match self.dtm {
            Some(v) => score::dtm(self.search_score as int) == Some(v as int),
            None => score::dtm(self.search_score as int) is None,
        }
        &&& self.selection_key == selection_key(
            self.search_score as int,
            self.static_eval as int,
            self.own_dist_after > self.own_dist_before,
            self.own_dist_after as int,
            self.opp_dist_after as int,
        )
    }

    /// Records one fully searched root move.
    pub fn record(
        mv: i16,
        child_depth: i32,
        search_score: i32,
        static_eval: i32,
        nodes: u64,
        own_dist_before: i32,
        own_dist_after: i32,
        opp_dist_after: i32,
    ) -> (d: Self)
        requires
            search_score > i32::MIN,
            search_score + 900_000 <= i32::MAX,
            -20_000_000 <= opp_dist_after <= 20_000_000,
            -100_000_000 <= own_dist_after <= 100_000_000,
        ensures
            d.consistent(),
            d.mv == mv,
            d.child_depth_used == child_depth,
            d.search_score == search_score,
            d.static_eval == static_eval,
            d.nodes == nodes,
            d.own_dist_before == own_dist_before,
            d.own_dist_after == own_dist_after,
            d.opp_dist_after == opp_dist_after,
    {
        RootDefenseDiag {
            mv,
            full_depth_searched: true,
            child_depth_used: child_depth,
            result_class: score::score_result_class(search_score),
            dtm: score::proven_score_dtm(search_score),
            search_score,
            static_eval,
            nodes,
            selection_key: defense_selection_key(
                search_score,
                static_eval,
                own_dist_after > own_dist_before,
                own_dist_after,
                opp_dist_after,
            ),
            own_dist_before,
            own_dist_after,
            opp_dist_after,
        }
    }
}

/// The entry that outranks all others of a lost-position pass.
pub fn pick_defense(entries: &Vec<RootDefenseDiag>) -> (best: usize)
    requires
        entries@.len() > 0,
        forall|i: int| 0 <= i < entries@.len() ==> (#[trigger] entries@[i]).search_score > i32::MIN,
        forall|i: int|
            0 <= i < entries@.len() ==> (#[trigger] entries@[i]).own_dist_before
                == entries@[0].own_dist_before,
    ensures
        best < entries@.len(),
        forall|i: int|
            0 <= i < entries@.len() && i != best ==> outranks(
                entries@[best as int].rank(best as int),
                #[trigger] entries@[i].rank(i),
            ),
{
    let mut best: usize = 0;
    let mut i: usize = 1;
    while i < entries.len()
        invariant
            1 <= i <= entries@.len(),
            best < i,
            forall|k: int|
                0 <= k < entries@.len() ==> (#[trigger] entries@[k]).search_score > i32::MIN,
            forall|k: int|
                0 <= k < entries@.len() ==> (#[trigger] entries@[k]).own_dist_before
                    == entries@[0].own_dist_before,
            forall|k: int|
                0 <= k < i && k != best ==> outranks(
                    entries@[best as int].rank(best as int),
                    #[trigger] entries@[k].rank(k),
                ),
        decreases entries@.len() - i,
    {
        let e = &entries[i];
        let b = &entries[best];
        let better: bool = better_defense_candidate(
            e.search_score,
            e.static_eval,
            e.own_dist_before,
            e.own_dist_after,
            e.opp_dist_after,
            i,
            b.search_score,
            b.static_eval,
            b.own_dist_after,
            b.opp_dist_after,
            best,
        );
        proof {
            let new = entries@[i as int].rank(i as int);
            let old_best = entries@[best as int].rank(best as int);
            law_ranks_are_strictly_ordered(new, old_best, old_best);
            assert(entries@[i as int].own_dist_before == entries@[best as int].own_dist_before);
            assert(better == outranks(new, old_best));
            assert forall|k: int| better && 0 <= k < i && k != best implies outranks(
                new,
                #[trigger] entries@[k].rank(k),
            ) by {
                law_ranks_are_strictly_ordered(new, old_best, entries@[k].rank(k));
            }
        }
        if better {
            best = i;
        }
        i += 1;
    }
    best
}

/// One root move of a won-position pass.
#[derive(Clone, Copy, Debug, PartialEq, Eq, Structural)]
pub struct CleanWinCandidate {
    pub mv: i16,
    pub search_score: i32,
    pub static_eval: i32,
    pub opp_dist_after: i32,
    pub cat_heat: i32,
}

impl CleanWinCandidate {
    pub open spec fn rank(&self, order: int) -> Rank {
        clean_win_rank(
            self.search_score as int,
            self.static_eval as int,
            moves::pawn_id(self.mv as int),
            self.opp_dist_after as int,
            self.cat_heat as int,
            order,
        )
    }
}

/// The entry that outranks all others of a won-position pass.
pub fn pick_clean_win(entries: &Vec<CleanWinCandidate>) -> (best: usize)
    requires
        entries@.len() > 0,
        forall|i: int| 0 <= i < entries@.len() ==> (#[trigger] entries@[i]).search_score > i32::MIN,
    ensures
        best < entries@.len(),
        forall|i: int|
            0 <= i < entries@.len() && i != best ==> outranks(
                entries@[best as int].rank(best as int),
                #[trigger] entries@[i].rank(i),
            ),
{
    let mut best: usize = 0;
    let mut i: usize = 1;
    while i < entries.len()
        invariant
            1 <= i <= entries@.len(),
            best < i,
            forall|k: int|
                0 <= k < entries@.len() ==> (#[trigger] entries@[k]).search_score > i32::MIN,
            forall|k: int|
                0 <= k < i && k != best ==> outranks(
                    entries@[best as int].rank(best as int),
                    #[trigger] entries@[k].rank(k),
                ),
        decreases entries@.len() - i,
    {
        let e = entries[i];
        let b = entries[best];
        let better: bool = better_clean_win_candidate(
            e.search_score,
            e.static_eval,
            moves::is_pawn_move(e.mv),
            e.opp_dist_after,
            e.cat_heat,
            i,
            b.search_score,
            b.static_eval,
            moves::is_pawn_move(b.mv),
            b.opp_dist_after,
            b.cat_heat,
            best,
        );
        proof {
            let new = entries@[i as int].rank(i as int);
            let old_best = entries@[best as int].rank(best as int);
            law_ranks_are_strictly_ordered(new, old_best, old_best);
            assert(entries@[best as int].search_score > i32::MIN);
            assert(better == outranks(new, old_best));
            assert forall|k: int| better && 0 <= k < i && k != best implies outranks(
                new,
                #[trigger] entries@[k].rank(k),
            ) by {
                law_ranks_are_strictly_ordered(new, old_best, entries@[k].rank(k));
            }
        }
        if better {
            best = i;
        }
        i += 1;
    }
    best
}

/// A lost position never prefers a proven loss to anything else, and between two losses
/// never one that gives ground to one that holds it.
pub proof fn law_stubborn_loser(a: RootDefenseDiag, b: RootDefenseDiag, i: int, j: int)
    requires
        a.own_dist_before == b.own_dist_before,
        outranks(a.rank(i), b.rank(j)),
    ensures
        score::proven_loss(a.search_score as int) ==> score::proven_loss(b.search_score as int),
        score::proven_loss(a.search_score as int) && a.own_dist_after > a.own_dist_before
            ==> b.own_dist_after > b.own_dist_before,
        score::proven_loss(a.search_score as int) && (a.own_dist_after > a.own_dist_before) == (
        b.own_dist_after > b.own_dist_before) ==> a.opp_dist_after >= b.opp_dist_after,
{
}

/// A won position never gives up score, and between equal scores never prefers a wall
/// to a pawn move.
pub proof fn law_clean_winner(a: CleanWinCandidate, b: CleanWinCandidate, i: int, j: int)
    requires
        outranks(a.rank(i), b.rank(j)),
    ensures
        a.search_score >= b.search_score,
        a.search_score == b.search_score && moves::pawn_id(b.mv as int) ==> moves::pawn_id(
            a.mv as int,
        ),
{
}

} // verus!

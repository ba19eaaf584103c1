//! Choosing a root move when the game has become a race.

use crate::board;
use crate::game;
use crate::game::GameState;
use crate::moves;
use crate::race::{RaceBound, RaceProver};
use crate::race_cache;
use crate::race_cache::Clock;
use crate::race_table;
use crate::score;
use crate::score::RaceResultInfo;
use vstd::prelude::*;

verus! {

/// Uncertainty of an arrival estimate, in plies.
pub const RACE_APPROX_TOLERANCE_PLIES: u16 = 1;

/// Value of a race move for the mover, from the table: 1 for an arrival, otherwise one
/// ply more than the reply's value, with the opposite sign. `None` when undecided.
pub open spec fn move_value(tbl: Seq<i16>, i: int, m: int) -> Option<int> {
    if board::is_goal(race_table::turn_at(i), m) {
        Some(1)
    } else {
        let v = tbl[race_table::child_index(i, m)] as int;
        if v > 0 {
            Some(-(v + 1))
        } else if v < 0 {
            Some(1 - v)
        } else {
            None
        }
    }
}

/// Order of race moves: any win before any loss, fast wins and slow losses first.
pub open spec fn speed_key(v: int) -> int {
    if v > 0 {
        1_000_000 - v
    } else {
        -1_000_000 - v
    }
}

/// Tie-break after pawn move `m`: how much further the opponent has to go.
pub open spec fn tie_eval(p: game::Position, m: int) -> int {
    board::goal_distance(p.w, 1 - p.turn, game::pawn_of(p, 1 - p.turn)) - board::goal_distance(
        p.w,
        p.turn,
        m,
    )
}

/// Move `k` of the position has a value.
pub open spec fn has_value(p: game::Position, tbl: Seq<i16>, k: int) -> bool {
    move_value(tbl, race_cache::state_of(p), game::pawn_moves(p)[k] as int) is Some
}

/// Speed key of move `k`.
pub open spec fn key_at(p: game::Position, tbl: Seq<i16>, k: int) -> int {
    speed_key(move_value(tbl, race_cache::state_of(p), game::pawn_moves(p)[k] as int)->0)
}

/// Tie-break of move `k`.
pub open spec fn tie_at(p: game::Position, k: int) -> int {
    tie_eval(p, game::pawn_moves(p)[k] as int)
}

/// Move `k` is the first of the best among the first `n` moves with a value.
pub open spec fn best_upto(p: game::Position, tbl: Seq<i16>, n: int, k: int) -> bool {
    &&& 0 <= k < n
    &&& has_value(p, tbl, k)
    &&& forall|j: int|
        0 <= j < n && j != k && #[trigger] has_value(p, tbl, j) ==> {
            ||| key_at(p, tbl, k) > key_at(p, tbl, j)
            ||| key_at(p, tbl, k) == key_at(p, tbl, j) && tie_at(p, k) > tie_at(p, j)
            ||| key_at(p, tbl, k) == key_at(p, tbl, j) && tie_at(p, k) == tie_at(p, j) && k < j
        }
}

/// In a decided race some move keeps the value of the position, and none does better.
proof fn lemma_decided_race_has_best(p: game::Position, tbl: Seq<i16>, rv: int)
    requires
        game::position_ok(p),
        race_table::solves(p.w, tbl),
        race_table::live(race_cache::state_of(p)),
        tbl[race_cache::state_of(p)] == rv,
        rv != 0,
    ensures
        exists|k: int|
            0 <= k < game::pawn_moves(p).len() && #[trigger] has_value(p, tbl, k) && move_value(
                tbl,
                race_cache::state_of(p),
                game::pawn_moves(p)[k] as int,
            ) == Some(rv),
        forall|k: int|
            0 <= k < game::pawn_moves(p).len() && #[trigger] has_value(p, tbl, k) ==> speed_key(
                rv,
            ) >= key_at(p, tbl, k) && (key_at(p, tbl, k) == speed_key(rv) ==> move_value(
                tbl,
                race_cache::state_of(p),
                game::pawn_moves(p)[k] as int,
            ) == Some(rv)),
{
    let w = p.w;
    let i = race_cache::state_of(p);
    let ms = game::pawn_moves(p);
    race_table::lemma_state_index(p.p0, p.p1, p.turn);
    assert(ms == race_table::race_moves(w, i));
    assert(race_table::value_is(w, i, rv));
    assert(-13_122 <= rv <= 13_122);
    assert forall|k: int| 0 <= k < ms.len() implies {
        let m = #[trigger] ms[k] as int;
        let c = race_table::child_index(i, m);
        board::is_goal(p.turn, m) || (race_table::live(c) && race_table::race_value_is(
            w,
            c,
            tbl[c] as int,
        ) && -13_122 <= tbl[c] <= 13_122)
    } by {
        let m = ms[k] as int;
        race_table::lemma_race_moves_on_board(w, i, k);
        if !board::is_goal(p.turn, m) {
            race_table::lemma_child_is_live(i, m);
            let c = race_table::child_index(i, m);
            assert(race_table::value_is(w, c, tbl[c] as int));
        }
    }
    // No move beats the value of the position.
    assert forall|k: int|
        0 <= k < ms.len() && #[trigger] has_value(p, tbl, k) implies speed_key(rv) >= key_at(
        p,
        tbl,
        k,
    ) && (key_at(p, tbl, k) == speed_key(rv) ==> move_value(tbl, i, ms[k] as int) == Some(rv)) by {
        let m = ms[k] as int;
        let c = race_table::child_index(i, m);
        let mv = move_value(tbl, i, m)->0;
        if board::is_goal(p.turn, m) {
            assert(race_table::decided_within(w, i, true, 1));
            if rv < 0 {
                race_table::law_race_outcome_is_unique(w, i, 1, (-rv) as nat);
            }
        } else if mv > 0 {
            let v = -tbl[c] as int;
            assert(race_table::decided_within(w, c, false, v as nat));
            assert(race_table::decided_within(w, i, true, (v + 1) as nat)) by {
                assert(board::is_goal(p.turn, ms[k] as int) || race_table::decided_within(
                    w,
                    race_table::child_index(i, ms[k] as int),
                    false,
                    v as nat,
                ));
            }
            if rv < 0 {
                race_table::law_race_outcome_is_unique(w, i, (v + 1) as nat, (-rv) as nat);
            } else if v + 1 < rv {
                race_table::lemma_decided_grows(w, i, true, (v + 1) as nat, (rv - 1) as nat);
            }
        } else if rv < 0 {
            // A lost position: this reply wins within the remaining plies.
            assert(race_table::decided_within(w, i, false, (-rv) as nat));
            assert(race_table::decided_within(w, c, true, (-rv - 1) as nat));
            let v = tbl[c] as int;
            if v > -rv - 1 {
                race_table::lemma_decided_grows(w, c, true, (-rv - 1) as nat, (v - 1) as nat);
            }
        }
    }
    // Some move keeps it.
    if rv > 0 {
        assert(race_table::decided_within(w, i, true, rv as nat));
        let k = choose|k: int|
            0 <= k < ms.len() && (board::is_goal(p.turn, #[trigger] ms[k] as int)
                || race_table::decided_within(
                w,
                race_table::child_index(i, ms[k] as int),
                false,
                (rv - 1) as nat,
            ));
        let m = ms[k] as int;
        let c = race_table::child_index(i, m);
        if board::is_goal(p.turn, m) {
            assert(race_table::decided_within(w, i, true, 1));
            if rv > 1 {
                race_table::lemma_decided_grows(w, i, true, 1, (rv - 1) as nat);
            }
            assert(has_value(p, tbl, k));
        } else {
            let v = tbl[c] as int;
            if v >= 0 {
                if v > 0 {
                    race_table::law_race_outcome_is_unique(w, c, v as nat, (rv - 1) as nat);
                } else {
                    assert(!race_table::decided_within(w, c, true, (rv - 1) as nat));
                }
            } else {
                if -v > rv - 1 {
                    race_table::lemma_decided_grows(w, c, false, (rv - 1) as nat, (-v - 1) as nat);
                }
                assert(has_value(p, tbl, k));
                assert(speed_key(rv) >= key_at(p, tbl, k));
            }
        }
        assert(has_value(p, tbl, k) && move_value(tbl, i, ms[k] as int) == Some(rv));
    } else {
        assert(race_table::decided_within(w, i, false, (-rv) as nat));
        if forall|k: int|
            0 <= k < ms.len() && #[trigger] has_value(p, tbl, k) ==> move_value(
                tbl,
                i,
                ms[k] as int,
            ) != Some(rv) {
            // Then every reply would win one ply sooner, and so would the loss come sooner.
            assert forall|k: int| 0 <= k < ms.len() implies !board::is_goal(
                p.turn,
                #[trigger] ms[k] as int,
            ) && race_table::decided_within(
                w,
                race_table::child_index(i, ms[k] as int),
                true,
                (-rv - 2) as nat,
            ) && -rv >= 2 by {
                let c = race_table::child_index(i, ms[k] as int);
                assert(race_table::decided_within(w, c, true, (-rv - 1) as nat));
                let v = tbl[c] as int;
                if v <= 0 {
                    if v < 0 {
                        race_table::law_race_outcome_is_unique(
                            w,
                            c,
                            (-rv - 1) as nat,
                            (-v) as nat,
                        );
                    } else {
                        assert(!race_table::decided_within(w, c, true, (-rv - 1) as nat));
                    }
                }
                assert(v > 0);
                assert(has_value(p, tbl, k));
                assert(v <= -rv - 2) by {
                    if v > -rv - 1 {
                        race_table::lemma_decided_grows(
                            w,
                            c,
                            true,
                            (-rv - 1) as nat,
                            (v - 1) as nat,
                        );
                    }
                }
                race_table::lemma_decided_grows(w, c, true, v as nat, (-rv - 2) as nat);
            }
            assert(ms.len() > 0);
            assert(!board::is_goal(p.turn, ms[0] as int));
            assert(-rv >= 2);
            assert(race_table::decided_within(w, i, false, (-rv - 1) as nat));
        }
    }
}

/// Fastest win or slowest loss among the pawn moves, ties by distance. With `rv` the
/// race value of the position, decided, a move is always found and keeps that value.
pub fn race_root_pick(tbl: &Vec<i16>, g: &GameState, rv: i32) -> (pick: Option<(i16, i32, i32)>)
    requires
        g.wf(),
        race_table::solves(g.topo(), tbl@),
    ensures
        pick matches Some((m, v, e)) ==> exists|k: int|
            {
                &&& #[trigger] best_upto(g@, tbl@, game::pawn_moves(g@).len() as int, k)
                &&& m == game::pawn_moves(g@)[k]
                &&& move_value(tbl@, race_cache::state_of(g@), m as int) == Some(v as int)
                &&& v == rv
                &&& e == tie_at(g@, k)
            },
        pick is None ==> forall|k: int| #[trigger]
            best_upto(g@, tbl@, game::pawn_moves(g@).len() as int, k) ==> move_value(
                tbl@,
                race_cache::state_of(g@),
                game::pawn_moves(g@)[k] as int,
            ) != Some(rv as int),
        race_table::live(race_cache::state_of(g@)) && rv == tbl@[race_cache::state_of(g@)] && rv
            != 0 ==> pick is Some,
{
    let ghost p = g@;
    let ghost i = race_cache::state_of(p);
    proof {
        race_table::lemma_state_index(p.p0, p.p1, p.turn);
    }
    let me: usize = g.turn;
    let d_me = g.compute_dist(me);
    let d_opp = g.compute_dist(1 - me);
    let opp_left: i32 = d_opp[g.pawn[1 - me]] as i32;
    proof {
        board::lemma_field_is_goal_distance(
            g.topo(),
            1 - me,
            d_opp@,
            game::pawn_of(p, 1 - me),
        );
    }
    let ms = g.gen_pawn_moves();
    let mut best: Option<(usize, i32, i32)> = None;
    let mut k: usize = 0;
    while k < ms.len()
        invariant
            g.wf(),
            g@ == p,
            i == race_cache::state_of(p),
            race_table::solves(g.topo(), tbl@),
            race_table::turn_at(i) == p.turn,
            race_table::pawn0_at(i) == p.p0,
            race_table::pawn1_at(i) == p.p1,
            0 <= i < 13_122,
            me == p.turn,
            board::dist_field(g.topo(), me as int, d_me@),
            opp_left == board::goal_distance(p.w, 1 - p.turn, game::pawn_of(p, 1 - p.turn)),
            0 <= opp_left <= 255,
            ms@ == game::pawn_moves(p),
            forall|j: int| 0 <= j < ms@.len() ==> moves::pawn_id(#[trigger] ms@[j] as int),
            k <= ms@.len(),
            match best {
                None => forall|j: int| 0 <= j < k ==> !(#[trigger] has_value(p, tbl@, j)),
                Some((b, v, e)) => {
                    &&& best_upto(p, tbl@, k as int, b as int)
                    &&& move_value(tbl@, i, ms@[b as int] as int) == Some(v as int)
                    &&& e == tie_at(p, b as int)
                    &&& -13_123 <= v <= 13_123
                },
            },
        decreases ms@.len() - k,
    {
        assert(moves::pawn_id(ms@[k as int] as int));
        let c: usize = ms[k] as usize;
        let mut value: i32 = 0;
        if board::is_goal_cell(me, c) {
            value = 1;
        } else {
            proof {
                if p.turn == 0 {
                    race_table::lemma_state_index(c as int, p.p1, 1);
                } else {
                    race_table::lemma_state_index(p.p0, c as int, 0);
                }
            }
            let idx: usize = if me == 0 {
                (c * 81 + g.pawn[1]) * 2 + 1
            } else {
                (g.pawn[0] * 81 + c) * 2
            };
            assert(idx == race_table::child_index(i, c as int));
            assert(race_table::value_is(g.topo(), idx as int, tbl@[idx as int] as int));
            let v: i32 = tbl[idx] as i32;
            if v > 0 {
                value = -(v + 1);
            } else if v < 0 {
                value = 1 - v;
            }
        }
        assert(has_value(p, tbl@, k as int) == (value != 0));
        if value != 0 {
            proof {
                board::lemma_field_is_goal_distance(g.topo(), me as int, d_me@, c as int);
            }
            let tie: i32 = opp_left - d_me[c] as i32;
            assert(tie == tie_at(p, k as int));
            let key: i32 = if value > 0 {
                1_000_000 - value
            } else {
                -1_000_000 - value
            };
            assert(key == key_at(p, tbl@, k as int));
            let better: bool = match best {
                None => true,
                Some((b, v, e)) => {
                    let best_key: i32 = if v > 0 {
                        1_000_000 - v
                    } else {
                        -1_000_000 - v
                    };
                    assert(best_key == key_at(p, tbl@, b as int));
                    key > best_key || (key == best_key && tie > e)
                },
            };
            if better {
                best = Some((k, value, tie));
            }
        }
        k += 1;
    }
    proof {
        if race_table::live(i) && rv == tbl@[i] && rv != 0 {
            lemma_decided_race_has_best(p, tbl@, rv as int);
        }
    }
    match best {
        Some((b, v, e)) => {
            proof {
                assert forall|j: int| #[trigger]
                    best_upto(p, tbl@, ms@.len() as int, j) implies j == b by {
                    if j != b {
                        assert(has_value(p, tbl@, j));
                        assert(has_value(p, tbl@, b as int));
                    }
                }
                if race_table::live(i) && rv == tbl@[i] && rv != 0 {
                    let j = choose|j: int|
                        0 <= j < ms@.len() && #[trigger] has_value(p, tbl@, j) && move_value(
                            tbl@,
                            i,
                            ms@[j] as int,
                        ) == Some(rv as int);
                    assert(key_at(p, tbl@, j) == speed_key(rv as int));
                    assert(has_value(p, tbl@, b as int));
                    assert(speed_key(rv as int) >= key_at(p, tbl@, b as int));
                }
            }
            if v == rv {
                Some((ms[b], v, e))
            } else {
                None
            }
        },
        None => None,
    }
}

/// A root move whose outcome is proven.
#[derive(Clone, Copy, Debug, PartialEq, Eq, Structural)]
pub struct RaceRootCandidate {
    pub mv: i16,
    pub root_wins: bool,
    pub approximate_plies: Option<u16>,
    pub exact_dtm: Option<u16>,
}

/// A resolved race root.
#[derive(Clone, Copy, Debug, PartialEq, Eq, Structural)]
pub struct RaceRootSolution {
    pub mv: i16,
    pub score: i32,
    pub info: RaceResultInfo,
    pub exact: bool,
    pub legal_moves: usize,
}

/// Least number of plies an estimate allows.
pub open spec fn estimate_low(plies: u16) -> int {
    if plies == 0 {
        0
    } else {
        plies - 1
    }
}

/// Greatest number of plies an estimate allows.
pub open spec fn estimate_high(plies: u16) -> int {
    if plies == u16::MAX {
        plies as int
    } else {
        plies + 1
    }
}

/// Interval of an arrival estimate.
pub fn race_estimate_interval(plies: u16) -> (r: (u16, u16))
    ensures
        r.0 == estimate_low(plies),
        r.1 == estimate_high(plies),
{
    (
        plies.saturating_sub(RACE_APPROX_TOLERANCE_PLIES),
        plies.saturating_add(RACE_APPROX_TOLERANCE_PLIES),
    )
}

/// The candidate's interval lies strictly on the better side of the peer's: sooner for a
/// win, later for a loss. A candidate is never compared with its own move.
pub open spec fn beats_peer(c: RaceRootCandidate, peer: RaceRootCandidate) -> bool {
    peer.mv == c.mv || (c.approximate_plies matches Some(a) && peer.approximate_plies matches Some(
        b,
    ) && if c.root_wins {
        estimate_high(a) < estimate_low(b)
    } else {
        estimate_low(a) > estimate_high(b)
    })
}

/// The candidate has an estimate and beats every peer.
pub open spec fn definitely_best(c: RaceRootCandidate, peers: Seq<RaceRootCandidate>) -> bool {
    c.approximate_plies is Some && forall|k: int|
        0 <= k < peers.len() ==> beats_peer(c, #[trigger] peers[k])
}

/// Is the candidate better than all its peers beyond the estimates' tolerance?
pub fn race_candidate_definitely_best(
    candidate: RaceRootCandidate,
    peers: &[RaceRootCandidate],
) -> (best: bool)
    ensures
        best == definitely_best(candidate, peers@),
{
    let estimate: u16 = match candidate.approximate_plies {
        Some(e) => e,
        None => {
            return false;
        },
    };
    let (lo, hi) = race_estimate_interval(estimate);
    let mut k: usize = 0;
    while k < peers.len()
        invariant
            k <= peers@.len(),
            candidate.approximate_plies == Some(estimate),
            lo == estimate_low(estimate),
            hi == estimate_high(estimate),
            forall|j: int| 0 <= j < k ==> beats_peer(candidate, #[trigger] peers@[j]),
        decreases peers@.len() - k,
    {
        let peer = peers[k];
        if peer.mv != candidate.mv {
            match peer.approximate_plies {
                None => {
                    assert(!beats_peer(candidate, peers@[k as int]));
                    return false;
                },
                Some(e) => {
                    let (peer_lo, peer_hi) = race_estimate_interval(e);
                    let beats: bool = if candidate.root_wins {
                        hi < peer_lo
                    } else {
                        lo > peer_hi
                    };
                    if !beats {
                        assert(!beats_peer(candidate, peers@[k as int]));
                        return false;
                    }
                },
            }
        }
        k += 1;
    }
    true
}

/// Two candidates with different moves and the same outcome cannot both be definitely
/// best.
pub proof fn law_definite_best_is_unique(
    a: RaceRootCandidate,
    b: RaceRootCandidate,
    peers: Seq<RaceRootCandidate>,
)
    requires
        peers.contains(a),
        peers.contains(b),
        a.root_wins == b.root_wins,
        definitely_best(a, peers),
        definitely_best(b, peers),
    ensures
        a.mv == b.mv,
{
    let i = choose|i: int| 0 <= i < peers.len() && peers[i] == a;
    let j = choose|j: int| 0 <= j < peers.len() && peers[j] == b;
    assert(beats_peer(a, peers[j]));
    assert(beats_peer(b, peers[i]));
}

/// What a reply's deduction says about the root move that led to it. The bound speaks
/// for the opponent, who is to move there.
pub open spec fn candidate_of(
    mv: i16,
    immediate: bool,
    bound: RaceBound,
    estimate: Option<u16>,
) -> Option<RaceRootCandidate> {
    let approximate = match estimate {
        Some(v) => Some(estimate_high(v) as u16),
        None => None,
    };
    if immediate {
        Some(
            RaceRootCandidate {
                mv,
                root_wins: true,
                approximate_plies: Some(1),
                exact_dtm: Some(1),
            },
        )
    } else {
        match bound {
            RaceBound::Upper(_) => Some(
                RaceRootCandidate {
                    mv,
                    root_wins: true,
                    approximate_plies: approximate,
                    exact_dtm: None,
                },
            ),
            RaceBound::Lower(_) => Some(
                RaceRootCandidate {
                    mv,
                    root_wins: false,
                    approximate_plies: approximate,
                    exact_dtm: None,
                },
            ),
            RaceBound::Exact(v) => Some(
                RaceRootCandidate {
                    mv,
                    root_wins: v < 0,
                    approximate_plies: approximate,
                    exact_dtm: None,
                },
            ),
            RaceBound::Unknown => None,
        }
    }
}

/// Turns a deduction about the reply into a root candidate.
pub fn race_root_candidate(mv: i16, immediate: bool, bound: RaceBound, estimate: Option<u16>) -> (c:
    Option<RaceRootCandidate>)
    ensures
        c == candidate_of(mv, immediate, bound, estimate),
{
    if immediate {
        return Some(
            RaceRootCandidate {
                mv,
                root_wins: true,
                approximate_plies: Some(1),
                exact_dtm: Some(1),
            },
        );
    }
    let approximate_plies: Option<u16> = match estimate {
        Some(v) => Some(v.saturating_add(1)),
        None => None,
    };
    let root_wins: bool = match bound {
        RaceBound::Upper(_) => true,
        RaceBound::Lower(_) => false,
        RaceBound::Exact(v) => v < 0,
        RaceBound::Unknown => {
            return None;
        },
    };
    Some(RaceRootCandidate { mv, root_wins, approximate_plies, exact_dtm: None })
}

/// What the candidates settle.
#[derive(Clone, Copy, Debug, PartialEq, Eq, Structural)]
pub enum RaceRootDecision {
    /// Arrive now.
    Arrive(i16),
    /// Play this candidate; its outcome is proven, its distance estimated.
    Settle(RaceRootCandidate),
    /// The estimates tie: the exact table has to decide.
    Refine,
    /// Nothing is proven; search.
    GiveUp,
}

/// Some root move is proven to win.
pub open spec fn has_proven_win(cs: Seq<RaceRootCandidate>) -> bool {
    exists|k: int| 0 <= k < cs.len() && (#[trigger] cs[k]).root_wins
}

/// The candidates with the best proven outcome, in order.
pub open spec fn finalists(cs: Seq<RaceRootCandidate>, win: bool) -> Seq<RaceRootCandidate>
    decreases cs.len(),
{
    if cs.len() == 0 {
        Seq::empty()
    } else if cs.last().root_wins == win {
        finalists(cs.drop_last(), win).push(cs.last())
    } else {
        finalists(cs.drop_last(), win)
    }
}

/// Number of definitely best candidates among the first `n`.
pub open spec fn definite_count(fs: Seq<RaceRootCandidate>, n: int) -> int
    decreases n,
{
    if n <= 0 {
        0
    } else {
        definite_count(fs, n - 1) + if definitely_best(fs[n - 1], fs) {
            1int
        } else {
            0int
        }
    }
}

/// The decision for a list of candidates with `unresolved` moves left unproven.
pub open spec fn decision_is(
    cs: Seq<RaceRootCandidate>,
    unresolved: int,
    d: RaceRootDecision,
) -> bool {
    let win = has_proven_win(cs);
    let fs = finalists(cs, win);
    if exists|k: int| 0 <= k < cs.len() && (#[trigger] cs[k]).exact_dtm == Some(1u16) {
        d matches RaceRootDecision::Arrive(m) && exists|k: int|
            0 <= k < cs.len() && (#[trigger] cs[k]).exact_dtm == Some(1u16) && cs[k].mv == m && (
            forall|j: int| 0 <= j < k ==> (#[trigger] cs[j]).exact_dtm != Some(1u16))
    } else if (!win && unresolved != 0) || fs.len() == 0 {
        d == RaceRootDecision::GiveUp
    } else if fs.len() == 1 {
        d == RaceRootDecision::Settle(fs[0])
    } else if definite_count(fs, fs.len() as int) == 1 {
        d matches RaceRootDecision::Settle(c) && fs.contains(c) && definitely_best(c, fs)
    } else {
        d == RaceRootDecision::Refine
    }
}

/// Settles a race root from its candidates: an arrival at once; otherwise the only
/// finalist, or the one whose estimate is strictly best; a loss only when every move is
/// covered.
pub fn settle_race_root(cs: &Vec<RaceRootCandidate>, unresolved: usize) -> (d: RaceRootDecision)
    ensures
        decision_is(cs@, unresolved as int, d),
{
    let mut win: bool = false;
    let mut k: usize = 0;
    while k < cs.len()
        invariant
            k <= cs@.len(),
            forall|j: int| 0 <= j < k ==> (#[trigger] cs@[j]).exact_dtm != Some(1u16),
            win == exists|j: int| 0 <= j < k && (#[trigger] cs@[j]).root_wins,
        decreases cs@.len() - k,
    {
        let c = cs[k];
        if c.exact_dtm == Some(1u16) {
            assert(cs@[k as int].exact_dtm == Some(1u16));
            return RaceRootDecision::Arrive(c.mv);
        }
        if c.root_wins {
            assert(cs@[k as int].root_wins);
            win = true;
        }
        k += 1;
    }
    assert(win == has_proven_win(cs@));
    if !win && unresolved != 0 {
        return RaceRootDecision::GiveUp;
    }
    let mut fs: Vec<RaceRootCandidate> = Vec::new();
    let mut i: usize = 0;
    assert(fs@ =~= finalists(cs@.take(0), win));
    while i < cs.len()
        invariant
            i <= cs@.len(),
            fs@ == finalists(cs@.take(i as int), win),
        decreases cs@.len() - i,
    {
        let c = cs[i];
        assert(cs@.take(i + 1).drop_last() =~= cs@.take(i as int));
        assert(cs@.take(i + 1).last() == c);
        if c.root_wins == win {
            fs.push(c);
        }
        i += 1;
    }
    assert(cs@.take(i as int) =~= cs@);
    if fs.len() == 0 {
        return RaceRootDecision::GiveUp;
    }
    if fs.len() == 1 {
        return RaceRootDecision::Settle(fs[0]);
    }
    let mut first: Option<RaceRootCandidate> = None;
    let mut count: usize = 0;
    let mut j: usize = 0;
    while j < fs.len()
        invariant
            j <= fs@.len(),
            fs@ == finalists(cs@, win),
            count == definite_count(fs@, j as int),
            count <= j,
            match first {
                Some(c) => count > 0 && fs@.contains(c) && definitely_best(c, fs@),
                None => count == 0,
            },
        decreases fs@.len() - j,
    {
        let c = fs[j];
        if race_candidate_definitely_best(c, &fs) {
            if first.is_none() {
                assert(fs@[j as int] == c);
                first = Some(c);
            }
            count += 1;
        }
        j += 1;
    }
    match first {
        Some(c) => if count == 1 {
            RaceRootDecision::Settle(c)
        } else {
            RaceRootDecision::Refine
        },
        None => RaceRootDecision::Refine,
    }
}

/// Finalists are candidates with the wanted outcome.
proof fn lemma_finalists_are_candidates(cs: Seq<RaceRootCandidate>, win: bool, c: RaceRootCandidate)
    requires
        finalists(cs, win).contains(c),
    ensures
        cs.contains(c),
        c.root_wins == win,
    decreases cs.len(),
{
    let fs = finalists(cs, win);
    let k = choose|k: int| 0 <= k < fs.len() && fs[k] == c;
    if cs.last().root_wins == win && k == fs.len() - 1 {
        assert(cs[cs.len() - 1] == c);
    } else {
        assert(finalists(cs.drop_last(), win)[k] == c);
        lemma_finalists_are_candidates(cs.drop_last(), win, c);
        let j = choose|j: int| 0 <= j < cs.drop_last().len() && cs.drop_last()[j] == c;
        assert(cs[j] == c);
    }
}

/// A settled loss means that every covered move loses, and nothing was left uncovered.
pub proof fn law_settled_loss_is_covered(
    cs: Seq<RaceRootCandidate>,
    unresolved: int,
    d: RaceRootDecision,
    k: int,
)
    requires
        decision_is(cs, unresolved, d),
        d matches RaceRootDecision::Settle(c) && !c.root_wins,
        0 <= k < cs.len(),
    ensures
        unresolved == 0,
        !cs[k].root_wins,
{
    let c = d->Settle_0;
    let win = has_proven_win(cs);
    let fs = finalists(cs, win);
    if fs.len() == 1 {
        assert(fs[0] == c);
    }
    assert(fs.contains(c));
    lemma_finalists_are_candidates(cs, win, c);
    assert(!win);
}

/// Outside judgement of races whose outcome is not in a table: a bound for the side to
/// move and, where known, an estimate of the winner's arrival in plies.
pub trait RaceDeducer {
    /// The judgement of a race.
    open spec fn deduced(&self, p: game::Position) -> (RaceBound, Option<u16>) {
        arbitrary()
    }

    fn deduce(&mut self, g: &GameState) -> (d: (RaceBound, Option<u16>))
        ensures
            d == old(self).deduced(g@),
    ;
}

/// The fastest win or the slowest loss, ties by distance: the best pawn move of a solved table.
pub open spec fn is_best_race_move(p: game::Position, mv: i16) -> bool {
    exists|tbl: Seq<i16>, k: int|
        #![trigger best_upto(p, tbl, game::pawn_moves(p).len() as int, k)]
        race_table::solves(p.w, tbl) && best_upto(p, tbl, game::pawn_moves(p).len() as int, k) && mv
            == game::pawn_moves(p)[k]
}

/// A decided race is solved by its value and its best move.
pub open spec fn is_exact_root(p: game::Position, s: RaceRootSolution) -> bool {
    exists|v: int| #[trigger]
        race_table::race_value_is(p.w, race_cache::state_of(p), v) && v != 0 && s
            == exact_solution(s.mv, v, game::pawn_moves(p).len() as int)
}

/// What the pawn move at place `k` comes to by a judgement of the position after it.
pub open spec fn candidate_at<H: RaceDeducer>(p: game::Position, hs: Seq<H>, k: int) -> Option<
    RaceRootCandidate,
> {
    let m = game::pawn_moves(p)[k];
    let home = board::is_goal(p.turn, m as int);
    let d = if home {
        (RaceBound::Unknown, None)
    } else {
        hs[k].deduced(game::played(p, m as int))
    };
    candidate_of(m, home, d.0, d.1)
}

/// Candidates among the first `n` pawn moves.
pub open spec fn candidates_upto<H: RaceDeducer>(p: game::Position, hs: Seq<H>, n: int) -> Seq<
    RaceRootCandidate,
>
    decreases n,
{
    if n <= 0 {
        Seq::empty()
    } else {
        match candidate_at(p, hs, n - 1) {
            Some(c) => candidates_upto(p, hs, n - 1).push(c),
            None => candidates_upto(p, hs, n - 1),
        }
    }
}

/// The root follows from a decision on its candidates: an arrival, a settled candidate, the
/// exact table where the judgements tie, or nothing.
pub open spec fn settled_by(
    p: game::Position,
    cs: Seq<RaceRootCandidate>,
    d: RaceRootDecision,
    sol: Option<RaceRootSolution>,
) -> bool {
    let n = game::pawn_moves(p).len() as int;
    &&& decision_is(cs, n - cs.len(), d)
    &&& match d {
        RaceRootDecision::Arrive(mv) => sol == Some(exact_solution(mv, 1, n)),
        RaceRootDecision::Settle(c) => sol == Some(settled_solution(c, n)),
        RaceRootDecision::Refine => match sol {
            Some(s) => is_exact_root(p, s) && is_best_race_move(p, s.mv),
            None => race_table::race_value_is(p.w, race_cache::state_of(p), 0),
        },
        RaceRootDecision::GiveUp => sol is None,
    }
}

/// The root follows from these judgements of its pawn moves.
pub open spec fn settled_from<H: RaceDeducer>(
    p: game::Position,
    hs: Seq<H>,
    d: RaceRootDecision,
    sol: Option<RaceRootSolution>,
) -> bool {
    hs.len() == game::pawn_moves(p).len() && settled_by(
        p,
        candidates_upto(p, hs, hs.len() as int),
        d,
        sol,
    )
}

/// A race root resolved by judgements of its moves.
pub open spec fn root_judged<H: RaceDeducer>(p: game::Position, sol: Option<RaceRootSolution>) -> bool {
    exists|hs: Seq<H>, d: RaceRootDecision| #[trigger] settled_from(p, hs, d, sol)
}

/// Another judgement at the end changes no earlier candidate.
proof fn lemma_candidates_prefix<H: RaceDeducer>(p: game::Position, hs: Seq<H>, h: H, n: int)
    requires
        0 <= n <= hs.len(),
    ensures
        candidates_upto(p, hs.push(h), n) == candidates_upto(p, hs, n),
        candidates_upto(p, hs, n).len() <= n,
    decreases n,
{
    if n > 0 {
        lemma_candidates_prefix(p, hs, h, n - 1);
        assert(hs.push(h)[n - 1] == hs[n - 1]);
    }
}

/// A race root may be resolved: no walls left and nobody home.
pub open spec fn race_root_open(p: game::Position) -> bool {
    p.wl0 == 0 && p.wl1 == 0 && p.p0 >= 9 && p.p1 < 72
}

/// Solution for a candidate that is settled by its proof alone.
pub open spec fn settled_solution(c: RaceRootCandidate, legal: int) -> RaceRootSolution {
    RaceRootSolution {
        mv: c.mv,
        score: if c.root_wins {
            score::RACE_WIN_FLOOR
        } else {
            (-score::RACE_WIN_FLOOR) as i32
        },
        info: score::approximate_info(
            (if c.root_wins {
                1int
            } else {
                -1int
            }) as i8,
            c.approximate_plies,
        ),
        exact: false,
        legal_moves: legal as usize,
    }
}

/// Solution for a race move with exact value `v`.
pub open spec fn exact_solution(mv: i16, v: int, legal: int) -> RaceRootSolution {
    RaceRootSolution {
        mv,
        score: if v > 0 {
            (score::RACE_MATE - v) as i32
        } else {
            (-(score::RACE_MATE + v)) as i32
        },
        info: score::exact_info(
            score::sign(v) as i8,
            if v > 0 {
                v as u16
            } else {
                (-v) as u16
            },
        ),
        exact: true,
        legal_moves: legal as usize,
    }
}

/// Solution for a settled candidate.
pub fn settle_solution(c: RaceRootCandidate, legal_moves: usize) -> (s: RaceRootSolution)
    ensures
        s == settled_solution(c, legal_moves as int),
{
    let outcome: i8 = if c.root_wins {
        1
    } else {
        -1
    };
    RaceRootSolution {
        mv: c.mv,
        score: if c.root_wins {
            score::RACE_WIN_FLOOR
        } else {
            -score::RACE_WIN_FLOOR
        },
        info: RaceResultInfo::approximate(outcome, c.approximate_plies),
        exact: false,
        legal_moves,
    }
}

/// Solution for a race move with an exact value.
pub fn refined_solution(mv: i16, v: i32, legal_moves: usize) -> (s: RaceRootSolution)
    requires
        -13_122 <= v <= 13_123,
        v != 0,
    ensures
        s == exact_solution(mv, v as int, legal_moves as int),
{
    RaceRootSolution {
        mv,
        score: if v > 0 {
            score::RACE_MATE - v
        } else {
            -(score::RACE_MATE + v)
        },
        info: if v > 0 {
            RaceResultInfo::exact(1, v as u16)
        } else {
            RaceResultInfo::exact(-1, (-v) as u16)
        },
        exact: true,
        legal_moves,
    }
}

impl RaceProver {
    /// Exact solution of a race root from its table, solved if need be.
    pub fn race_table_root<C: Clock>(&mut self, g: &GameState, clock: &mut C) -> (sol: Option<
        RaceRootSolution,
    >)
        requires
            old(self).wf(),
            g.wf(),
        ensures
            final(self).wf(),
            final(self).same_config(old(self)),
            !race_root_open(g@) ==> sol is None && *final(self) == *old(self),
            race_root_open(g@) ==> exists|v: int| #[trigger]
                race_table::race_value_is(g.topo(), race_cache::state_of(g@), v) && (sol is Some)
                    == (v != 0) && (sol matches Some(s) ==> s == exact_solution(
                    s.mv,
                    v,
                    game::pawn_moves(g@).len() as int,
                ) && game::pawn_moves(g@).contains(s.mv)),
            // The move is the fastest win, or the slowest loss.
            sol matches Some(s) ==> is_best_race_move(g@, s.mv),
            sol matches Some(s) ==> s.legal_moves == game::pawn_moves(g@).len(),
    {
        if g.wl[0] != 0 || g.wl[1] != 0 || g.pawn[0] < 9 || g.pawn[1] >= 72 {
            return None;
        }
        let ghost i = race_cache::state_of(g@);
        proof {
            race_table::lemma_state_index(g@.p0, g@.p1, g@.turn);
            assert(race_table::live(i));
        }
        let legal: usize = g.gen_pawn_moves().len();
        let slot: usize = match self.cache.race_tbl(g, true, clock) {
            Some(s) => s,
            None => {
                return None;
            },
        };
        let rv: i32 = self.cache.race_value(slot, g) as i32;
        assert(race_table::race_value_is(g.topo(), i, rv as int));
        if rv == 0 {
            return None;
        }
        let tbl: &Vec<i16> = match &self.cache.slots[slot] {
            Some(s) => &s.tbl,
            None => {
                return None;
            },
        };
        proof {
            let s = self.cache.slots@[slot as int]->0;
            assert(s.wf());
            assert(race_table::value_is(g.topo(), i, tbl@[i] as int));
            race_table::law_race_value_is_unique(g.topo(), i, tbl@[i] as int, rv as int);
        }
        match race_root_pick(tbl, g, rv) {
            Some((mv, v, e)) => {
                let ghost k = choose|k: int|
                    {
                        &&& #[trigger] best_upto(g@, tbl@, game::pawn_moves(g@).len() as int, k)
                        &&& mv == game::pawn_moves(g@)[k]
                    };
                assert(game::pawn_moves(g@)[k] == mv);
                assert(is_best_race_move(g@, mv)) by {
                    assert(race_table::solves(g@.w, tbl@));
                    assert(best_upto(g@, tbl@, game::pawn_moves(g@).len() as int, k));
                }
                Some(refined_solution(mv, v, legal))
            },
            None => None,
        }
    }

    /// Resolves a race root without search. Each pawn move is judged by `deducer`; when
    /// the judgements leave a tie, the exact table decides.
    pub fn semi_terminal_race_root<H: RaceDeducer + Clock>(
        &mut self,
        cheap_cert: bool,
        g: &mut GameState,
        host: &mut H,
    ) -> (sol: Option<RaceRootSolution>)
        requires
            old(self).wf(),
            old(g).wf(),
            old(g)@.hist.len() < game::MAX_HISTORY,
        ensures
            final(self).wf(),
            final(self).same_config(old(self)),
            final(g).wf(),
            final(g)@ == old(g)@,
            !cheap_cert || !race_root_open(old(g)@) ==> sol is None && *final(self) == *old(self),
            sol matches Some(s) ==> game::pawn_moves(old(g)@).contains(s.mv) && s.legal_moves
                == game::pawn_moves(old(g)@).len() && (s.exact ==> exists|v: int| #[trigger]
                race_table::race_value_is(old(g).topo(), race_cache::state_of(old(g)@), v) && v != 0
                    && s == exact_solution(s.mv, v, s.legal_moves as int)),
            // Move, score and info follow from judgements of the pawn moves.
            cheap_cert && race_root_open(old(g)@) ==> root_judged::<H>(old(g)@, sol),
            cheap_cert && race_root_open(old(g)@) && (exists|k: int|
                0 <= k < game::pawn_moves(old(g)@).len() && board::is_goal(
                    old(g)@.turn,
                    #[trigger] game::pawn_moves(old(g)@)[k] as int,
                )) ==> (sol matches Some(s) && s.score == score::RACE_MATE - 1 && board::is_goal(
                old(g)@.turn,
                s.mv as int,
            )),
    {
        let ghost p = g@;
        if !cheap_cert || g.wl[0] != 0 || g.wl[1] != 0 || g.pawn[0] < 9 || g.pawn[1] >= 72 {
            return None;
        }
        let root_side: usize = g.turn;
        let ms = g.gen_pawn_moves();
        let mut candidates: Vec<RaceRootCandidate> = Vec::with_capacity(ms.len());
        let mut unresolved: usize = 0;
        let mut i: usize = 0;
        let ghost mut hs: Seq<H> = Seq::empty();
        while i < ms.len()
            invariant
                hs.len() == i,
                candidates@ == candidates_upto(p, hs, i as int),
                unresolved == i - candidates@.len(),
                self.wf(),
                self.same_config(old(self)),
                g.wf(),
                g@ == p,
                p == old(g)@,
                game::position_ok(p),
                p.hist.len() < game::MAX_HISTORY,
                race_root_open(p),
                root_side == p.turn,
                ms@ == game::pawn_moves(p),
                forall|k: int| 0 <= k < ms@.len() ==> moves::pawn_id(#[trigger] ms@[k] as int),
                i <= ms@.len(),
                unresolved <= i,
                forall|c: int|
                    0 <= c < candidates@.len() ==> ms@.contains((#[trigger] candidates@[c]).mv) && (
                    candidates@[c].exact_dtm is Some ==> board::is_goal(
                        p.turn,
                        candidates@[c].mv as int,
                    )),
                forall|k: int|
                    0 <= k < i && board::is_goal(p.turn, #[trigger] ms@[k] as int) ==> exists|c: int|
                        0 <= c < candidates@.len() && (#[trigger] candidates@[c]).exact_dtm == Some(
                            1u16,
                        ),
            decreases ms@.len() - i,
        {
            let mv: i16 = ms[i];
            proof {
                assert(moves::pawn_id(ms@[i as int] as int));
                assert(game::accepts(p, mv as int));
                game::law_played_keeps_order(p, mv as int);
                game::law_taken_back_undoes_played(p, mv as int);
            }
            g.make_move(mv);
            let immediate: bool = (root_side == 0 && g.pawn[0] < 9) || (root_side == 1 && g.pawn[1]
                >= 72);
            assert(immediate == board::is_goal(p.turn, mv as int));
            let ghost h = *host;
            let (bound, estimate) = if immediate {
                (RaceBound::Unknown, None)
            } else {
                host.deduce(g)
            };
            g.unmake_move();
            let ghost before = candidates@;
            proof {
                lemma_candidates_prefix(p, hs, h, i as int);
                hs = hs.push(h);
                assert(candidate_at(p, hs, i as int) == candidate_of(mv, immediate, bound, estimate));
            }
            match race_root_candidate(mv, immediate, bound, estimate) {
                Some(c) => {
                    candidates.push(c);
                    assert(ms@[i as int] == c.mv);
                    assert(candidates@[before.len() as int] == c);
                    assert forall|k: int|
                        0 <= k < i + 1 && board::is_goal(
                            p.turn,
                            #[trigger] ms@[k] as int,
                        ) implies exists|c: int|
                        0 <= c < candidates@.len() && (#[trigger] candidates@[c]).exact_dtm == Some(
                            1u16,
                        ) by {
                        if k < i {
                            let x = choose|x: int|
                                0 <= x < before.len() && (#[trigger] before[x]).exact_dtm == Some(
                                    1u16,
                                );
                            assert(candidates@[x].exact_dtm == Some(1u16));
                        }
                    }
                },
                None => {
                    unresolved += 1;
                },
            }
            i += 1;
        }
        let decision = settle_race_root(&candidates, unresolved);
        let legal: usize = ms.len();
        let sol = match decision {
            RaceRootDecision::Arrive(mv) => {
                proof {
                    let c = choose|c: int|
                        0 <= c < candidates@.len() && (#[trigger] candidates@[c]).exact_dtm == Some(
                            1u16,
                        ) && candidates@[c].mv == mv;
                    lemma_arrival_is_exact(p, mv);
                }
                Some(refined_solution(mv, 1, legal))
            },
            RaceRootDecision::Settle(c) => {
                proof {
                    let win = has_proven_win(candidates@);
                    let fs = finalists(candidates@, win);
                    if fs.len() == 1 {
                        assert(fs[0] == c);
                    }
                    assert(fs.contains(c));
                    lemma_finalists_are_candidates(candidates@, win, c);
                    let x = choose|x: int| 0 <= x < candidates@.len() && candidates@[x] == c;
                    assert(candidates@[x] == c);
                }
                Some(settle_solution(c, legal))
            },
            RaceRootDecision::Refine => self.race_table_root(g, host),
            RaceRootDecision::GiveUp => None,
        };
        assert(settled_from(p, hs, decision, sol));
        sol
    }
}

/// A position with an arriving move has race value one.
proof fn lemma_arrival_is_exact(p: game::Position, mv: i16)
    requires
        game::position_ok(p),
        game::pawn_moves(p).contains(mv),
        board::is_goal(p.turn, mv as int),
    ensures
        race_table::race_value_is(p.w, race_cache::state_of(p), 1),
{
    let i = race_cache::state_of(p);
    race_table::lemma_state_index(p.p0, p.p1, p.turn);
    let ms = game::pawn_moves(p);
    assert(ms == race_table::race_moves(p.w, i));
    let k = choose|k: int| 0 <= k < ms.len() && ms[k] == mv;
    assert(board::is_goal(race_table::turn_at(i), ms[k] as int));
}

/// A race by its score where its table is had and decides, by the guess otherwise.
pub open spec fn race_or_guess<C: Clock>(
    c: race_cache::RaceCache,
    p: game::Position,
    guess: int,
    v: int,
) -> bool {
    exists|s: Option<i32>| #[trigger]
        race_cache::score_had::<C>(c, p, false, s) && v == match s {
            Some(x) => x as int,
            None => guess,
        }
}

/// Heuristic race score when no table is at hand.
pub open spec fn distance_heuristic(d_me: int, d_opp: int) -> int {
    if d_me <= d_opp {
        3000 + (d_opp - d_me) * 50 - d_me
    } else {
        -3000 - (d_me - d_opp) * 50 + d_opp
    }
}

/// Unproven race score from the two distances.
pub fn race_distance_heuristic(d_me: i32, d_opp: i32) -> (s: i32)
    requires
        0 <= d_me <= 255,
        0 <= d_opp <= 255,
    ensures
        s == distance_heuristic(d_me as int, d_opp as int),
        -20_000 < s < 20_000,
{
    if d_me <= d_opp {
        3000 + (d_opp - d_me) * 50 - d_me
    } else {
        -3000 - (d_me - d_opp) * 50 + d_opp
    }
}

impl RaceProver {
    /// Score of a leaf with both hands empty: from a table already there, from a table
    /// the budget lets us solve, or by distance.
    pub fn try_hands_empty_endgame<C: Clock>(
        &mut self,
        g: &GameState,
        d_me: i32,
        d_opp: i32,
        clock: &mut C,
    ) -> (s: i32)
        requires
            old(self).wf(),
            g.wf(),
            g@.wl0 == 0,
            g@.wl1 == 0,
            0 <= d_me <= 255,
            0 <= d_opp <= 255,
        ensures
            final(self).wf(),
            final(self).same_config(old(self)),
            race_cache::race_score_is(g@, Some(s)) || s == distance_heuristic(
                d_me as int,
                d_opp as int,
            ),
            !old(self).race_proof ==> s == distance_heuristic(d_me as int, d_opp as int),
            old(self).race_proof && old(self).cache.cached(g.topo()) && !race_cache::race_score_is(
                g@,
                None,
            ) ==> race_cache::race_score_is(g@, Some(s)),
            -score::RACE_MATE <= s <= score::RACE_MATE,
            // The race's score where its table is had and decides, the distances otherwise.
            old(self).race_proof ==> race_or_guess::<C>(
                old(self).cache,
                g@,
                distance_heuristic(d_me as int, d_opp as int),
                s as int,
            ),
    {
        let ghost mut score: Option<i32> = None;
        if self.race_proof {
            let (k_lo, k_hi) = g.wall_topology_key();
            if let Some(slot) = self.cache.race_tbl_lru_probe(g, k_lo, k_hi) {
                let s = self.cache.score_from_race_slot(slot, g);
                proof {
                    assert(race_cache::table_had::<C>(old(self).cache, g@.w, false, true));
                    assert(race_cache::score_had::<C>(old(self).cache, g@, false, s));
                    score = s;
                }
                if let Some(v) = s {
                    self.stats.resolved_memo = race_cache::bump(self.stats.resolved_memo);
                    return v;
                }
            }
            let found = self.cache.race_tbl(g, false, clock);
            proof {
                if !old(self).cache.cached(g@.w) {
                    assert(race_cache::table_had::<C>(old(self).cache, g@.w, false, found is Some));
                }
                if found is None {
                    assert(race_cache::score_had::<C>(old(self).cache, g@, false, None));
                }
            }
            if let Some(slot) = found {
                let s = self.cache.score_from_race_slot(slot, g);
                proof {
                    if old(self).cache.cached(g@.w) {
                        assert(race_cache::table_had::<C>(old(self).cache, g@.w, false, true));
                    }
                    assert(race_cache::score_had::<C>(old(self).cache, g@, false, s));
                    score = s;
                }
                if let Some(v) = s {
                    self.stats.resolved_race_tbl = race_cache::bump(self.stats.resolved_race_tbl);
                    return v;
                }
            }
        }
        self.stats.resolved_race_heuristic = race_cache::bump(self.stats.resolved_race_heuristic);
        race_distance_heuristic(d_me, d_opp)
    }
}

} // verus!

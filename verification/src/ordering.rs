//! Move ordering: table move, pawn progress, killers, reply, histories; wall heat only
//! for walls the histories say nothing about.

use crate::history::History;
use crate::history;
use crate::moves;
use crate::num;
use crate::score::MAX_PLY;
use vstd::prelude::*;

verus! {

/// Score of the table move.
pub const TT_MOVE_SCORE: i32 = 2_000_000_000;

/// Score of a denied opening move.
pub const DENIED_SCORE: i32 = -536_870_912;

/// Wall heat as ordering credit: none for the coldest tenth.
pub open spec fn heat_score(heat: int, max_heat: int) -> int {
    let h = num::larger(heat, 0);
    if h * 10 > max_heat {
        h
    } else {
        0
    }
}

/// Ordering score of a move.
pub open spec fn move_score(
    h: History,
    dist: Seq<u8>,
    stm: int,
    ply: int,
    m: int,
    tt_move: int,
    cm_move: int,
    prev: int,
    prior: Option<(Seq<i32>, u32)>,
) -> int {
    if m == tt_move {
        2_000_000_000
    } else if moves::pawn_id(m) {
        let progress = 1_000_000 - dist[m] * 1000;
        if h.sf_history {
            progress + history::pawn_tiebreak(h.hist_of(stm, m))
        } else {
            progress
        }
    } else if m == h.killers@[ply].0 {
        900_000
    } else if m == cm_move {
        870_000
    } else if m == h.killers@[ply].1 {
        850_000
    } else {
        let learned = h.hist_of(stm, m) + num::trunc_div(h.reply_of(prev, m), 2);
        if learned != 0 {
            learned
        } else {
            match prior {
                Some((heat, max_heat)) => heat_score(heat[m] as int, max_heat as int),
                None => 0,
            }
        }
    }
}

/// Ordering score of a move.
pub fn score_move(
    h: &History,
    dist: &[u8; 81],
    stm: usize,
    ply: usize,
    m: i16,
    tt_move: i16,
    cm_move: i16,
    prev_move: i16,
    prior: Option<(&Vec<i32>, u32)>,
) -> (s: i32)
    requires
        h.wf(),
        stm < 2,
        ply < MAX_PLY,
        moves::move_id(m as int),
        prev_move < 256,
        prior matches Some((heat, _)) ==> heat@.len() == 256,
    ensures
        s == move_score(
            *h,
            dist@,
            stm as int,
            ply as int,
            m as int,
            tt_move as int,
            cm_move as int,
            prev_move as int,
            match prior {
                Some((heat, max_heat)) => Some((heat@, max_heat)),
                None => None,
            },
        ),
{
    if m == tt_move {
        TT_MOVE_SCORE
    } else if moves::is_pawn_move(m) {
        let progress: i32 = 1_000_000 - dist[m as usize] as i32 * 1000;
        if h.sf_history {
            progress + history::sf_pawn_history_tiebreak(h.move_hist(stm, m))
        } else {
            progress
        }
    } else {
        let k = h.killers[ply];
        if m == k.0 {
            900_000
        } else if m == cm_move {
            870_000
        } else if m == k.1 {
            850_000
        } else {
            let reply: i32 = h.cont_hist_read(prev_move, m);
            proof {
                num::lemma_trunc_div_bound(reply as int, 2);
            }
            let half: i32 = num::trunc_div_i64(reply as i64, 2) as i32;
            let learned: i32 = h.move_hist(stm, m) + half;
            if learned != 0 {
                learned
            } else {
                match prior {
                    Some((heat, max_heat)) => {
                        let warm: i32 = heat[m as usize].max(0);
                        if warm as u64 * 10 > max_heat as u64 {
                            warm
                        } else {
                            0
                        }
                    },
                    None => 0,
                }
            }
        }
    }
}

/// First place of a move in a list.
pub open spec fn first_place(ms: Seq<i16>, m: i16, n: int) -> Option<int>
    decreases n,
{
    if n <= 0 {
        None
    } else {
        match first_place(ms, m, n - 1) {
            Some(i) => Some(i),
            None => if ms[n - 1] == m {
                Some(n - 1)
            } else {
                None
            },
        }
    }
}

fn find_place(ms: &Vec<i16>, m: i16) -> (at: Option<usize>)
    ensures
        match at {
            Some(i) => first_place(ms@, m, ms@.len() as int) == Some(i as int) && i < ms@.len(),
            None => first_place(ms@, m, ms@.len() as int) is None,
        },
{
    let n: usize = ms.len();
    let mut at: Option<usize> = None;
    let mut i: usize = 0;
    while i < n
        invariant
            i <= n,
            n == ms@.len(),
            match at {
                Some(k) => first_place(ms@, m, i as int) == Some(k as int) && k < i,
                None => first_place(ms@, m, i as int) is None,
            },
        decreases n - i,
    {
        if at.is_none() && ms[i] == m {
            at = Some(i);
        }
        i += 1;
    }
    at
}

/// Score of a book move by rank and attention.
pub open spec fn book_score(boost: int, rank: int) -> int {
    num::clamped(2_050_000_000 + boost + (1000 - rank), i32::MIN as int, i32::MAX as int)
}

/// Attention of a rank; none is zero.
pub open spec fn attention_at(attention: Seq<i32>, rank: int) -> int {
    if rank < attention.len() {
        attention[rank] as int
    } else {
        0
    }
}

/// Scores after the first `n` book moves have been raised.
pub open spec fn book_raised(
    sc: Seq<i32>,
    ms: Seq<i16>,
    order: Seq<i16>,
    attention: Seq<i32>,
    n: int,
) -> Seq<i32>
    decreases n,
{
    if n <= 0 {
        sc
    } else {
        let before = book_raised(sc, ms, order, attention, n - 1);
        match first_place(ms, order[n - 1], ms.len() as int) {
            Some(i) => before.update(
                i,
                num::larger(before[i] as int, book_score(attention_at(attention, n - 1), n - 1)) as i32,
            ),
            None => before,
        }
    }
}

/// Scores with the denied moves at the bottom.
pub open spec fn denied_lowered(sc: Seq<i32>, denied: Seq<bool>) -> Seq<i32> {
    Seq::new(
        sc.len(),
        |i: int|
            if i < denied.len() && denied[i] {
                -536_870_912i32
            } else {
                sc[i]
            },
    )
}

/// The book's opinion on root moves.
pub struct BookHints {
    /// Book moves, best first.
    pub order: Vec<i16>,
    /// Extra weight by rank.
    pub attention: Vec<i32>,
    /// Which of the generated moves are denied, by place.
    pub denied: Vec<bool>,
}

fn apply_book(sc: &mut Vec<i32>, ms: &Vec<i16>, book: &BookHints)
    requires
        old(sc)@.len() == ms@.len(),
    ensures
        final(sc)@ == denied_lowered(
            book_raised(
                old(sc)@,
                ms@,
                book.order@,
                book.attention@,
                book.order@.len() as int,
            ),
            book.denied@,
        ),
{
    let ghost start = sc@;
    let n: usize = book.order.len();
    let mut rank: usize = 0;
    while rank < n
        invariant
            rank <= n,
            n == book.order@.len(),
            start == old(sc)@,
            sc@.len() == ms@.len(),
            start.len() == ms@.len(),
            sc@ == book_raised(start, ms@, book.order@, book.attention@, rank as int),
        decreases n - rank,
    {
        if let Some(i) = find_place(ms, book.order[rank]) {
            let boost: i32 = if rank < book.attention.len() {
                book.attention[rank]
            } else {
                0
            };
            let bonus: i128 = 2_050_000_000 + boost as i128 + (1000 - rank as i128);
            let value: i32 = if bonus < i32::MIN as i128 {
                i32::MIN
            } else if bonus > i32::MAX as i128 {
                i32::MAX
            } else {
                bonus as i32
            };
            let raised: i32 = sc[i].max(value);
            sc.set(i, raised);
        }
        rank += 1;
    }
    let ghost raised = sc@;
    let len: usize = sc.len();
    let mut i: usize = 0;
    while i < len
        invariant
            i <= len,
            len == raised.len(),
            sc@.len() == len,
            forall|k: int| 0 <= k < i ==> sc@[k] == denied_lowered(raised, book.denied@)[k],
            forall|k: int| i <= k < len ==> sc@[k] == raised[k],
        decreases len - i,
    {
        if i < book.denied.len() && book.denied[i] {
            sc.set(i, DENIED_SCORE);
        }
        i += 1;
    }
    assert(sc@ =~= denied_lowered(raised, book.denied@));
}

/// Place `a` comes before place `b`: a better score, or the same and an earlier place.
pub open spec fn comes_before(sc: Seq<i32>, a: int, b: int) -> bool {
    sc[a] > sc[b] || (sc[a] == sc[b] && a < b)
}

/// `perm` lists every place once, best first, ties in their old order.
pub open spec fn ranking(sc: Seq<i32>, perm: Seq<usize>, n: int) -> bool {
    &&& perm.len() == n
    &&& forall|i: int| 0 <= i < n ==> 0 <= #[trigger] perm[i] < n
    &&& forall|i: int, j: int|
        0 <= i < j < n ==> comes_before(sc, #[trigger] perm[i] as int, #[trigger] perm[j] as int)
}

/// Ranks places by score: stable, best first.
pub fn rank_by_score(sc: &Vec<i32>) -> (perm: Vec<usize>)
    ensures
        ranking(sc@, perm@, sc@.len() as int),
{
    let n: usize = sc.len();
    let mut perm: Vec<usize> = Vec::new();
    let mut a: usize = 0;
    while a < n
        invariant
            a <= n,
            n == sc@.len(),
            ranking(sc@, perm@, a as int),
        decreases n - a,
    {
        let ms: i32 = sc[a];
        let mut b: usize = a;
        while b > 0 && sc[perm[b - 1]] < ms
            invariant
                b <= a,
                a < n,
                n == sc@.len(),
                ms == sc@[a as int],
                ranking(sc@, perm@, a as int),
                forall|k: int| b <= k < a ==> sc@[#[trigger] perm@[k] as int] < ms,
            decreases b,
        {
            b -= 1;
        }
        let ghost before = perm@;
        perm.insert(b, a);
        proof {
            assert forall|i: int, j: int| 0 <= i < j < a + 1 implies comes_before(
                sc@,
                #[trigger] perm@[i] as int,
                #[trigger] perm@[j] as int,
            ) by {
                if i < b && j == b {
                    // Everything before the gap is no worse than the last entry there.
                    if i < b - 1 {
                        assert(comes_before(sc@, before[i] as int, before[b - 1] as int));
                    }
                    assert(perm@[i] == before[i]);
                    assert(sc@[before[b - 1] as int] >= ms);
                } else if i == b {
                    assert(perm@[j] == before[j - 1]);
                } else if i < b && j > b {
                    assert(perm@[i] == before[i] && perm@[j] == before[j - 1]);
                } else if i > b {
                    assert(perm@[i] == before[i - 1] && perm@[j] == before[j - 1]);
                } else {
                    assert(perm@[i] == before[i] && perm@[j] == before[j]);
                }
            }
            assert forall|i: int| 0 <= i < a + 1 implies 0 <= #[trigger] perm@[i] < a + 1 by {
                if i < b {
                    assert(perm@[i] == before[i]);
                } else if i > b {
                    assert(perm@[i] == before[i - 1]);
                }
            }
        }
        a += 1;
    }
    perm
}

/// The moves in the order of their scores: stable, best first.
#[verifier::opaque]
pub open spec fn ordered_by(ms: Seq<i16>, sc: Seq<i32>, out: Seq<i16>) -> bool {
    exists|perm: Seq<usize>| #[trigger]
        ranking(sc, perm, ms.len() as int) && out.len() == ms.len() && forall|i: int|
            0 <= i < ms.len() ==> #[trigger] out[i] == ms[perm[i] as int]
}

/// The two lists hold the same moves.
pub open spec fn same_moves(ms: Seq<i16>, out: Seq<i16>) -> bool {
    out.len() == ms.len() && forall|m: i16| #[trigger] out.contains(m) == ms.contains(m)
}

/// Plain scores of a list of moves.
pub open spec fn plain_scores(
    h: History,
    dist: Seq<u8>,
    stm: int,
    ply: int,
    ms: Seq<i16>,
    tt_move: int,
    cm_move: int,
    prev: int,
    prior: Option<(Seq<i32>, u32)>,
) -> Seq<i32> {
    Seq::new(
        ms.len(),
        |i: int|
            move_score(h, dist, stm, ply, ms[i] as int, tt_move, cm_move, prev, prior) as i32,
    )
}

/// Scores with the book's opinion at the root.
pub open spec fn final_scores(sc: Seq<i32>, ms: Seq<i16>, ply: int, book: BookHints) -> Seq<i32> {
    if ply == 0 {
        denied_lowered(
            book_raised(sc, ms, book.order@, book.attention@, book.order@.len() as int),
            book.denied@,
        )
    } else {
        sc
    }
}

/// Orders the moves of a node.
pub fn order_moves_prior(
    h: &History,
    dist: &[u8; 81],
    stm: usize,
    ply: usize,
    ms: &Vec<i16>,
    tt_move: i16,
    cm_move: i16,
    prev_move: i16,
    prior: Option<(&Vec<i32>, u32)>,
    book: &BookHints,
) -> (out: Vec<i16>)
    requires
        h.wf(),
        stm < 2,
        ply < MAX_PLY,
        forall|i: int| 0 <= i < ms@.len() ==> moves::move_id(#[trigger] ms@[i] as int),
        prev_move < 256,
        prior matches Some((heat, _)) ==> heat@.len() == 256,
    ensures
        ordered_by(
            ms@,
            final_scores(
                plain_scores(
                    *h,
                    dist@,
                    stm as int,
                    ply as int,
                    ms@,
                    tt_move as int,
                    cm_move as int,
                    prev_move as int,
                    match prior {
                        Some((heat, max_heat)) => Some((heat@, max_heat)),
                        None => None,
                    },
                ),
                ms@,
                ply as int,
                *book,
            ),
            out@,
        ),
        same_moves(ms@, out@),
{
    let ghost view = match prior {
        Some((heat, max_heat)) => Some((heat@, max_heat)),
        None => None,
    };
    let ghost plain = plain_scores(
        *h,
        dist@,
        stm as int,
        ply as int,
        ms@,
        tt_move as int,
        cm_move as int,
        prev_move as int,
        view,
    );
    let n: usize = ms.len();
    let mut sc: Vec<i32> = Vec::new();
    let mut i: usize = 0;
    while i < n
        invariant
            i <= n,
            n == ms@.len(),
            h.wf(),
            stm < 2,
            ply < MAX_PLY,
            forall|k: int| 0 <= k < ms@.len() ==> moves::move_id(#[trigger] ms@[k] as int),
            prev_move < 256,
            prior matches Some((heat, _)) ==> heat@.len() == 256,
            view == match prior {
                Some((heat, max_heat)) => Some((heat@, max_heat)),
                None => None,
            },
            plain == plain_scores(
                *h,
                dist@,
                stm as int,
                ply as int,
                ms@,
                tt_move as int,
                cm_move as int,
                prev_move as int,
                view,
            ),
            sc@.len() == i,
            forall|k: int| 0 <= k < i ==> #[trigger] sc@[k] == plain[k],
        decreases n - i,
    {
        let s: i32 = score_move(h, dist, stm, ply, ms[i], tt_move, cm_move, prev_move, prior);
        sc.push(s);
        i += 1;
    }
    assert(sc@ =~= plain);
    if ply == 0 {
        apply_book(&mut sc, ms, book);
    }
    proof {
        if ply == 0 {
            lemma_book_keeps_length(
                plain,
                ms@,
                book.order@,
                book.attention@,
                book.order@.len() as int,
            );
        }
    }
    let perm: Vec<usize> = rank_by_score(&sc);
    let mut out: Vec<i16> = Vec::new();
    let mut i: usize = 0;
    while i < n
        invariant
            i <= n,
            n == ms@.len(),
            n == sc@.len(),
            ranking(sc@, perm@, n as int),
            out@.len() == i,
            forall|k: int| 0 <= k < i ==> #[trigger] out@[k] == ms@[perm@[k] as int],
        decreases n - i,
    {
        out.push(ms[perm[i]]);
        i += 1;
    }
    proof {
        reveal(ordered_by);
        assert(ordered_by(ms@, sc@, out@));
        assert forall|m: i16| #[trigger] out@.contains(m) == ms@.contains(m) by {
            law_order_keeps_the_moves(ms@, sc@, out@, m);
        }
    }
    out
}

proof fn lemma_book_keeps_length(
    sc: Seq<i32>,
    ms: Seq<i16>,
    order: Seq<i16>,
    attention: Seq<i32>,
    n: int,
)
    requires
        sc.len() == ms.len(),
    ensures
        book_raised(sc, ms, order, attention, n).len() == sc.len(),
    decreases n,
{
    if n > 0 {
        lemma_book_keeps_length(sc, ms, order, attention, n - 1);
        lemma_first_place_bound(ms, order[n - 1], ms.len() as int);
    }
}

proof fn lemma_first_place_bound(ms: Seq<i16>, m: i16, n: int)
    ensures
        first_place(ms, m, n) matches Some(i) ==> 0 <= i < n,
    decreases n,
{
    if n > 0 {
        lemma_first_place_bound(ms, m, n - 1);
    }
}

/// The place at rank `r` has exactly `r` places before it, so rankings agree.
proof fn lemma_rankings_agree_upto(sc: Seq<i32>, p: Seq<usize>, q: Seq<usize>, n: int, r: int)
    requires
        ranking(sc, p, n),
        ranking(sc, q, n),
        0 <= r <= n,
    ensures
        forall|i: int| 0 <= i < r ==> p[i] == q[i],
    decreases r,
{
    if r > 0 {
        lemma_rankings_agree_upto(sc, p, q, n, r - 1);
        let k = r - 1;
        if p[k] != q[k] {
            let i = lemma_ranking_covers(sc, q, n, p[k] as int);
            let j = lemma_ranking_covers(sc, p, n, q[k] as int);
            // Both sit after rank k in the other list, so each comes before the other.
            if i < k {
                assert(p[i] == q[i]);
            }
            if j < k {
                assert(p[j] == q[j]);
            }
            assert(comes_before(sc, q[k] as int, q[i] as int));
            assert(comes_before(sc, p[k] as int, p[j] as int));
        }
    }
}

/// A ranking lists every place.
proof fn lemma_ranking_covers(sc: Seq<i32>, perm: Seq<usize>, n: int, x: int) -> (i: int)
    requires
        ranking(sc, perm, n),
        0 <= x < n,
    ensures
        0 <= i < n,
        perm[i] == x,
{
    let listed = Seq::new(n as nat, |k: int| perm[k] as int);
    assert(listed.no_duplicates()) by {
        assert forall|a: int, b: int|
            0 <= a < listed.len() && 0 <= b < listed.len() && a != b implies listed[a]
            != listed[b] by {
            if a < b {
                assert(comes_before(sc, perm[a] as int, perm[b] as int));
            } else {
                assert(comes_before(sc, perm[b] as int, perm[a] as int));
            }
        }
    }
    listed.unique_seq_to_set();
    let all = vstd::set_lib::set_int_range(0, n);
    vstd::set_lib::lemma_int_range(0, n);
    assert(listed.to_set().subset_of(all));
    vstd::set_lib::lemma_subset_equality(listed.to_set(), all);
    assert(listed.to_set().contains(x));
    let i = choose|i: int| 0 <= i < listed.len() && listed[i] == x;
    i
}

/// Scores fix the order completely.
pub proof fn law_order_is_unique(ms: Seq<i16>, sc: Seq<i32>, a: Seq<i16>, b: Seq<i16>)
    requires
        sc.len() == ms.len(),
        ordered_by(ms, sc, a),
        ordered_by(ms, sc, b),
    ensures
        a == b,
{
    reveal(ordered_by);
    let n = ms.len() as int;
    let p = choose|perm: Seq<usize>| #[trigger]
        ranking(sc, perm, n) && a.len() == ms.len() && forall|i: int|
            0 <= i < ms.len() ==> #[trigger] a[i] == ms[perm[i] as int];
    let q = choose|perm: Seq<usize>| #[trigger]
        ranking(sc, perm, n) && b.len() == ms.len() && forall|i: int|
            0 <= i < ms.len() ==> #[trigger] b[i] == ms[perm[i] as int];
    lemma_rankings_agree_upto(sc, p, q, n, n);
    assert(a =~= b);
}

/// Ordering neither loses nor invents a move: each generated move has its place in the
/// ordered list, and each ordered move was generated.
pub proof fn law_order_keeps_the_moves(ms: Seq<i16>, sc: Seq<i32>, out: Seq<i16>, m: i16)
    requires
        sc.len() == ms.len(),
        ordered_by(ms, sc, out),
    ensures
        out.len() == ms.len(),
        out.contains(m) == ms.contains(m),
{
    reveal(ordered_by);
    let n = ms.len() as int;
    let perm = choose|perm: Seq<usize>| #[trigger]
        ranking(sc, perm, n) && out.len() == ms.len() && forall|i: int|
            0 <= i < ms.len() ==> #[trigger] out[i] == ms[perm[i] as int];
    if out.contains(m) {
        let i = choose|i: int| 0 <= i < out.len() && out[i] == m;
        assert(ms[perm[i] as int] == m);
    }
    if ms.contains(m) {
        let x = choose|x: int| 0 <= x < ms.len() && ms[x] == m;
        let i = lemma_ranking_covers(sc, perm, n, x);
        assert(out[i] == m);
    }
}

/// A pawn move one step nearer to the goal is ordered before one that is farther, unless
/// the table names the farther one.
pub proof fn law_progress_comes_first(
    h: History,
    dist: Seq<u8>,
    stm: int,
    ply: int,
    near: int,
    far: int,
    tt_move: int,
    cm_move: int,
    prev: int,
    prior: Option<(Seq<i32>, u32)>,
)
    requires
        moves::pawn_id(near),
        moves::pawn_id(far),
        far != tt_move,
        dist[near] < dist[far],
    ensures
        move_score(h, dist, stm, ply, near, tt_move, cm_move, prev, prior) > move_score(
            h,
            dist,
            stm,
            ply,
            far,
            tt_move,
            cm_move,
            prev,
            prior,
        ),
{
    history::law_tiebreak_stays_inside_a_step(h.hist_of(stm, near));
    history::law_tiebreak_stays_inside_a_step(h.hist_of(stm, far));
}

/// Wall and pawn heat of a node's moves.
pub struct Heat {
    /// By move identifier; zero for moves not of the node.
    pub by_id: Vec<i32>,
    /// Hottest move and hottest wall, zero at least.
    pub max_move: u32,
    pub max_wall: u32,
}

/// Heat of a move: what the map says, with a small bonus for a wall next to a route.
pub open spec fn heat_of(base: Seq<i32>, touch: Seq<bool>, m: int) -> int {
    num::clamped(
        if m < base.len() {
            base[m] as int
        } else {
            0
        },
        -1_000_000_000,
        1_000_000_000,
    ) + if moves::wall_id(m) && m < touch.len() && touch[m] {
        20int
    } else {
        0int
    }
}

/// Largest heat among the first `n` moves, walls only or all, zero at least.
pub open spec fn hottest(
    base: Seq<i32>,
    touch: Seq<bool>,
    ms: Seq<i16>,
    walls_only: bool,
    n: int,
) -> int
    decreases n,
{
    if n <= 0 {
        0
    } else {
        let before = hottest(base, touch, ms, walls_only, n - 1);
        let m = ms[n - 1] as int;
        if walls_only && !moves::wall_id(m) {
            before
        } else {
            num::larger(before, heat_of(base, touch, m))
        }
    }
}

/// The heat of a node's moves, by what the map and the routes say.
pub open spec fn is_heat(base: Seq<i32>, touch: Seq<bool>, ms: Seq<i16>, h: Heat) -> bool {
    &&& h.by_id@.len() == 256
    &&& forall|m: int|
        0 <= m < 256 ==> #[trigger] h.by_id@[m] == if ms.contains(m as i16) {
            heat_of(base, touch, m)
        } else {
            0
        }
    &&& h.max_move == hottest(base, touch, ms, false, ms.len() as int)
    &&& h.max_wall == hottest(base, touch, ms, true, ms.len() as int)
}

/// Collects the heat of a node's moves. Walls and pawn moves are scaled apart, so both
/// maxima are kept.
pub fn prepare_heat(base: &Vec<i32>, touch: &Vec<bool>, ms: &Vec<i16>) -> (h: Heat)
    requires
        forall|i: int| 0 <= i < ms@.len() ==> moves::move_id(#[trigger] ms@[i] as int),
    ensures
        is_heat(base@, touch@, ms@, h),
{
    let mut by_id: Vec<i32> = vec![0i32; 256];
    let mut max_move: u32 = 0;
    let mut max_wall: u32 = 0;
    let n: usize = ms.len();
    let mut i: usize = 0;
    while i < n
        invariant
            i <= n,
            n == ms@.len(),
            forall|k: int| 0 <= k < ms@.len() ==> moves::move_id(#[trigger] ms@[k] as int),
            by_id@.len() == 256,
            forall|m: int|
                0 <= m < 256 ==> #[trigger] by_id@[m] == if ms@.take(i as int).contains(m as i16) {
                    heat_of(base@, touch@, m)
                } else {
                    0
                },
            max_move == hottest(base@, touch@, ms@, false, i as int),
            max_wall == hottest(base@, touch@, ms@, true, i as int),
            max_move <= 1_000_000_020,
            max_wall <= 1_000_000_020,
        decreases n - i,
    {
        let m: i16 = ms[i];
        let at: usize = m as usize;
        let raw: i32 = if at < base.len() {
            base[at]
        } else {
            0
        };
        let mut heat: i32 = num::clamp_i32(raw, -1_000_000_000, 1_000_000_000);
        let wall: bool = moves::is_wall_move(m);
        if wall && at < touch.len() && touch[at] {
            heat = heat + 20;
        }
        let ghost before = by_id@;
        by_id.set(at, heat);
        let warm: u32 = heat.max(0) as u32;
        max_move = max_move.max(warm);
        if wall {
            max_wall = max_wall.max(warm);
        }
        proof {
            let taken = ms@.take(i as int);
            let more = ms@.take(i + 1);
            assert(more =~= taken.push(m));
            assert forall|x: int| 0 <= x < 256 implies #[trigger] by_id@[x] == if more.contains(
                x as i16,
            ) {
                heat_of(base@, touch@, x)
            } else {
                0
            } by {
                if x == at {
                    assert(more[i as int] == x as i16);
                } else {
                    if more.contains(x as i16) {
                        let k = choose|k: int| 0 <= k < more.len() && more[k] == x as i16;
                        assert(taken[k] == x as i16);
                    }
                    if taken.contains(x as i16) {
                        let k = choose|k: int| 0 <= k < taken.len() && taken[k] == x as i16;
                        assert(more[k] == x as i16);
                    }
                }
            }
        }
        i += 1;
    }
    assert(ms@.take(n as int) =~= ms@);
    Heat { by_id, max_move, max_wall }
}

} // verus!

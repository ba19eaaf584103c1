//! The moves of the root: legal, best first, without those the book denies.

use crate::game;
use crate::history::History;
use crate::host::SearchHost;
use crate::movegen;
use crate::ordering;
use crate::ordering::BookHints;
use crate::routes;
use crate::search;
use crate::search::TitaniumSearch;
use crate::trace;
use vstd::prelude::*;

verus! {

/// Legal moves of a position.
pub open spec fn legal_moves(p: game::Position) -> Seq<i16> {
    movegen::generated(p, true, movegen::WallPolicy::Lazy, Seq::empty(), 0)
}

/// The book denies the move: some place that holds it is denied.
pub open spec fn is_denied(ms: Seq<i16>, denied: Seq<bool>, m: i16) -> bool {
    exists|i: int| 0 <= i < ms.len() && #[trigger] ms[i] == m && denied[i]
}

/// The moves among the first `n` of a list that are not denied.
pub open spec fn undenied(list: Seq<i16>, ms: Seq<i16>, denied: Seq<bool>, n: int) -> Seq<i16>
    decreases n,
{
    if n <= 0 {
        Seq::empty()
    } else if is_denied(ms, denied, list[n - 1]) {
        undenied(list, ms, denied, n - 1)
    } else {
        undenied(list, ms, denied, n - 1).push(list[n - 1])
    }
}

/// Ordering scores of the root moves, with the table's or the last search's move in front.
pub open spec fn root_scores(p: game::Position, h: History, hint: int, book: BookHints) -> Seq<
    i32,
> {
    ordering::final_scores(
        ordering::plain_scores(
            h,
            routes::field_of(p.w, p.turn),
            p.turn,
            0,
            legal_moves(p),
            hint,
            0,
            0,
            None,
        ),
        legal_moves(p),
        0,
        book,
    )
}

/// The list in order, before denied moves are taken out.
pub open spec fn in_order(
    p: game::Position,
    h: History,
    hint: int,
    book: BookHints,
    list: Seq<i16>,
) -> bool {
    ordering::same_moves(legal_moves(p), list) && ordering::ordered_by(
        legal_moves(p),
        root_scores(p, h, hint, book),
        list,
    )
}

/// `out` holds the legal moves in order, without those the book denies.
pub open spec fn root_list_is(
    p: game::Position,
    h: History,
    hint: int,
    book: BookHints,
    out: Seq<i16>,
) -> bool {
    book.denied@.len() == legal_moves(p).len() && exists|list: Seq<i16>| #[trigger]
        in_order(p, h, hint, book, list) && out == undenied(
            list,
            legal_moves(p),
            book.denied@,
            list.len() as int,
        )
}

/// `out` is the root list for some answers of the book, under this order and weight.
pub open spec fn root_list_of<H: SearchHost>(
    s: TitaniumSearch,
    h: History,
    hint: int,
    out: Seq<i16>,
) -> bool {
    exists|book: BookHints| #[trigger]
        root_list_is(s.g@, h, hint, book, out) && book.order@ == s.book_order@ && book.attention@
            == s.book_attention@ && denials_told::<H>(s.g@, book)
}

/// Every legal move is denied, or not, as the book says of it.
pub open spec fn denials_told<H: SearchHost>(p: game::Position, book: BookHints) -> bool {
    &&& book.denied@.len() == legal_moves(p).len()
    &&& forall|i: int|
        0 <= i < legal_moves(p).len() ==> trace::denial_told::<H>(
            p,
            legal_moves(p)[i],
            #[trigger] book.denied@[i],
        )
}

/// Every legal move is listed or denied, and only legal undenied moves are listed.
pub proof fn law_root_list_is_complete(
    p: game::Position,
    h: History,
    hint: int,
    book: BookHints,
    out: Seq<i16>,
    m: i16,
)
    requires
        root_list_is(p, h, hint, book, out),
    ensures
        out.contains(m) == (legal_moves(p).contains(m) && !is_denied(
            legal_moves(p),
            book.denied@,
            m,
        )),
{
    let legal = legal_moves(p);
    let list = choose|list: Seq<i16>| #[trigger]
        in_order(p, h, hint, book, list) && out == undenied(
            list,
            legal,
            book.denied@,
            list.len() as int,
        );
    lemma_undenied(list, legal, book.denied@, list.len() as int, m);
    assert(list.take(list.len() as int) =~= list);
    assert(list.contains(m) == legal.contains(m));
}

proof fn lemma_undenied(list: Seq<i16>, ms: Seq<i16>, denied: Seq<bool>, n: int, m: i16)
    requires
        0 <= n <= list.len(),
    ensures
        undenied(list, ms, denied, n).contains(m) == (list.take(n).contains(m) && !is_denied(
            ms,
            denied,
            m,
        )),
    decreases n,
{
    if n > 0 {
        lemma_undenied(list, ms, denied, n - 1, m);
        let before = undenied(list, ms, denied, n - 1);
        let now = undenied(list, ms, denied, n);
        let last = list[n - 1];
        assert(list.take(n) =~= list.take(n - 1).push(last));
        assert(list.take(n - 1).push(last).contains(m) == (list.take(n - 1).contains(m) || last
            == m)) by {
            let t = list.take(n - 1).push(last);
            if t.contains(m) {
                let i = choose|i: int| 0 <= i < t.len() && t[i] == m;
                if i < n - 1 {
                    assert(list.take(n - 1)[i] == m);
                }
            }
            if list.take(n - 1).contains(m) {
                let first = list.take(n - 1);
                let i = choose|i: int| 0 <= i < first.len() && first[i] == m;
                assert(t[i] == m);
            }
            if last == m {
                assert(t[n - 1] == m);
            }
        }
        if !is_denied(ms, denied, last) {
            assert(now == before.push(last));
            if now.contains(m) {
                let i = choose|i: int| 0 <= i < now.len() && now[i] == m;
                if i < before.len() {
                    assert(before[i] == m);
                }
            }
            if before.contains(m) {
                let i = choose|i: int| 0 <= i < before.len() && before[i] == m;
                assert(now[i] == m);
            }
            if last == m {
                assert(now[before.len() as int] == m);
            }
        }
    }
}

fn denies(ms: &Vec<i16>, denied: &Vec<bool>, m: i16) -> (yes: bool)
    requires
        denied@.len() == ms@.len(),
    ensures
        yes == is_denied(ms@, denied@, m),
{
    let mut i: usize = 0;
    while i < ms.len()
        invariant
            i <= ms@.len(),
            denied@.len() == ms@.len(),
            forall|k: int| 0 <= k < i ==> !(#[trigger] ms@[k] == m && denied@[k]),
        decreases ms@.len() - i,
    {
        if ms[i] == m && denied[i] {
            assert(ms@[i as int] == m);
            return true;
        }
        i += 1;
    }
    false
}

impl TitaniumSearch {
    /// Asks the book about each move, once.
    pub(crate) fn ask_book<H: SearchHost>(&self, ms: &Vec<i16>, host: &mut H) -> (book: BookHints)
        ensures
            book.order@ == self.book_order@,
            book.attention@ == self.book_attention@,
            book.denied@.len() == ms@.len(),
            forall|i: int|
                0 <= i < ms@.len() ==> trace::denial_told::<H>(
                    self.g@,
                    ms@[i],
                    #[trigger] book.denied@[i],
                ),
    {
        let mut denied: Vec<bool> = Vec::new();
        let mut i: usize = 0;
        while i < ms.len()
            invariant
                i <= ms@.len(),
                denied@.len() == i,
                forall|k: int|
                    0 <= k < i ==> trace::denial_told::<H>(self.g@, ms@[k], #[trigger] denied@[k]),
            decreases ms@.len() - i,
        {
            let ghost h = *host;
            let d: bool = host.move_denied(&self.g, ms[i]);
            assert(h.denies(self.g@, ms@[i as int]) == d);
            denied.push(d);
            i += 1;
        }
        BookHints {
            order: search::copy_moves(&self.book_order),
            attention: search::copy_i32(&self.book_attention),
            denied,
        }
    }

    /// Root moves for a hint, and what the book said of them.
    pub(crate) fn root_list<H: SearchHost>(&self, hint: i16, host: &mut H) -> (r: (
        Vec<i16>,
        BookHints,
    ))
        requires
            self.ready(0),
            self.dist.fields_are(self.g.topo()),
        ensures
            movegen::all_playable(self.g@, r.0@),
            root_list_is(self.g@, self.hist, hint as int, r.1, r.0@),
            root_list_of::<H>(*self, self.hist, hint as int, r.0@),
            forall|i: int|
                0 <= i < r.0@.len() ==> legal_moves(self.g@).contains(#[trigger] r.0@[i]),
    {
        let none: Vec<bool> = Vec::new();
        assert(none@ =~= Seq::empty());
        let ms: Vec<i16> = movegen::gen_moves_inner(
            &self.g,
            0,
            movegen::WallPolicy::Lazy,
            &none,
            0,
        );
        let heat = ordering::prepare_heat(&Vec::new(), &Vec::new(), &ms);
        let book = self.ask_book(&ms, host);
        let list = self.order_node(0, &ms, hint, 0, 0, false, &heat, &book);
        proof {
            routes::lemma_field_of(self.g.topo(), self.g@.turn, self.mover_field());
            search::lemma_same_moves_playable(self.g@, ms@, list@);
            assert(in_order(self.g@, self.hist, hint as int, book, list@));
        }
        let mut out: Vec<i16> = Vec::new();
        let n: usize = list.len();
        let mut k: usize = 0;
        while k < n
            invariant
                k <= n,
                n == list@.len(),
                book.denied@.len() == ms@.len(),
                movegen::all_playable(self.g@, list@),
                movegen::all_playable(self.g@, out@),
                ordering::same_moves(ms@, list@),
                forall|j: int| 0 <= j < out@.len() ==> ms@.contains(#[trigger] out@[j]),
                out@ == undenied(list@, ms@, book.denied@, k as int),
            decreases n - k,
        {
            let m: i16 = list[k];
            assert(list@.contains(m)) by {
                assert(list@[k as int] == m);
            }
            if !denies(&ms, &book.denied, m) {
                out.push(m);
            }
            k += 1;
        }
        proof {
            assert(root_list_is(self.g@, self.hist, hint as int, book, out@));
        }
        (out, book)
    }
}

} // verus!

//! What written text promises its readers: a number reads back as itself, a quoted text as what
//! was quoted, a report says of each thing what it is, and a path is judged by where it lies and
//! what it is called.

use crate::hygiene;
use crate::json;
use crate::json::{BoardFacts, PonderTelemetry, ProgressNumbers};
use crate::moves;
use crate::root_select::RootDefenseDiag;
use crate::score;
use crate::score::RaceResultInfo;
use crate::text;
use crate::think::ThinkResult;
use crate::timing::{AceDepthLogEntry, TimingDiag};
use vstd::prelude::*;

verus! {

// Numbers.

/// A decimal digit.
pub open spec fn is_digit(c: char) -> bool {
    '0' <= c && c <= '9'
}

/// The number that digits spell, the last one counting least.
pub open spec fn spelled(t: Seq<char>) -> int
    decreases t.len(),
{
    if t.len() == 0 {
        0
    } else {
        10 * spelled(t.drop_last()) + (t.last() as int - 48)
    }
}

/// A written number is digits, not empty, without a leading zero but for zero itself, and reads
/// back as the number.
pub proof fn law_numbers_read_back(n: nat)
    ensures
        text::dec(n).len() > 0,
        forall|i: int| 0 <= i < text::dec(n).len() ==> is_digit(#[trigger] text::dec(n)[i]),
        spelled(text::dec(n)) == n,
        n > 0 ==> text::dec(n)[0] != '0',
        n == 0 ==> text::dec(n) == seq!['0'],
    decreases n,
{
    let t = text::dec(n);
    if n >= 10 {
        law_numbers_read_back(n / 10);
        let d = text::digit_char((n % 10) as int);
        assert(t.drop_last() =~= text::dec(n / 10));
        assert(t.last() == d);
        assert(d as int == 48 + n % 10);
    } else {
        assert(t.drop_last() =~= Seq::<char>::empty());
        assert(spelled(Seq::<char>::empty()) == 0);
        assert(t.last() as int == 48 + n);
    }
}

/// A signed number is its size, behind a minus sign where it is below zero and nowhere else.
pub proof fn law_signed_numbers_read_back(i: int)
    ensures
        i < 0 <==> text::dec_int(i)[0] == '-',
        i >= 0 ==> spelled(text::dec_int(i)) == i,
        i < 0 ==> spelled(text::dec_int(i).drop_first()) == -i,
{
    if i < 0 {
        law_numbers_read_back((-i) as nat);
        assert(text::dec_int(i).drop_first() =~= text::dec((-i) as nat));
    } else {
        law_numbers_read_back(i as nat);
        assert(is_digit(text::dec(i as nat)[0]));
    }
}

/// Different numbers are written differently.
pub proof fn law_numbers_differ(a: int, b: int)
    requires
        text::dec_int(a) == text::dec_int(b),
    ensures
        a == b,
{
    law_signed_numbers_read_back(a);
    law_signed_numbers_read_back(b);
}

// Quoting.

/// What a quoted text says: a backslash stands for the character behind it; a bare quotation
/// mark or a backslash with nothing behind it says nothing.
pub open spec fn unquoted(t: Seq<char>) -> Option<Seq<char>>
    decreases t.len(),
{
    if t.len() == 0 {
        Some(Seq::empty())
    } else if t[0] == '"' {
        None
    } else if t[0] == '\\' {
        if t.len() < 2 {
            None
        } else {
            match unquoted(t.skip(2)) {
                Some(rest) => Some(seq![t[1]] + rest),
                None => None,
            }
        }
    } else {
        match unquoted(t.skip(1)) {
            Some(rest) => Some(seq![t[0]] + rest),
            None => None,
        }
    }
}

/// A quoted text says what was quoted.
pub proof fn law_quoting_reads_back(pre: Seq<char>, t: Seq<char>)
    ensures
        json::escaped(pre, t, t.len() as int).len() >= pre.len() + t.len(),
        json::escaped(pre, t, t.len() as int).subrange(0, pre.len() as int) == pre,
        unquoted(
            json::escaped(pre, t, t.len() as int).subrange(
                pre.len() as int,
                json::escaped(pre, t, t.len() as int).len() as int,
            ),
        ) == Some(t),
{
    let none = Seq::<char>::empty();
    lemma_escaped_behind(pre, t, t.len() as int);
    lemma_unquoted(t);
    let body = json::escaped(none, t, t.len() as int);
    let all = json::escaped(pre, t, t.len() as int);
    assert(all.subrange(0, pre.len() as int) =~= pre);
    assert(all.subrange(pre.len() as int, all.len() as int) =~= body);
}

proof fn lemma_escaped_behind(pre: Seq<char>, t: Seq<char>, n: int)
    requires
        0 <= n <= t.len(),
    ensures
        json::escaped(pre, t, n) == pre + json::escaped(Seq::empty(), t, n),
        json::escaped(Seq::empty(), t, n).len() >= n,
    decreases n,
{
    reveal_strlit("\\\\");
    reveal_strlit("\\\"");
    if n > 0 {
        lemma_escaped_behind(pre, t, n - 1);
        let e = json::escaped_char(t[n - 1]);
        assert(json::escaped(pre, t, n) =~= pre + json::escaped(Seq::empty(), t, n));
    } else {
        assert(json::escaped(pre, t, n) =~= pre + json::escaped(Seq::empty(), t, n));
    }
}

proof fn lemma_escaped_first(t: Seq<char>, n: int)
    requires
        0 < n <= t.len(),
    ensures
        json::escaped(Seq::empty(), t, n) == json::escaped_char(t[0]) + json::escaped(
            Seq::empty(),
            t.skip(1),
            n - 1,
        ),
    decreases n,
{
    let none = Seq::<char>::empty();
    if n > 1 {
        lemma_escaped_first(t, n - 1);
        assert(t.skip(1)[n - 2] == t[n - 1]);
    } else {
        assert(json::escaped(none, t, 0) == none);
        assert(json::escaped(none, t.skip(1), 0) == none);
    }
    assert(json::escaped(none, t, n) =~= json::escaped_char(t[0]) + json::escaped(
        none,
        t.skip(1),
        n - 1,
    ));
}

proof fn lemma_unquoted(t: Seq<char>)
    ensures
        unquoted(json::escaped(Seq::empty(), t, t.len() as int)) == Some(t),
    decreases t.len(),
{
    let none = Seq::<char>::empty();
    reveal_strlit("\\\\");
    reveal_strlit("\\\"");
    let n = t.len() as int;
    if n == 0 {
        assert(t =~= none);
    } else {
        lemma_escaped_first(t, n);
        lemma_unquoted(t.skip(1));
        let rest = json::escaped(none, t.skip(1), n - 1);
        let e = json::escaped_char(t[0]);
        let all = json::escaped(none, t, n);
        assert(all =~= e + rest);
        assert(seq![t[0]] + t.skip(1) =~= t);
        if t[0] == '\\' || t[0] == '"' {
            assert(all.skip(2) =~= rest);
            assert(all[0] == '\\');
            assert(all[1] == t[0]);
        } else {
            assert(all.skip(1) =~= rest);
            assert(all[0] == t[0]);
        }
    }
}

// Reports.

/// The text holds the key with the value right behind it.
pub open spec fn says(t: Seq<char>, key: Seq<char>, value: Seq<char>) -> bool {
    exists|a: Seq<char>, b: Seq<char>| t == #[trigger] ((a + key) + value + b)
}

proof fn lemma_says(t: Seq<char>, key: Seq<char>, value: Seq<char>, more: Seq<char>)
    requires
        says(t, key, value),
    ensures
        says(t + more, key, value),
{
    let (a, b) = choose|a: Seq<char>, b: Seq<char>| t == #[trigger] ((a + key) + value + b);
    assert(t + more =~= (a + key) + value + (b + more));
}

proof fn lemma_says_now(a: Seq<char>, key: Seq<char>, value: Seq<char>)
    ensures
        says((a + key) + value, key, value),
{
    assert((a + key) + value =~= (a + key) + value + Seq::<char>::empty());
}

/// Writing on keeps what was said.
proof fn lemma_reports()
    ensures
        forall|t: Seq<char>, key: Seq<char>, value: Seq<char>, more: Seq<char>|
            says(t, key, value) ==> #[trigger] says(t + more, key, value),
        forall|a: Seq<char>, key: Seq<char>, value: Seq<char>|
            #![trigger says((a + key) + value, key, value)]
            says((a + key) + value, key, value),
{
    assert forall|t: Seq<char>, key: Seq<char>, value: Seq<char>, more: Seq<char>|
        says(t, key, value) implies #[trigger] says(t + more, key, value) by {
        lemma_says(t, key, value, more);
    }
    assert forall|a: Seq<char>, key: Seq<char>, value: Seq<char>|
        #![trigger says((a + key) + value, key, value)]
        says((a + key) + value, key, value) by {
        lemma_says_now(a, key, value);
    }
}

/// Writing numbers on keeps what was said.
proof fn lemma_numbers_keep(pre: Seq<char>, items: Seq<u64>, n: int, key: Seq<char>, value: Seq<char>)
    requires
        says(pre, key, value),
    ensures
        says(json::numbers(pre, items, n), key, value),
    decreases n,
{
    lemma_reports();
    if n > 0 {
        lemma_numbers_keep(pre, items, n - 1, key, value);
    }
}

/// Writing signed numbers on keeps what was said.
proof fn lemma_signed_numbers_keep(
    pre: Seq<char>,
    items: Seq<i32>,
    n: int,
    key: Seq<char>,
    value: Seq<char>,
)
    requires
        says(pre, key, value),
    ensures
        says(json::signed_numbers(pre, items, n), key, value),
    decreases n,
{
    lemma_reports();
    if n > 0 {
        lemma_signed_numbers_keep(pre, items, n - 1, key, value);
    }
}

/// Writing a quoted text on keeps what was said.
proof fn lemma_escaped_keep(pre: Seq<char>, t: Seq<char>, n: int, key: Seq<char>, value: Seq<char>)
    requires
        says(pre, key, value),
    ensures
        says(json::escaped(pre, t, n), key, value),
    decreases n,
{
    lemma_reports();
    if n > 0 {
        lemma_escaped_keep(pre, t, n - 1, key, value);
    }
}

/// Writing iterations on keeps what was said.
proof fn lemma_depth_entries_keep(
    pre: Seq<char>,
    items: Seq<AceDepthLogEntry>,
    n: int,
    key: Seq<char>,
    value: Seq<char>,
)
    requires
        says(pre, key, value),
    ensures
        says(json::depth_entries(pre, items, n), key, value),
    decreases n,
{
    lemma_reports();
    lemma_lists_keep();
    if n > 0 {
        lemma_depth_entries_keep(pre, items, n - 1, key, value);
    }
}

/// Writing a list on keeps what was said.
proof fn lemma_lists_keep()
    ensures
        forall|pre: Seq<char>, items: Seq<u64>, n: int, key: Seq<char>, value: Seq<char>|
            says(pre, key, value) ==> #[trigger] says(json::numbers(pre, items, n), key, value),
        forall|pre: Seq<char>, items: Seq<i32>, n: int, key: Seq<char>, value: Seq<char>|
            says(pre, key, value) ==> #[trigger] says(
                json::signed_numbers(pre, items, n),
                key,
                value,
            ),
        forall|pre: Seq<char>, t: Seq<char>, n: int, key: Seq<char>, value: Seq<char>|
            says(pre, key, value) ==> #[trigger] says(json::escaped(pre, t, n), key, value),
{
    assert forall|pre: Seq<char>, items: Seq<u64>, n: int, key: Seq<char>, value: Seq<char>|
        says(pre, key, value) implies #[trigger] says(
        json::numbers(pre, items, n),
        key,
        value,
    ) by {
        lemma_numbers_keep(pre, items, n, key, value);
    }
    assert forall|pre: Seq<char>, items: Seq<i32>, n: int, key: Seq<char>, value: Seq<char>|
        says(pre, key, value) implies #[trigger] says(
        json::signed_numbers(pre, items, n),
        key,
        value,
    ) by {
        lemma_signed_numbers_keep(pre, items, n, key, value);
    }
    assert forall|pre: Seq<char>, t: Seq<char>, n: int, key: Seq<char>, value: Seq<char>|
        says(pre, key, value) implies #[trigger] says(json::escaped(pre, t, n), key, value) by {
        lemma_escaped_keep(pre, t, n, key, value);
    }
}

/// A report of a search says why it stopped, its depths and its nodes.
pub proof fn law_search_report(pre: Seq<char>, label: Seq<char>, r: ThinkResult)
    ensures
        ({
            let t = json::info_head_text(pre, label, r);
            &&& says(t, "info json {\"engine\":\""@, label)
            &&& says(t, "\",\"stoppedBy\":\""@, r.stop_reason@)
            &&& says(t, "\",\"searchDepth\":"@, text::dec_int(r.depth as int))
            &&& says(t, ",\"nodes\":"@, text::dec(r.nodes as nat))
            &&& says(t, ",\"mainThreadNodes\":"@, text::dec(r.main_thread_nodes as nat))
            &&& says(t, "],\"totalNodes\":"@, text::dec(r.total_nodes as nat))
            &&& says(t, ",\"mainCompletedDepth\":"@, text::dec_int(r.main_completed_depth as int))
        }),
{
    lemma_reports();
    lemma_lists_keep();
}

/// A finished iteration is reported with its own depth, score, nodes and time.
pub proof fn law_iteration_report(pre: Seq<char>, e: AceDepthLogEntry)
    ensures
        ({
            let t = json::depth_entry_text(pre, e);
            &&& says(t, "{\"depth\":"@, text::dec_int(e.depth as int))
            &&& says(t, ",\"score\":"@, text::dec_int(e.score as int))
            &&& says(t, "\",\"nodes\":"@, text::dec(e.nodes as nat))
            &&& says(t, ",\"elapsedMs\":"@, text::dec(e.elapsed_ms as nat))
            &&& says(t, ",\"marginalNodes\":"@, text::dec(e.marginal_nodes as nat))
        }),
{
    lemma_reports();
    lemma_lists_keep();
}

/// A ranked root move is reported with its own move, score and rank.
pub proof fn law_ranked_move_report(pre: Seq<char>, e: (i16, i32), rank: int)
    ensures
        ({
            let t = json::ranked_move_text(pre, e, rank);
            &&& says(t, "{\"move\":\""@, moves::algebraic(e.0 as int))
            &&& says(t, "\",\"score\":"@, text::dec_int(e.1 as int))
            &&& says(t, ",\"rank\":"@, text::dec(rank as nat))
        }),
{
    lemma_reports();
}

/// A progress report says the numbers of the search so far.
pub proof fn law_progress_report(
    pre: Seq<char>,
    label: Seq<char>,
    log: Seq<AceDepthLogEntry>,
    p: ProgressNumbers,
    helpers: Seq<u64>,
    root: Seq<char>,
    best: Seq<char>,
)
    ensures
        ({
            let t = json::progress_text(pre, label, log, p, helpers, root, best);
            &&& says(t, "\",\"searchDepth\":"@, text::dec_int(p.search_depth as int))
            &&& says(t, ",\"nodes\":"@, text::dec(p.nodes as nat))
            &&& says(t, ",\"mainThreadNodes\":"@, text::dec(p.main_thread_nodes as nat))
            &&& says(t, "],\"totalNodes\":"@, text::dec(p.total_nodes as nat))
            &&& says(t, ",\"rootScore\":"@, text::dec_int(p.root_score as int))
            &&& says(t, "\",\"whiteDist\":"@, text::dec(p.white_dist as nat))
            &&& says(t, ",\"blackDist\":"@, text::dec(p.black_dist as nat))
            &&& says(t, ",\"elapsedMs\":"@, text::dec(p.elapsed_ms as nat))
            &&& says(t, "],\"rootMoves\":["@, root)
            &&& says(t, "],\"multiPv\":["@, best)
        }),
{
    lemma_reports();
    lemma_lists_keep();
    assert forall|
        pre: Seq<char>,
        items: Seq<AceDepthLogEntry>,
        n: int,
        key: Seq<char>,
        value: Seq<char>,
    |
        says(pre, key, value) implies #[trigger] says(
        json::depth_entries(pre, items, n),
        key,
        value,
    ) by {
        lemma_depth_entries_keep(pre, items, n, key, value);
    }
}

/// A root move of a lost position is reported with its own move, score, distances and effort.
pub proof fn law_defence_report(pre: Seq<char>, e: RootDefenseDiag)
    ensures
        ({
            let t = json::defense_entry_text(pre, e);
            &&& says(t, "{\"move\":\""@, moves::algebraic(e.mv as int))
            &&& says(t, ",\"childDepthUsed\":"@, text::dec_int(e.child_depth_used as int))
            &&& says(t, "\",\"fullDepthSearched\":"@, text::bool_text(e.full_depth_searched))
            &&& says(t, ",\"resultClass\":\""@, e.result_class@)
            &&& says(t, ",\"searchScore\":"@, text::dec_int(e.search_score as int))
            &&& says(t, ",\"staticEval\":"@, text::dec_int(e.static_eval as int))
            &&& says(t, ",\"nodes\":"@, text::dec(e.nodes as nat))
            &&& says(t, ",\"ownDistBefore\":"@, text::dec_int(e.own_dist_before as int))
            &&& says(t, ",\"ownDistAfter\":"@, text::dec_int(e.own_dist_after as int))
            &&& says(t, ",\"oppDistAfter\":"@, text::dec_int(e.opp_dist_after as int))
        }),
{
    lemma_reports();
}

/// The race fields of a report are those of the result: proven where there is an outcome, with
/// the exact distance where it is known.
pub proof fn law_race_report(pre: Seq<char>, race: RaceResultInfo)
    ensures
        ({
            let t = json::race_fields_text(pre, race);
            &&& says(
                t,
                "\",\"scoreProven\":"@,
                if race.outcome == 0 {
                    "false"@
                } else {
                    "true"@
                },
            )
            &&& says(t, ",\"raceOutcome\":"@, text::dec_int(race.outcome as int))
            &&& says(
                t,
                ",\"dtm\":"@,
                match race.exact_dtm {
                    Some(n) => text::dec_int(n as int),
                    None => "null"@,
                },
            )
            &&& says(
                t,
                ",\"estimatedPlies\":"@,
                match race.approximate_plies {
                    Some(n) => text::dec_int(n as int),
                    None => "null"@,
                },
            )
            &&& says(
                t,
                ",\"estimateTolerancePlies\":"@,
                text::dec(race.approximation_tolerance as nat),
            )
        }),
{
    lemma_reports();
}

/// A report of a search says its score, its distances, its time and its budgets.
pub proof fn law_timing_report(pre: Seq<char>, r: ThinkResult, d: TimingDiag)
    ensures
        ({
            let t = json::info_timing_text(pre, r, d);
            &&& says(t, ",\"rootScore\":"@, text::dec_int(r.score as int))
            &&& says(t, "\",\"whiteDist\":"@, text::dec(r.white_dist as nat))
            &&& says(t, ",\"blackDist\":"@, text::dec(r.black_dist as nat))
            &&& says(t, ",\"elapsedMs\":"@, text::dec(r.ms as nat))
            &&& says(t, ",\"allocatedHardMs\":"@, text::dec(d.allocated_hard_ms as nat))
            &&& says(t, ",\"allocatedSoftMs\":"@, text::dec(d.allocated_soft_ms as nat))
            &&& says(t, ",\"searchableMs\":"@, text::dec(d.searchable_ms as nat))
            &&& says(t, ",\"gateReserveMs\":"@, text::dec(d.gate_reserve_ms as nat))
            &&& says(t, ",\"hardOvershootMs\":"@, text::dec_int(d.hard_overshoot_ms as int))
            &&& says(t, ",\"softOvershootMs\":"@, text::dec_int(d.soft_overshoot_ms as int))
            &&& says(t, ",\"lastIterMs\":"@, text::dec(d.last_iter_ms as nat))
            &&& says(t, ",\"prevIterMs\":"@, text::dec(d.prev_iter_ms as nat))
            &&& says(t, ",\"bestMoveChanges\":"@, text::dec(d.best_move_changes as nat))
            &&& says(t, ",\"softFractionBp\":"@, text::dec(d.soft_fraction_bp as nat))
        }),
{
    lemma_reports();
}

/// A report of a position says its walls, pawns, side to move and distances, each of its own
/// player, and the lead in walls of the side to move.
pub proof fn law_board_report(pre: Seq<char>, p: PonderTelemetry, b: BoardFacts)
    ensures
        ({
            let t = json::info_board_text(pre, p, b);
            &&& says(t, ",\"ponderNodes\":"@, text::dec(p.nodes as nat))
            &&& says(t, ",\"ponderChunks\":"@, text::dec(p.chunks as nat))
            &&& says(t, ",\"ponderMs\":"@, text::dec(p.ms as nat))
            &&& says(t, "\",\"ponderHit\":"@, text::bool_text(p.hit))
            &&& says(t, ",\"wallsP0\":"@, text::dec_int(b.walls_p0 as int))
            &&& says(t, ",\"wallsP1\":"@, text::dec_int(b.walls_p1 as int))
            &&& says(t, ",\"pawnP0\":"@, text::dec(b.pawn_p0 as nat))
            &&& says(t, ",\"pawnP1\":"@, text::dec(b.pawn_p1 as nat))
            &&& says(t, ",\"turn\":"@, text::dec(b.turn as nat))
            &&& says(t, ",\"distP0\":"@, text::dec(b.dist_p0 as nat))
            &&& says(t, ",\"distP1\":"@, text::dec(b.dist_p1 as nat))
            &&& says(t, ",\"jaDistP0\":"@, text::dec_int(b.ja_p0 as int))
            &&& says(t, ",\"jaDistP1\":"@, text::dec_int(b.ja_p1 as int))
            &&& b.turn == 0 ==> says(t, ",\"wallDiffSide\":"@, text::dec_int(b.walls_p0 - b.walls_p1))
            &&& b.turn == 1 ==> says(t, ",\"wallDiffSide\":"@, text::dec_int(b.walls_p1 - b.walls_p0))
        }),
{
    lemma_reports();
}

/// Nodes per second are what the search did per thousand milliseconds, rounded down.
pub proof fn law_speed(nodes: int, ms: int)
    requires
        0 <= nodes,
        nodes * 1000 <= u64::MAX,
        0 <= ms,
    ensures
        ms > 0 ==> json::nodes_per_second(nodes, ms) * ms <= nodes * 1000,
        ms > 0 ==> nodes * 1000 < (json::nodes_per_second(nodes, ms) + 1) * ms,
        ms == 0 ==> json::nodes_per_second(nodes, ms) == nodes * 1000,
{
    if ms > 0 {
        let a = nodes * 1000;
        let q = a / ms;
        assert(q * ms <= a && a < (q + 1) * ms) by (nonlinear_arith)
            requires
                q == a / ms,
                0 < ms,
                0 <= a,
        ;
    } else {
        let a = nodes * 1000;
        assert(a / 1 == a);
    }
}

/// The best few root moves are the first of all of them.
pub proof fn law_best_few(ms: Seq<(i16, i32)>, few: int)
    ensures
        few >= ms.len() ==> json::multipv_text(ms, few) == json::root_text(ms, true),
        few <= 0 ==> json::multipv_text(ms, few).len() == 0,
        json::root_text(ms, false).len() == 0,
{
}

/// The first of the ranked moves is one with the highest score.
pub proof fn law_best_is_first(ms: Seq<(i16, i32)>, n: int, i: int)
    requires
        0 <= i < n <= ms.len(),
    ensures
        json::best_first(ms, n).len() == n,
        json::best_first(ms, n).contains(ms[i]),
        json::best_first(ms, n)[0].1 >= ms[i].1,
{
    lemma_best_first_holds(ms, n, i);
    json::law_best_first_descends(ms, n);
    let s = json::best_first(ms, n);
    let k = choose|k: int| 0 <= k < s.len() && s[k] == ms[i];
    if k > 0 {
        assert(s[0].1 >= s[k].1);
    }
}

proof fn lemma_best_first_holds(ms: Seq<(i16, i32)>, n: int, i: int)
    requires
        0 <= n <= ms.len(),
    ensures
        json::best_first(ms, n).len() == n,
        0 <= i < n ==> json::best_first(ms, n).contains(ms[i]),
    decreases n,
{
    if n > 0 {
        lemma_best_first_holds(ms, n - 1, i);
        let s = json::best_first(ms, n - 1);
        lemma_ranked_in_holds(s, ms[n - 1], ms[n - 1]);
        if i < n - 1 {
            lemma_ranked_in_holds(s, ms[n - 1], ms[i]);
        }
    }
}

proof fn lemma_ranked_in_holds(s: Seq<(i16, i32)>, x: (i16, i32), y: (i16, i32))
    ensures
        json::ranked_in(s, x).len() == s.len() + 1,
        y == x || s.contains(y) ==> json::ranked_in(s, x).contains(y),
    decreases s.len(),
{
    let r = json::ranked_in(s, x);
    if s.len() == 0 || s.last().1 >= x.1 {
        assert(r[s.len() as int] == x);
        if s.contains(y) {
            let k = choose|k: int| 0 <= k < s.len() && s[k] == y;
            assert(r[k] == y);
        }
    } else {
        let t = s.drop_last();
        lemma_ranked_in_holds(t, x, y);
        let q = json::ranked_in(t, x);
        assert(r[q.len() as int] == s.last());
        if y == x || s.contains(y) {
            if y != x && y != s.last() {
                let k = choose|k: int| 0 <= k < s.len() && s[k] == y;
                assert(t[k] == y);
                assert(t.contains(y));
            }
            if y == x || t.contains(y) {
                let k = choose|k: int| 0 <= k < q.len() && q[k] == y;
                assert(r[k] == y);
            }
        }
    }
}

// Labels.

/// A report names a proven end with its plies, and who it is for, and calls nothing else
/// proven.
pub proof fn law_labels(plies: int)
    requires
        0 <= plies < 900,
    ensures
        score::label(100_000 - plies) == "mate in "@ + text::dec_int(plies),
        score::label(plies - 100_000) == "mated in "@ + text::dec_int(plies),
        score::label(50_000 - plies) == "race win in "@ + text::dec_int(plies),
        score::label(plies - 50_000) == "race loss in "@ + text::dec_int(plies),
        score::label(plies) == "cp "@ + text::dec_int(plies),
        score::label(-plies) == "cp "@ + text::dec_int(-plies),
        score::label(36_877) == "proven race win"@,
        score::label(-36_877) == "proven race loss"@,
{
}

// Paths.

/// The text ends in the other.
pub open spec fn ends_in(t: Seq<char>, tail: Seq<char>) -> bool {
    t.len() >= tail.len() && t.subrange(t.len() - tail.len(), t.len() as int) == tail
}

/// The text begins with the other.
pub open spec fn begins_with(t: Seq<char>, head: Seq<char>) -> bool {
    t.len() >= head.len() && t.subrange(0, head.len() as int) == head
}

/// A pattern without a star fits itself alone.
proof fn lemma_plain_pattern(p: Seq<char>, n: Seq<char>)
    requires
        !p.contains('*'),
    ensures
        hygiene::glob(p, n) <==> p == n,
    decreases p.len(),
{
    if p.len() > 0 {
        assert(p[0] != '*');
        let q = p.drop_first();
        assert forall|i: int| 0 <= i < q.len() implies q[i] != '*' by {
            assert(q[i] == p[i + 1]);
        }
        lemma_plain_pattern(q, n.drop_first());
        if n.len() > 0 {
            if p[0] == n[0] && q == n.drop_first() {
                assert(p =~= seq![p[0]] + q);
                assert(n =~= seq![n[0]] + n.drop_first());
            }
        }
    } else {
        assert(n.len() == 0 ==> p =~= n);
    }
}

/// A star in front fits any beginning: the name ends in the rest of the pattern.
pub proof fn law_star_in_front(tail: Seq<char>, n: Seq<char>)
    requires
        !tail.contains('*'),
    ensures
        hygiene::glob(seq!['*'] + tail, n) <==> ends_in(n, tail),
    decreases n.len(),
{
    let p = seq!['*'] + tail;
    assert(p[0] == '*');
    assert(p.drop_first() =~= tail);
    lemma_plain_pattern(tail, n);
    assert(n.subrange(0, n.len() as int) =~= n);
    if n.len() > 0 {
        law_star_in_front(tail, n.drop_first());
        let m = n.drop_first();
        if tail.len() <= m.len() {
            assert(m.subrange(m.len() - tail.len(), m.len() as int) =~= n.subrange(
                n.len() - tail.len(),
                n.len() as int,
            ));
        }
    }
}

/// A star behind fits any end: the name begins with the rest of the pattern.
pub proof fn law_star_behind(head: Seq<char>, n: Seq<char>)
    requires
        !head.contains('*'),
    ensures
        hygiene::glob(head.push('*'), n) <==> begins_with(n, head),
    decreases head.len() + n.len(),
{
    let p = head.push('*');
    if head.len() == 0 {
        assert(p[0] == '*');
        assert(p.drop_first() =~= Seq::<char>::empty());
        assert(n.subrange(0, 0) =~= head);
        lemma_plain_pattern(Seq::<char>::empty(), n);
        assert(n.len() == 0 ==> n =~= Seq::<char>::empty());
        if n.len() > 0 {
            law_star_behind(head, n.drop_first());
            assert(n.drop_first().subrange(0, 0) =~= head);
        }
    } else {
        assert(p[0] == head[0]);
        assert(head[0] != '*');
        let q = head.drop_first();
        assert forall|i: int| 0 <= i < q.len() implies q[i] != '*' by {
            assert(q[i] == head[i + 1]);
        }
        assert(p.drop_first() =~= q.push('*'));
        if n.len() > 0 {
            let m = n.drop_first();
            law_star_behind(q, m);
            if n.len() >= head.len() {
                assert(n.subrange(0, head.len() as int) =~= seq![n[0]] + m.subrange(
                    0,
                    q.len() as int,
                ));
                assert(head =~= seq![head[0]] + q);
                if n.subrange(0, head.len() as int) == head {
                    assert(m.subrange(0, q.len() as int) =~= n.subrange(0, head.len() as int).drop_first());
                    assert(n.subrange(0, head.len() as int)[0] == n[0]);
                }
            }
        }
    }
}

/// The name of a file is the end of its path, holds no slash, and has one before it or nothing.
pub proof fn law_file_name(t: Seq<char>)
    ensures
        ends_in(t, hygiene::file_name(t)),
        !hygiene::file_name(t).contains('/'),
        hygiene::file_name(t).len() < t.len() ==> t[t.len() - hygiene::file_name(t).len() - 1] == '/',
    decreases t.len(),
{
    let f = hygiene::file_name(t);
    if t.len() == 0 || t.last() == '/' {
        assert(t.subrange(t.len() as int, t.len() as int) =~= f);
    } else {
        let u = t.drop_last();
        law_file_name(u);
        let g = hygiene::file_name(u);
        assert(t.subrange(t.len() - f.len(), t.len() as int) =~= u.subrange(
            u.len() - g.len(),
            u.len() as int,
        ).push(t.last()));
        assert forall|i: int| 0 <= i < f.len() implies f[i] != '/' by {
            if i < g.len() {
                assert(f[i] == g[i]);
            }
        }
    }
}

/// Letters of either case count alike.
pub proof fn law_case_does_not_count(path: Seq<char>)
    ensures
        hygiene::lowered(path).len() == path.len(),
        hygiene::lowered(hygiene::lowered(path)) == hygiene::lowered(path),
        hygiene::path_reason(hygiene::lowered(path)) == hygiene::path_reason(path),
        forall|i: int|
            0 <= i < path.len() ==> !('A' <= #[trigger] hygiene::lowered(path)[i]
                && hygiene::lowered(path)[i] <= 'Z'),
        forall|i: int|
            0 <= i < path.len() && !('A' <= #[trigger] path[i] && path[i] <= 'Z')
                ==> hygiene::lowered(path)[i] == path[i],
{
    let l = hygiene::lowered(path);
    assert forall|i: int| 0 <= i < path.len() implies !('A' <= #[trigger] l[i] && l[i] <= 'Z')
        && hygiene::lower(l[i]) == l[i] by {
        assert(l[i] == hygiene::lower(path[i]));
    }
    assert(hygiene::lowered(l) =~= l);
}

/// What lies under the weights of the sources belongs.
pub proof fn law_shipped_weights_belong(path: Seq<char>)
    requires
        begins_with(hygiene::lowered(path), "src/weights/"@),
    ensures
        hygiene::path_reason(path) is None,
{
}

/// What lies in one of the working directories does not belong.
pub proof fn law_working_directories_do_not_belong(path: Seq<char>)
    requires
        !begins_with(hygiene::lowered(path), "src/weights/"@),
    ensures
        begins_with(hygiene::lowered(path), "training/"@) || begins_with(
            hygiene::lowered(path),
            "runs/"@,
        ) || begins_with(hygiene::lowered(path), "gates/"@) || begins_with(
            hygiene::lowered(path),
            "data/"@,
        ) || begins_with(hygiene::lowered(path), "weights/"@) ==> hygiene::path_reason(path) is Some,
{
}

/// What is called like a log, a database, a program, weights or a patch does not belong.
pub proof fn law_artifacts_do_not_belong(path: Seq<char>)
    requires
        !begins_with(hygiene::lowered(path), "src/weights/"@),
    ensures
        ({
            let name = hygiene::file_name(hygiene::lowered(path));
            ends_in(name, ".log"@) || ends_in(name, ".jsonl"@) || ends_in(name, ".db"@) || ends_in(
                name,
                ".exe"@,
            ) || ends_in(name, ".dll"@) || ends_in(name, ".pt"@) || ends_in(name, ".pth"@) || ends_in(
                name,
                ".onnx"@,
            ) || ends_in(name, ".npz"@) || ends_in(name, ".patch"@)
        }) ==> hygiene::path_reason(path) is Some,
        ({
            let name = hygiene::file_name(hygiene::lowered(path));
            begins_with(name, "morning_brief"@) || begins_with(name, "session_"@) || begins_with(
                name,
                "brief_"@,
            ) || begins_with(name, "progress.txt"@)
        }) ==> hygiene::path_reason(path) is Some,
{
    let name = hygiene::file_name(hygiene::lowered(path));
    reveal_strlit("*.log");
    reveal_strlit(".log");
    reveal_strlit("*.jsonl");
    reveal_strlit(".jsonl");
    reveal_strlit("*.db");
    reveal_strlit(".db");
    reveal_strlit("*.exe");
    reveal_strlit(".exe");
    reveal_strlit("*.dll");
    reveal_strlit(".dll");
    reveal_strlit("*.pt");
    reveal_strlit(".pt");
    reveal_strlit("*.pth");
    reveal_strlit(".pth");
    reveal_strlit("*.onnx");
    reveal_strlit(".onnx");
    reveal_strlit("*.npz");
    reveal_strlit(".npz");
    reveal_strlit("*.patch");
    reveal_strlit(".patch");
    reveal_strlit("morning_brief*");
    reveal_strlit("morning_brief");
    reveal_strlit("session_*");
    reveal_strlit("session_");
    reveal_strlit("brief_*");
    reveal_strlit("brief_");
    reveal_strlit("progress.txt");
    lemma_ending(".log"@, "*.log"@, name);
    lemma_ending(".jsonl"@, "*.jsonl"@, name);
    lemma_ending(".db"@, "*.db"@, name);
    lemma_ending(".exe"@, "*.exe"@, name);
    lemma_ending(".dll"@, "*.dll"@, name);
    lemma_ending(".pt"@, "*.pt"@, name);
    lemma_ending(".pth"@, "*.pth"@, name);
    lemma_ending(".onnx"@, "*.onnx"@, name);
    lemma_ending(".npz"@, "*.npz"@, name);
    lemma_ending(".patch"@, "*.patch"@, name);
    lemma_beginning("morning_brief"@, "morning_brief*"@, name);
    lemma_beginning("session_"@, "session_*"@, name);
    lemma_beginning("brief_"@, "brief_*"@, name);
    law_star_behind("progress.txt"@, name);
}

proof fn lemma_ending(tail: Seq<char>, p: Seq<char>, name: Seq<char>)
    requires
        !tail.contains('*'),
        p =~= seq!['*'] + tail,
    ensures
        hygiene::glob(hygiene::glob_pattern(p), name) <==> ends_in(name, tail),
{
    assert(p[0] == '*');
    assert(p.contains('*'));
    law_star_in_front(tail, name);
}

proof fn lemma_beginning(head: Seq<char>, p: Seq<char>, name: Seq<char>)
    requires
        !head.contains('*'),
        p =~= head.push('*'),
    ensures
        hygiene::glob(hygiene::glob_pattern(p), name) <==> begins_with(name, head),
{
    assert(p[head.len() as int] == '*');
    assert(p.contains('*'));
    law_star_behind(head, name);
}

} // verus!

//! Reports as JSON text. Each function states the exact text it writes.

use crate::game::GameState;
use crate::game_length;
use crate::moves;
use crate::num;
use crate::root_select::RootDefenseDiag;
use crate::score;
use crate::score::RaceResultInfo;
use crate::text;
use crate::think::ThinkResult;
use crate::time_alloc;
use crate::timing::{AceDepthLogEntry, TimingDiag};
use vstd::prelude::*;

verus! {

/// An optional number, or `null`.
pub open spec fn or_null(v: Option<int>) -> Seq<char> {
    match v {
        Some(n) => text::dec_int(n),
        None => "null"@,
    }
}

fn push_or_null(out: &mut String, v: Option<i64>)
    ensures
        final(out)@ == old(out)@ + or_null(
            match v {
                Some(n) => Some(n as int),
                None => None,
            },
        ),
{
    match v {
        Some(n) => text::push_i64(out, n),
        None => out.append("null"),
    }
}

fn push_move(out: &mut String, m: i16)
    ensures
        final(out)@ == old(out)@ + moves::algebraic(m as int),
{
    let t = moves::move_id_to_algebraic(m);
    out.append(t.as_str());
}

fn push_label(out: &mut String, value: i32)
    requires
        value > i32::MIN,
    ensures
        final(out)@ == old(out)@ + score::label(value as int),
{
    let t = score::score_label(value);
    out.append(t.as_str());
}

/// The number inside, if any.
pub open spec fn opt_int(v: Option<i32>) -> Option<int> {
    match v {
        Some(n) => Some(n as int),
        None => None,
    }
}

fn widen_i32(v: Option<i32>) -> (r: Option<i64>)
    ensures
        (match r {
            Some(n) => Some(n as int),
            None => None,
        }) == opt_int(v),
{
    match v {
        Some(n) => Some(n as i64),
        None => None,
    }
}

/// One root move of a lost-position pass.
pub open spec fn defense_entry_text(pre: Seq<char>, e: RootDefenseDiag) -> Seq<char> {
    pre
        + "{\"move\":\""@ + moves::algebraic(e.mv as int)
        + "\",\"fullDepthSearched\":"@
        + text::bool_text(e.full_depth_searched)
        + ",\"childDepthUsed\":"@
        + text::dec_int(e.child_depth_used as int)
        + ",\"resultClass\":\""@
        + e.result_class@
        + "\",\"dtm\":"@ + or_null(opt_int(e.dtm))
        + ",\"searchScore\":"@
        + text::dec_int(e.search_score as int)
        + ",\"staticEval\":"@
        + text::dec_int(e.static_eval as int)
        + ",\"nodes\":"@
        + text::dec(e.nodes as nat)
        + ",\"finalSelectionKey\":"@
        + text::dec_int(e.selection_key as int)
        + ",\"ownDistBefore\":"@
        + text::dec_int(e.own_dist_before as int)
        + ",\"ownDistAfter\":"@
        + text::dec_int(e.own_dist_after as int)
        + ",\"oppDistAfter\":"@
        + text::dec_int(e.opp_dist_after as int)
        + "}"@
}

/// Writes one root move of a lost-position pass.
fn push_defense_entry(out: &mut String, e: &RootDefenseDiag)
    ensures
        final(out)@ == defense_entry_text(old(out)@, *e),
{
    out.append("{\"move\":\"");
    push_move(out, e.mv);
    out.append("\",\"fullDepthSearched\":");
    text::push_bool(out, e.full_depth_searched);
    out.append(",\"childDepthUsed\":");
    text::push_i64(out, e.child_depth_used as i64);
    out.append(",\"resultClass\":\"");
    out.append(e.result_class);
    out.append("\",\"dtm\":");
    push_or_null(out, widen_i32(e.dtm));
    out.append(",\"searchScore\":");
    text::push_i64(out, e.search_score as i64);
    out.append(",\"staticEval\":");
    text::push_i64(out, e.static_eval as i64);
    out.append(",\"nodes\":");
    text::push_u64(out, e.nodes as u64);
    out.append(",\"finalSelectionKey\":");
    text::push_i64(out, e.selection_key as i64);
    out.append(",\"ownDistBefore\":");
    text::push_i64(out, e.own_dist_before as i64);
    out.append(",\"ownDistAfter\":");
    text::push_i64(out, e.own_dist_after as i64);
    out.append(",\"oppDistAfter\":");
    text::push_i64(out, e.opp_dist_after as i64);
    out.append("}");
}

/// The first `n` entries, separated by commas.
pub open spec fn defense_entries(pre: Seq<char>, items: Seq<RootDefenseDiag>, n: int) -> Seq<char>
    decreases n,
{
    if n <= 0 {
        pre
    } else {
        let before = defense_entries(pre, items, n - 1);
        defense_entry_text((if n > 1 {
            before + ","@
        } else {
            before
        }), items[n - 1])
    }
}

fn push_defense_entries(out: &mut String, items: &[RootDefenseDiag])
    ensures
        final(out)@ == defense_entries(old(out)@, items@, items@.len() as int),
{
    let ghost pre = out@;
    let n: usize = items.len();
    let mut i: usize = 0;
    while i < n
        invariant
            i <= n,
            n == items@.len(),
            pre == old(out)@,
            out@ == defense_entries(pre, items@, i as int),
        decreases n - i,
    {
        if i > 0 {
            out.append(",");
        }
        push_defense_entry(out, &items[i]);
        i += 1;
    }
}

/// The whole pass as a JSON list.
pub fn format_root_defense_diag_json(entries: &[RootDefenseDiag]) -> (json: String)
    ensures
        json@ == defense_entries("["@, entries@, entries@.len() as int) + "]"@,
{
    let mut out: String = String::new();
    out.append("[");
    assert(out@ =~= "["@);
    push_defense_entries(&mut out, entries);
    out.append("]");
    out
}

/// The first `n` numbers, separated by commas.
pub open spec fn numbers(pre: Seq<char>, items: Seq<u64>, n: int) -> Seq<char>
    decreases n,
{
    if n <= 0 {
        pre
    } else {
        let before = numbers(pre, items, n - 1);
        (if n > 1 {
            before + ","@
        } else {
            before
        }) + text::dec(items[n - 1] as nat)
    }
}

fn push_numbers(out: &mut String, items: &[u64])
    ensures
        final(out)@ == numbers(old(out)@, items@, items@.len() as int),
{
    let ghost pre = out@;
    let n: usize = items.len();
    let mut i: usize = 0;
    while i < n
        invariant
            i <= n,
            n == items@.len(),
            pre == old(out)@,
            out@ == numbers(pre, items@, i as int),
        decreases n - i,
    {
        if i > 0 {
            out.append(",");
        }
        text::push_u64(out, items[i]);
        i += 1;
    }
}

/// The first `n` signed numbers, separated by commas.
pub open spec fn signed_numbers(pre: Seq<char>, items: Seq<i32>, n: int) -> Seq<char>
    decreases n,
{
    if n <= 0 {
        pre
    } else {
        let before = signed_numbers(pre, items, n - 1);
        (if n > 1 {
            before + ","@
        } else {
            before
        }) + text::dec_int(items[n - 1] as int)
    }
}

fn push_signed_numbers(out: &mut String, items: &[i32])
    ensures
        final(out)@ == signed_numbers(old(out)@, items@, items@.len() as int),
{
    let ghost pre = out@;
    let n: usize = items.len();
    let mut i: usize = 0;
    while i < n
        invariant
            i <= n,
            n == items@.len(),
            pre == old(out)@,
            out@ == signed_numbers(pre, items@, i as int),
        decreases n - i,
    {
        if i > 0 {
            out.append(",");
        }
        text::push_i64(out, items[i] as i64);
        i += 1;
    }
}

/// One character inside a JSON string.
pub open spec fn escaped_char(c: char) -> Seq<char> {
    if c == '\\' {
        "\\\\"@
    } else if c == '"' {
        "\\\""@
    } else {
        seq![c]
    }
}

/// The first `n` characters of `t` inside a JSON string.
pub open spec fn escaped(pre: Seq<char>, t: Seq<char>, n: int) -> Seq<char>
    decreases n,
{
    if n <= 0 {
        pre
    } else {
        escaped(pre, t, n - 1) + escaped_char(t[n - 1])
    }
}

fn push_escaped(out: &mut String, t: &str)
    ensures
        final(out)@ == escaped(old(out)@, t@, t@.len() as int),
{
    let ghost pre = out@;
    let n: usize = t.unicode_len();
    let mut i: usize = 0;
    while i < n
        invariant
            i <= n,
            n == t@.len(),
            pre == old(out)@,
            out@ == escaped(pre, t@, i as int),
        decreases n - i,
    {
        let c: char = t.get_char(i);
        if c == '\\' {
            out.append("\\\\");
        } else if c == '"' {
            out.append("\\\"");
        } else {
            let one = t.substring_char(i, i + 1);
            assert(one@ =~= seq![c]);
            out.append(one);
        }
        i += 1;
    }
}

/// One finished iteration.
pub open spec fn depth_entry_text(pre: Seq<char>, e: AceDepthLogEntry) -> Seq<char> {
    escaped(pre
        + "{\"depth\":"@
        + text::dec_int(e.depth as int)
        + ",\"score\":"@
        + text::dec_int(e.score as int)
        + ",\"scoreText\":\""@ + score::label(e.score as int)
        + "\",\"nodes\":"@
        + text::dec(e.nodes as nat)
        + ",\"elapsedMs\":"@
        + text::dec(e.elapsed_ms as nat)
        + ",\"marginalNodes\":"@
        + text::dec(e.marginal_nodes as nat)
        + ",\"pv\":\""@, e.pv@, e.pv@.len() as int)
        + "\"}"@
}

/// Writes one finished iteration.
fn push_depth_entry(out: &mut String, e: &AceDepthLogEntry)
    requires
        e.score > i32::MIN,
    ensures
        final(out)@ == depth_entry_text(old(out)@, *e),
{
    out.append("{\"depth\":");
    text::push_i64(out, e.depth as i64);
    out.append(",\"score\":");
    text::push_i64(out, e.score as i64);
    out.append(",\"scoreText\":\"");
    push_label(out, e.score);
    out.append("\",\"nodes\":");
    text::push_u64(out, e.nodes as u64);
    out.append(",\"elapsedMs\":");
    text::push_u64(out, e.elapsed_ms as u64);
    out.append(",\"marginalNodes\":");
    text::push_u64(out, e.marginal_nodes as u64);
    out.append(",\"pv\":\"");
    push_escaped(out, e.pv.as_str());
    out.append("\"}");
}

/// The first `n` iterations, separated by commas.
pub open spec fn depth_entries(pre: Seq<char>, items: Seq<AceDepthLogEntry>, n: int) -> Seq<char>
    decreases n,
{
    if n <= 0 {
        pre
    } else {
        let before = depth_entries(pre, items, n - 1);
        depth_entry_text((if n > 1 {
            before + ","@
        } else {
            before
        }), items[n - 1])
    }
}

fn push_depth_entries(out: &mut String, items: &[AceDepthLogEntry])
    requires
        forall|k: int| 0 <= k < items@.len() ==> (#[trigger] items@[k]).score > i32::MIN,
    ensures
        final(out)@ == depth_entries(old(out)@, items@, items@.len() as int),
{
    let ghost pre = out@;
    let n: usize = items.len();
    let mut i: usize = 0;
    while i < n
        invariant
            i <= n,
            n == items@.len(),
            pre == old(out)@,
            out@ == depth_entries(pre, items@, i as int),
            forall|k: int| 0 <= k < items@.len() ==> (#[trigger] items@[k]).score > i32::MIN,
        decreases n - i,
    {
        if i > 0 {
            out.append(",");
        }
        push_depth_entry(out, &items[i]);
        i += 1;
    }
}

/// One root move with its rank.
pub open spec fn ranked_move_text(pre: Seq<char>, e: (i16, i32), rank: int) -> Seq<char> {
    pre
        + "{\"move\":\""@ + moves::algebraic(e.0 as int)
        + "\",\"score\":"@
        + text::dec_int(e.1 as int)
        + ",\"rank\":"@
        + text::dec(rank as nat)
        + "}"@
}

/// Writes one root move with its rank.
fn push_ranked_move(out: &mut String, e: (i16, i32), rank: u64)
    ensures
        final(out)@ == ranked_move_text(old(out)@, e, rank as int),
{
    out.append("{\"move\":\"");
    push_move(out, e.0);
    out.append("\",\"score\":");
    text::push_i64(out, e.1 as i64);
    out.append(",\"rank\":");
    text::push_u64(out, rank as u64);
    out.append("}");
}

/// The first `n` root moves with their ranks.
pub open spec fn ranked_moves(pre: Seq<char>, ms: Seq<(i16, i32)>, n: int) -> Seq<char>
    decreases n,
{
    if n <= 0 {
        pre
    } else {
        let before = ranked_moves(pre, ms, n - 1);
        ranked_move_text(
            if n > 1 {
                before + ","@
            } else {
                before
            },
            ms[n - 1],
            n,
        )
    }
}

fn push_ranked_moves(out: &mut String, ms: &Vec<(i16, i32)>, n: usize)
    requires
        n <= ms@.len(),
    ensures
        final(out)@ == ranked_moves(old(out)@, ms@, n as int),
{
    let ghost pre = out@;
    let mut i: usize = 0;
    while i < n
        invariant
            i <= n <= ms@.len(),
            pre == old(out)@,
            out@ == ranked_moves(pre, ms@, i as int),
        decreases n - i,
    {
        if i > 0 {
            out.append(",");
        }
        push_ranked_move(out, ms[i], i as u64 + 1);
        i += 1;
    }
}

/// Root moves and the best few of them, both with ranks. Root moves are left out when they
/// are not wanted.
pub fn format_ranked_root_json(ordered: &Vec<(i16, i32)>, root_scores: bool, multipv: usize) -> (r: (
    String,
    String,
))
    ensures
        r.0@ == if root_scores {
            ranked_moves(Seq::empty(), ordered@, ordered@.len() as int)
        } else {
            Seq::empty()
        },
        r.1@ == ranked_moves(
            Seq::empty(),
            ordered@,
            num::smaller(multipv as int, ordered@.len() as int),
        ),
{
    let mut root: String = String::new();
    assert(root@ =~= Seq::empty());
    if root_scores {
        push_ranked_moves(&mut root, ordered, ordered.len());
    }
    let mut best: String = String::new();
    assert(best@ =~= Seq::empty());
    push_ranked_moves(&mut best, ordered, multipv.min(ordered.len()));
    (root, best)
}

/// `x` put behind every entry that is no worse.
pub open spec fn ranked_in(s: Seq<(i16, i32)>, x: (i16, i32)) -> Seq<(i16, i32)>
    decreases s.len(),
{
    if s.len() == 0 || s.last().1 >= x.1 {
        s.push(x)
    } else {
        ranked_in(s.drop_last(), x).push(s.last())
    }
}

/// The first `n` root moves, best first, ties in their old order.
pub open spec fn best_first(ms: Seq<(i16, i32)>, n: int) -> Seq<(i16, i32)>
    decreases n,
{
    if n <= 0 {
        Seq::empty()
    } else {
        ranked_in(best_first(ms, n - 1), ms[n - 1])
    }
}

/// Scores do not rise from one entry to the next.
pub open spec fn descends(s: Seq<(i16, i32)>) -> bool {
    forall|i: int, j: int| 0 <= i < j < s.len() ==> (#[trigger] s[i]).1 >= (#[trigger] s[j]).1
}

proof fn lemma_ranked_in(s: Seq<(i16, i32)>, x: (i16, i32), at: int)
    requires
        0 <= at <= s.len(),
        at > 0 ==> s[at - 1].1 >= x.1,
        forall|k: int| at <= k < s.len() ==> (#[trigger] s[k]).1 < x.1,
    ensures
        ranked_in(s, x) == s.insert(at, x),
    decreases s.len(),
{
    if at == s.len() {
        assert(s.insert(at, x) =~= s.push(x));
    } else {
        let t = s.drop_last();
        assert(s.last().1 < x.1);
        assert forall|k: int| at <= k < t.len() implies (#[trigger] t[k]).1 < x.1 by {
            assert(t[k] == s[k]);
        }
        lemma_ranked_in(t, x, at);
        assert(s.insert(at, x) =~= t.insert(at, x).push(s.last()));
    }
}

/// The best root move comes first, and no move is lost.
pub proof fn law_best_first_descends(ms: Seq<(i16, i32)>, n: int)
    requires
        0 <= n <= ms.len(),
    ensures
        best_first(ms, n).len() == n,
        descends(best_first(ms, n)),
        best_first(ms, n).to_multiset() == ms.take(n).to_multiset(),
    decreases n,
{
    broadcast use vstd::seq_lib::group_to_multiset_ensures;

    if n > 0 {
        law_best_first_descends(ms, n - 1);
        lemma_ranked_in_descends(best_first(ms, n - 1), ms[n - 1]);
        assert(ms.take(n) =~= ms.take(n - 1).push(ms[n - 1]));
    } else {
        assert(ms.take(0) =~= Seq::empty());
    }
}

proof fn lemma_ranked_in_descends(s: Seq<(i16, i32)>, x: (i16, i32))
    requires
        descends(s),
    ensures
        descends(ranked_in(s, x)),
        ranked_in(s, x).len() == s.len() + 1,
        ranked_in(s, x).to_multiset() == s.push(x).to_multiset(),
        forall|i: int|
            0 <= i < ranked_in(s, x).len() ==> (#[trigger] ranked_in(s, x)[i]).1 >= x.1 || (s.len()
                > 0 && ranked_in(s, x)[i].1 >= s.last().1),
    decreases s.len(),
{
    broadcast use vstd::seq_lib::group_to_multiset_ensures;

    if !(s.len() == 0 || s.last().1 >= x.1) {
        let t = s.drop_last();
        assert forall|i: int, j: int| 0 <= i < j < t.len() implies (#[trigger] t[i]).1 >= (
        #[trigger] t[j]).1 by {
            assert(s[i].1 >= s[j].1);
        }
        lemma_ranked_in_descends(t, x);
        let r = ranked_in(t, x);
        assert forall|i: int| 0 <= i < r.len() implies (#[trigger] r[i]).1 >= s.last().1 by {
            if t.len() > 0 {
                assert(s[t.len() - 1].1 >= s[s.len() - 1].1);
            }
        }
        assert(s =~= t.push(s.last()));
    } else {
        assert forall|i: int| 0 <= i < s.len() implies (#[trigger] s[i]).1 >= s.last().1 by {
            if i < s.len() - 1 {
                assert(s[i].1 >= s[s.len() - 1].1);
            }
        }
    }
}

/// The root moves, best first, ties in their old order.
pub fn rank_root_moves(ms: &[(i16, i32)]) -> (out: Vec<(i16, i32)>)
    ensures
        out@ == best_first(ms@, ms@.len() as int),
{
    let n: usize = ms.len();
    let mut out: Vec<(i16, i32)> = Vec::new();
    let mut i: usize = 0;
    assert(out@ =~= Seq::empty());
    while i < n
        invariant
            i <= n,
            n == ms@.len(),
            out@ == best_first(ms@, i as int),
            out@.len() == i,
        decreases n - i,
    {
        let x = ms[i];
        let mut at: usize = i;
        while at > 0 && out[at - 1].1 < x.1
            invariant
                at <= i,
                out@.len() == i,
                forall|k: int| at <= k < i ==> (#[trigger] out@[k]).1 < x.1,
            decreases at,
        {
            at -= 1;
        }
        proof {
            lemma_ranked_in(out@, x, at as int);
        }
        out.insert(at, x);
        i += 1;
    }
    out
}

/// What a progress report says of the search.
#[derive(Clone, Copy, Debug, PartialEq, Eq, Structural)]
pub struct ProgressNumbers {
    pub search_depth: i32,
    pub nodes: u64,
    pub main_thread_nodes: u64,
    pub total_nodes: u64,
    pub root_score: i32,
    pub white_dist: u8,
    pub black_dist: u8,
    pub elapsed_ms: u64,
}

/// A progress report.
pub open spec fn progress_text(pre: Seq<char>, label: Seq<char>, log: Seq<AceDepthLogEntry>, p: ProgressNumbers, helpers: Seq<u64>, root: Seq<char>, best: Seq<char>) -> Seq<char> {
    depth_entries(numbers(pre
        + "{\"engine\":\""@
        + label
        + "\",\"stoppedBy\":\""@
        + label
        + "\",\"searchDepth\":"@
        + text::dec_int(p.search_depth as int)
        + ",\"nodes\":"@
        + text::dec(p.nodes as nat)
        + ",\"mainThreadNodes\":"@
        + text::dec(p.main_thread_nodes as nat)
        + ",\"helperNodes\":["@, helpers, helpers.len() as int)
        + "],\"totalNodes\":"@
        + text::dec(p.total_nodes as nat)
        + ",\"totalNodesAcrossWorkers\":"@
        + text::dec(p.total_nodes as nat)
        + ",\"rootScore\":"@
        + text::dec_int(p.root_score as int)
        + ",\"rootScoreText\":\""@ + score::label(p.root_score as int)
        + "\",\"whiteDist\":"@
        + text::dec(p.white_dist as nat)
        + ",\"blackDist\":"@
        + text::dec(p.black_dist as nat)
        + ",\"elapsedMs\":"@
        + text::dec(p.elapsed_ms as nat)
        + ",\"depthLog\":["@, log, log.len() as int)
        + "],\"rootMoves\":["@
        + root
        + "],\"multiPv\":["@
        + best
        + "]}"@
}

/// Writes a progress report.
fn push_progress(out: &mut String, label: &str, log: &[AceDepthLogEntry], p: &ProgressNumbers, helpers: &[u64], root: &str, best: &str)
    requires
        p.root_score > i32::MIN,
        forall|k: int| 0 <= k < log@.len() ==> (#[trigger] log@[k]).score > i32::MIN,
    ensures
        final(out)@ == progress_text(old(out)@, label@, log@, *p, helpers@, root@, best@),
{
    out.append("{\"engine\":\"");
    out.append(label);
    out.append("\",\"stoppedBy\":\"");
    out.append(label);
    out.append("\",\"searchDepth\":");
    text::push_i64(out, p.search_depth as i64);
    out.append(",\"nodes\":");
    text::push_u64(out, p.nodes as u64);
    out.append(",\"mainThreadNodes\":");
    text::push_u64(out, p.main_thread_nodes as u64);
    out.append(",\"helperNodes\":[");
    push_numbers(out, helpers);
    out.append("],\"totalNodes\":");
    text::push_u64(out, p.total_nodes as u64);
    out.append(",\"totalNodesAcrossWorkers\":");
    text::push_u64(out, p.total_nodes as u64);
    out.append(",\"rootScore\":");
    text::push_i64(out, p.root_score as i64);
    out.append(",\"rootScoreText\":\"");
    push_label(out, p.root_score);
    out.append("\",\"whiteDist\":");
    text::push_u64(out, p.white_dist as u64);
    out.append(",\"blackDist\":");
    text::push_u64(out, p.black_dist as u64);
    out.append(",\"elapsedMs\":");
    text::push_u64(out, p.elapsed_ms as u64);
    out.append(",\"depthLog\":[");
    push_depth_entries(out, log);
    out.append("],\"rootMoves\":[");
    out.append(root);
    out.append("],\"multiPv\":[");
    out.append(best);
    out.append("]}");
}

/// Text of the ranked root moves, where they are wanted.
pub open spec fn root_text(ms: Seq<(i16, i32)>, wanted: bool) -> Seq<char> {
    if wanted {
        ranked_moves(Seq::empty(), best_first(ms, ms.len() as int), ms.len() as int)
    } else {
        Seq::empty()
    }
}

/// Text of the best few root moves.
pub open spec fn multipv_text(ms: Seq<(i16, i32)>, multipv: int) -> Seq<char> {
    ranked_moves(
        Seq::empty(),
        best_first(ms, ms.len() as int),
        num::smaller(multipv, ms.len() as int),
    )
}

/// A progress report as JSON.
pub fn ace_progress_json(
    engine_label: &str,
    depth_log: &[AceDepthLogEntry],
    search_depth: i32,
    nodes: u64,
    main_thread_nodes: u64,
    helper_nodes: &[u64],
    total_nodes: u64,
    root_score: i32,
    root_moves: &[(i16, i32)],
    white_dist: u8,
    black_dist: u8,
    elapsed_ms: u64,
    root_scores: bool,
    multipv: usize,
) -> (json: String)
    requires
        root_score > i32::MIN,
        forall|k: int| 0 <= k < depth_log@.len() ==> (#[trigger] depth_log@[k]).score > i32::MIN,
    ensures
        json@ == progress_text(
            Seq::empty(),
            engine_label@,
            depth_log@,
            (ProgressNumbers {
                search_depth,
                nodes,
                main_thread_nodes,
                total_nodes,
                root_score,
                white_dist,
                black_dist,
                elapsed_ms,
            }),
            helper_nodes@,
            root_text(root_moves@, root_scores),
            multipv_text(root_moves@, multipv as int),
        ),
{
    let p = ProgressNumbers {
        search_depth,
        nodes,
        main_thread_nodes,
        total_nodes,
        root_score,
        white_dist,
        black_dist,
        elapsed_ms,
    };
    let ordered = rank_root_moves(root_moves);
    proof {
        law_best_first_descends(root_moves@, root_moves@.len() as int);
    }
    let (root, best) = format_ranked_root_json(&ordered, root_scores, multipv);
    let mut out: String = String::new();
    assert(out@ =~= Seq::empty());
    push_progress(
        &mut out,
        engine_label,
        depth_log,
        &p,
        helper_nodes,
        root.as_str(),
        best.as_str(),
    );
    out
}

/// Kind of a score: exact race distance, race bound, or plain.
pub open spec fn score_kind(race: RaceResultInfo) -> Seq<char> {
    if race.exact_dtm is Some {
        "race_dtm"@
    } else if race.outcome != 0 {
        "race_bound"@
    } else {
        "score"@
    }
}

fn kind_word(race: &RaceResultInfo) -> (t: &'static str)
    ensures
        t@ == score_kind(*race),
{
    if race.exact_dtm.is_some() {
        "race_dtm"
    } else if race.outcome != 0 {
        "race_bound"
    } else {
        "score"
    }
}

/// The number inside, if any.
pub open spec fn opt_u16(v: Option<u16>) -> Option<int> {
    match v {
        Some(n) => Some(n as int),
        None => None,
    }
}

fn widen_u16(v: Option<u16>) -> (r: Option<i64>)
    ensures
        (match r {
            Some(n) => Some(n as int),
            None => None,
        }) == opt_u16(v),
{
    match v {
        Some(n) => Some(n as i64),
        None => None,
    }
}

/// Race fields and the closing brace.
pub open spec fn race_fields_text(pre: Seq<char>, race: RaceResultInfo) -> Seq<char> {
    pre
        + ",\"scoreKind\":\""@
        + score_kind(race)
        + "\",\"scoreProven\":"@
        + text::bool_text(race.outcome != 0)
        + ",\"raceOutcome\":"@
        + text::dec_int(race.outcome as int)
        + ",\"estimatedPlies\":"@ + or_null(opt_u16(race.approximate_plies))
        + ",\"estimateTolerancePlies\":"@
        + text::dec(race.approximation_tolerance as nat)
        + ",\"dtm\":"@ + or_null(opt_u16(race.exact_dtm))
        + "}"@
}

/// Writes the race fields and the closing brace.
fn push_race_fields(out: &mut String, race: &RaceResultInfo)
    ensures
        final(out)@ == race_fields_text(old(out)@, *race),
{
    out.append(",\"scoreKind\":\"");
    out.append(kind_word(race));
    out.append("\",\"scoreProven\":");
    text::push_bool(out, race.outcome != 0);
    out.append(",\"raceOutcome\":");
    text::push_i64(out, race.outcome as i64);
    out.append(",\"estimatedPlies\":");
    push_or_null(out, widen_u16(race.approximate_plies));
    out.append(",\"estimateTolerancePlies\":");
    text::push_u64(out, race.approximation_tolerance as u64);
    out.append(",\"dtm\":");
    push_or_null(out, widen_u16(race.exact_dtm));
    out.append("}");
}

/// A report with race fields in place of its closing brace.
pub open spec fn with_race(json: Seq<char>, race: RaceResultInfo) -> Seq<char> {
    race_fields_text(
        if json.len() > 0 {
            json.drop_last()
        } else {
            json
        },
        race,
    )
}

/// Puts race fields in place of a report's closing brace.
pub fn append_race_result_json(json: String, race: RaceResultInfo) -> (out: String)
    ensures
        out@ == with_race(json@, race),
{
    let mut out: String = String::new();
    let n: usize = json.as_str().unicode_len();
    if n > 0 {
        let body = json.as_str().substring_char(0, n - 1);
        out.append(body);
        assert(out@ =~= json@.drop_last());
    } else {
        assert(out@ =~= json@);
    }
    push_race_fields(&mut out, &race);
    out
}

/// A finished search as JSON.
pub fn think_result_progress_json(
    engine_label: &str,
    result: &ThinkResult,
    root_scores: bool,
    multipv: usize,
) -> (json: String)
    requires
        result.score > i32::MIN,
        forall|k: int|
            0 <= k < result.depth_log@.len() ==> (#[trigger] result.depth_log@[k]).score > i32::MIN,
    ensures
        json@ == with_race(
            progress_text(
                Seq::empty(),
                engine_label@,
                result.depth_log@,
                (ProgressNumbers {
                    search_depth: result.depth,
                    nodes: result.nodes,
                    main_thread_nodes: result.main_thread_nodes,
                    total_nodes: result.total_nodes,
                    root_score: result.score,
                    white_dist: result.white_dist,
                    black_dist: result.black_dist,
                    elapsed_ms: result.ms,
                }),
                result.helper_nodes@,
                root_text(result.root_moves@, root_scores),
                multipv_text(result.root_moves@, multipv as int),
            ),
            result.race,
        ),
{
    let json = ace_progress_json(
        engine_label,
        &result.depth_log,
        result.depth,
        result.nodes,
        result.main_thread_nodes,
        &result.helper_nodes,
        result.total_nodes,
        result.score,
        &result.root_moves,
        result.white_dist,
        result.black_dist,
        result.ms,
        root_scores,
        multipv,
    );
    append_race_result_json(json, result.race)
}

/// The fields every session reports of a search, left open.
pub open spec fn info_head_text(pre: Seq<char>, label: Seq<char>, r: ThinkResult) -> Seq<char> {
    signed_numbers(numbers(pre
        + "info json {\"engine\":\""@
        + label
        + "\",\"stoppedBy\":\""@
        + r.stop_reason@
        + "\",\"searchDepth\":"@
        + text::dec_int(r.depth as int)
        + ",\"nodes\":"@
        + text::dec(r.nodes as nat)
        + ",\"mainThreadNodes\":"@
        + text::dec(r.main_thread_nodes as nat)
        + ",\"helperNodes\":["@, r.helper_nodes@, r.helper_nodes@.len() as int)
        + "],\"totalNodes\":"@
        + text::dec(r.total_nodes as nat)
        + ",\"mainCompletedDepth\":"@
        + text::dec_int(r.main_completed_depth as int)
        + ",\"helperCompletedDepths\":["@, r.helper_completed_depths@, r.helper_completed_depths@.len() as int)
}

/// Writes the fields every session reports of a search.
fn push_info_head(out: &mut String, label: &str, r: &ThinkResult)
    ensures
        final(out)@ == info_head_text(old(out)@, label@, *r),
{
    out.append("info json {\"engine\":\"");
    out.append(label);
    out.append("\",\"stoppedBy\":\"");
    out.append(r.stop_reason);
    out.append("\",\"searchDepth\":");
    text::push_i64(out, r.depth as i64);
    out.append(",\"nodes\":");
    text::push_u64(out, r.nodes as u64);
    out.append(",\"mainThreadNodes\":");
    text::push_u64(out, r.main_thread_nodes as u64);
    out.append(",\"helperNodes\":[");
    push_numbers(out, &r.helper_nodes);
    out.append("],\"totalNodes\":");
    text::push_u64(out, r.total_nodes as u64);
    out.append(",\"mainCompletedDepth\":");
    text::push_i64(out, r.main_completed_depth as i64);
    out.append(",\"helperCompletedDepths\":[");
    push_signed_numbers(out, &r.helper_completed_depths);
}

/// The report of a plain session.
pub fn session_info_line(engine_flag: &str, r: &ThinkResult) -> (line: String)
    ensures
        line@ == info_head_text(Seq::empty(), engine_flag@, *r) + "]}"@,
{
    let mut out: String = String::new();
    assert(out@ =~= Seq::empty());
    push_info_head(&mut out, engine_flag, r);
    out.append("]}");
    out
}

/// Work done while pondering, told with the move that used it.
#[derive(Clone, Copy, Debug, PartialEq, Eq, Structural)]
pub struct PonderTelemetry {
    pub nodes: u64,
    pub chunks: u32,
    pub ms: u64,
    /// Reply that was stood on; -1 for none.
    pub predicted: i16,
    /// Did the opponent play it?
    pub hit: bool,
}

impl PonderTelemetry {
    /// Nothing pondered. No reply is predicted; zero would name a move.
    pub fn new() -> (t: PonderTelemetry)
        ensures
            t == (PonderTelemetry { nodes: 0, chunks: 0, ms: 0, predicted: -1i16, hit: false }),
    {
        PonderTelemetry { nodes: 0, chunks: 0, ms: 0, predicted: moves::TITANIUM_NO_MOVE, hit: false }
    }
}

impl Default for PonderTelemetry {
    fn default() -> (t: PonderTelemetry)
        ensures
            t == (PonderTelemetry { nodes: 0, chunks: 0, ms: 0, predicted: -1i16, hit: false }),
    {
        Self::new()
    }
}

/// The position as the report tells it.
#[derive(Clone, Copy, Debug, PartialEq, Eq, Structural)]
pub struct BoardFacts {
    pub walls_p0: i32,
    pub walls_p1: i32,
    pub pawn_p0: usize,
    pub pawn_p1: usize,
    pub turn: usize,
    pub hist_len: usize,
    pub dist_p0: u8,
    pub dist_p1: u8,
    /// Distances with jumps; -1 for none.
    pub ja_p0: i32,
    pub ja_p1: i32,
}

/// Nodes per second; a search of no time counts as one millisecond.
pub open spec fn nodes_per_second(nodes: int, ms: int) -> int {
    num::smaller(nodes * 1000, u64::MAX as int) / num::larger(ms, 1)
}

fn speed(nodes: u64, ms: u64) -> (nps: u64)
    ensures
        nps == nodes_per_second(nodes as int, ms as int),
{
    let product: u128 = nodes as u128 * 1000;
    let capped: u64 = if product > u64::MAX as u128 {
        u64::MAX
    } else {
        product as u64
    };
    capped / ms.max(1)
}

/// Walls the side to move has more than the other.
pub open spec fn wall_lead(b: BoardFacts) -> int {
    if b.turn == 0 {
        b.walls_p0 - b.walls_p1
    } else {
        b.walls_p1 - b.walls_p0
    }
}

/// Plies the game lasts at least: the earlier of the two arrivals, when every turn of a
/// player is a jump two steps nearer to goal.
pub open spec fn least_plies_left(b: BoardFacts) -> int {
    game_length::first_end(b.turn as int, b.dist_p0 as int, b.dist_p1 as int)
}

fn first_arrival(b: &BoardFacts) -> (plies: u64)
    ensures
        plies == least_plies_left(*b),
{
    arrival_of(0, b.turn, b.dist_p0).min(arrival_of(1, b.turn, b.dist_p1))
}

fn arrival_of(player: usize, stm: usize, dist: u8) -> (ply: u64)
    ensures
        ply == time_alloc::arrival_ply(
            player as int,
            stm as int,
            time_alloc::turns_for(dist as int),
        ),
{
    let turns: u64 = (dist as u64 + 1) / 2;
    if turns == 0 {
        0
    } else if player == stm {
        2 * turns - 1
    } else {
        2 * turns
    }
}

/// Score, distances and clock of a search.
pub open spec fn info_timing_text(pre: Seq<char>, r: ThinkResult, t: TimingDiag) -> Seq<char> {
    pre
        + ",\"rootScore\":"@
        + text::dec_int(r.score as int)
        + ",\"rootScoreText\":\""@ + score::label(r.score as int)
        + "\",\"whiteDist\":"@
        + text::dec(r.white_dist as nat)
        + ",\"blackDist\":"@
        + text::dec(r.black_dist as nat)
        + ",\"elapsedMs\":"@
        + text::dec(r.ms as nat)
        + ",\"nps\":"@
        + text::dec(nodes_per_second(r.nodes as int, r.ms as int) as nat)
        + ",\"allocatedHardMs\":"@
        + text::dec(t.allocated_hard_ms as nat)
        + ",\"allocatedSoftMs\":"@
        + text::dec(t.allocated_soft_ms as nat)
        + ",\"searchableMs\":"@
        + text::dec(t.searchable_ms as nat)
        + ",\"gateReserveMs\":"@
        + text::dec(t.gate_reserve_ms as nat)
        + ",\"hardOvershootMs\":"@
        + text::dec_int(t.hard_overshoot_ms as int)
        + ",\"softOvershootMs\":"@
        + text::dec_int(t.soft_overshoot_ms as int)
        + ",\"lastIterMs\":"@
        + text::dec(t.last_iter_ms as nat)
        + ",\"prevIterMs\":"@
        + text::dec(t.prev_iter_ms as nat)
        + ",\"bestMoveChanges\":"@
        + text::dec(t.best_move_changes as nat)
        + ",\"partialIterUsed\":"@
        + text::bool_text(t.partial_iter_used)
        + ",\"softFractionBp\":"@
        + text::dec(t.soft_fraction_bp as nat)
}

/// Writes score, distances and clock of a search.
fn push_info_timing(out: &mut String, r: &ThinkResult, t: &TimingDiag)
    requires
        r.score > i32::MIN,
    ensures
        final(out)@ == info_timing_text(old(out)@, *r, *t),
{
    out.append(",\"rootScore\":");
    text::push_i64(out, r.score as i64);
    out.append(",\"rootScoreText\":\"");
    push_label(out, r.score);
    out.append("\",\"whiteDist\":");
    text::push_u64(out, r.white_dist as u64);
    out.append(",\"blackDist\":");
    text::push_u64(out, r.black_dist as u64);
    out.append(",\"elapsedMs\":");
    text::push_u64(out, r.ms as u64);
    out.append(",\"nps\":");
    text::push_u64(out, speed(r.nodes, r.ms) as u64);
    out.append(",\"allocatedHardMs\":");
    text::push_u64(out, t.allocated_hard_ms as u64);
    out.append(",\"allocatedSoftMs\":");
    text::push_u64(out, t.allocated_soft_ms as u64);
    out.append(",\"searchableMs\":");
    text::push_u64(out, t.searchable_ms as u64);
    out.append(",\"gateReserveMs\":");
    text::push_u64(out, t.gate_reserve_ms as u64);
    out.append(",\"hardOvershootMs\":");
    text::push_i64(out, t.hard_overshoot_ms as i64);
    out.append(",\"softOvershootMs\":");
    text::push_i64(out, t.soft_overshoot_ms as i64);
    out.append(",\"lastIterMs\":");
    text::push_u64(out, t.last_iter_ms as u64);
    out.append(",\"prevIterMs\":");
    text::push_u64(out, t.prev_iter_ms as u64);
    out.append(",\"bestMoveChanges\":");
    text::push_u64(out, t.best_move_changes as u64);
    out.append(",\"partialIterUsed\":");
    text::push_bool(out, t.partial_iter_used);
    out.append(",\"softFractionBp\":");
    text::push_u64(out, t.soft_fraction_bp as u64);
}

fn lead_of(b: &BoardFacts) -> (d: i64)
    ensures
        d == wall_lead(*b),
{
    if b.turn == 0 {
        b.walls_p0 as i64 - b.walls_p1 as i64
    } else {
        b.walls_p1 as i64 - b.walls_p0 as i64
    }
}

/// Pondering and position, and the closing brace.
pub open spec fn info_board_text(pre: Seq<char>, p: PonderTelemetry, b: BoardFacts) -> Seq<char> {
    pre
        + ",\"ponderNodes\":"@
        + text::dec(p.nodes as nat)
        + ",\"ponderChunks\":"@
        + text::dec(p.chunks as nat)
        + ",\"ponderMs\":"@
        + text::dec(p.ms as nat)
        + ",\"ponderPredicted\":\""@ + moves::algebraic(p.predicted as int)
        + "\",\"ponderHit\":"@
        + text::bool_text(p.hit)
        + ",\"wallsP0\":"@
        + text::dec_int(b.walls_p0 as int)
        + ",\"wallsP1\":"@
        + text::dec_int(b.walls_p1 as int)
        + ",\"pawnP0\":"@
        + text::dec(b.pawn_p0 as nat)
        + ",\"pawnP1\":"@
        + text::dec(b.pawn_p1 as nat)
        + ",\"turn\":"@
        + text::dec(b.turn as nat)
        + ",\"histLen\":"@
        + text::dec(b.hist_len as nat)
        + ",\"distP0\":"@
        + text::dec(b.dist_p0 as nat)
        + ",\"distP1\":"@
        + text::dec(b.dist_p1 as nat)
        + ",\"jaDistP0\":"@
        + text::dec_int(b.ja_p0 as int)
        + ",\"jaDistP1\":"@
        + text::dec_int(b.ja_p1 as int)
        + ",\"minRemainingPlies\":"@
        + text::dec(least_plies_left(b) as nat)
        + ",\"wallDiffSide\":"@
        + text::dec_int(wall_lead(b) as int)
        + "}"@
}

/// Writes pondering and position.
fn push_info_board(out: &mut String, p: &PonderTelemetry, b: &BoardFacts)
    ensures
        final(out)@ == info_board_text(old(out)@, *p, *b),
{
    out.append(",\"ponderNodes\":");
    text::push_u64(out, p.nodes as u64);
    out.append(",\"ponderChunks\":");
    text::push_u64(out, p.chunks as u64);
    out.append(",\"ponderMs\":");
    text::push_u64(out, p.ms as u64);
    out.append(",\"ponderPredicted\":\"");
    push_move(out, p.predicted);
    out.append("\",\"ponderHit\":");
    text::push_bool(out, p.hit);
    out.append(",\"wallsP0\":");
    text::push_i64(out, b.walls_p0 as i64);
    out.append(",\"wallsP1\":");
    text::push_i64(out, b.walls_p1 as i64);
    out.append(",\"pawnP0\":");
    text::push_u64(out, b.pawn_p0 as u64);
    out.append(",\"pawnP1\":");
    text::push_u64(out, b.pawn_p1 as u64);
    out.append(",\"turn\":");
    text::push_u64(out, b.turn as u64);
    out.append(",\"histLen\":");
    text::push_u64(out, b.hist_len as u64);
    out.append(",\"distP0\":");
    text::push_u64(out, b.dist_p0 as u64);
    out.append(",\"distP1\":");
    text::push_u64(out, b.dist_p1 as u64);
    out.append(",\"jaDistP0\":");
    text::push_i64(out, b.ja_p0 as i64);
    out.append(",\"jaDistP1\":");
    text::push_i64(out, b.ja_p1 as i64);
    out.append(",\"minRemainingPlies\":");
    text::push_u64(out, first_arrival(b));
    out.append(",\"wallDiffSide\":");
    text::push_i64(out, lead_of(b) as i64);
    out.append("}");
}

/// The position as the report tells it. Jump distances come from outside; 255 stands for
/// none.
pub fn board_facts(g: &GameState, jump0: u8, jump1: u8) -> (b: BoardFacts)
    requires
        g.wf(),
    ensures
        b.walls_p0 == g.wl[0],
        b.walls_p1 == g.wl[1],
        b.pawn_p0 == g.pawn[0],
        b.pawn_p1 == g.pawn[1],
        b.turn == g.turn,
        b.hist_len == g@.hist.len(),
        crate::board::dist_value(g@.w, 0, g@.p0, b.dist_p0 as int),
        crate::board::dist_value(g@.w, 1, g@.p1, b.dist_p1 as int),
        b.ja_p0 == if jump0 == 255 {
            -1int
        } else {
            jump0 as int
        },
        b.ja_p1 == if jump1 == 255 {
            -1int
        } else {
            jump1 as int
        },
{
    let f0: [u8; 81] = g.compute_dist(0);
    let f1: [u8; 81] = g.compute_dist(1);
    BoardFacts {
        walls_p0: g.wl[0],
        walls_p1: g.wl[1],
        pawn_p0: g.pawn[0],
        pawn_p1: g.pawn[1],
        turn: g.turn,
        hist_len: g.hist_len(),
        dist_p0: f0[g.pawn[0]],
        dist_p1: f1[g.pawn[1]],
        ja_p0: if jump0 == 255 {
            -1
        } else {
            jump0 as i32
        },
        ja_p1: if jump1 == 255 {
            -1
        } else {
            jump1 as i32
        },
    }
}

/// The report of a pondering session.
pub open spec fn info_line_text(
    label: Seq<char>,
    r: ThinkResult,
    p: PonderTelemetry,
    b: BoardFacts,
) -> Seq<char> {
    info_board_text(
        info_timing_text(info_head_text(Seq::empty(), label, r) + "]"@, r, r.timing),
        p,
        b,
    )
}

/// The report of a pondering session.
pub fn info_json_line(engine_flag: &str, r: &ThinkResult, ponder: &PonderTelemetry, b: &BoardFacts) -> (line:
    String)
    requires
        r.score > i32::MIN,
    ensures
        line@ == info_line_text(engine_flag@, *r, *ponder, *b),
{
    let mut out: String = String::new();
    assert(out@ =~= Seq::empty());
    push_info_head(&mut out, engine_flag, r);
    out.append("]");
    push_info_timing(&mut out, r, &r.timing);
    push_info_board(&mut out, ponder, b);
    out
}

} // verus!

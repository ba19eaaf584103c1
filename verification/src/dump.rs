//! Network inputs and heat maps as JSON text, for training and parity checks.

use crate::eval;
use crate::game;
use crate::game::GameState;
use crate::host::SearchHost;
use crate::search;
use crate::search::TitaniumSearch;
use crate::text;
use vstd::prelude::*;

verus! {

/// The first `n` values, separated by commas.
pub open spec fn cells(pre: Seq<char>, v: Seq<u8>, n: int) -> Seq<char>
    decreases n,
{
    if n <= 0 {
        pre
    } else {
        let before = cells(pre, v, n - 1);
        (if n > 1 {
            before + ","@
        } else {
            before
        }) + text::dec(v[n - 1] as nat)
    }
}

fn push_cells(out: &mut String, v: &[u8; 81])
    ensures
        final(out)@ == cells(old(out)@, v@, 81),
{
    let ghost pre = out@;
    let mut i: usize = 0;
    while i < 81
        invariant
            i <= 81,
            pre == old(out)@,
            out@ == cells(pre, v@, i as int),
        decreases 81 - i,
    {
        if i > 0 {
            out.append(",");
        }
        text::push_u64(out, v[i] as u64);
        i += 1;
    }
}

/// The first `n` values, separated by commas.
pub open spec fn warm_cells(pre: Seq<char>, v: Seq<u16>, n: int) -> Seq<char>
    decreases n,
{
    if n <= 0 {
        pre
    } else {
        let before = warm_cells(pre, v, n - 1);
        (if n > 1 {
            before + ","@
        } else {
            before
        }) + text::dec(v[n - 1] as nat)
    }
}

fn push_warm_cells(out: &mut String, v: &[u16; 81])
    ensures
        final(out)@ == warm_cells(old(out)@, v@, 81),
{
    let ghost pre = out@;
    let mut i: usize = 0;
    while i < 81
        invariant
            i <= 81,
            pre == old(out)@,
            out@ == warm_cells(pre, v@, i as int),
        decreases 81 - i,
    {
        if i > 0 {
            out.append(",");
        }
        text::push_u64(out, v[i] as u64);
        i += 1;
    }
}

/// The first `n` wall slots as ones and zeros, separated by commas.
pub open spec fn slots(pre: Seq<char>, v: Seq<u8>, n: int) -> Seq<char>
    decreases n,
{
    if n <= 0 {
        pre
    } else {
        let before = slots(pre, v, n - 1);
        (if n > 1 {
            before + ","@
        } else {
            before
        }) + if v[n - 1] != 0 {
            "1"@
        } else {
            "0"@
        }
    }
}

fn push_slots(out: &mut String, v: &[u8; 64])
    ensures
        final(out)@ == slots(old(out)@, v@, 64),
{
    let ghost pre = out@;
    let mut i: usize = 0;
    while i < 64
        invariant
            i <= 64,
            pre == old(out)@,
            out@ == slots(pre, v@, i as int),
        decreases 64 - i,
    {
        if i > 0 {
            out.append(",");
        }
        if v[i] != 0 {
            out.append("1");
        } else {
            out.append("0");
        }
        i += 1;
    }
}

/// Heat maps of a position.
#[derive(Clone, Copy, Debug)]
pub struct HeatMaps {
    pub witness_p0: [u8; 81],
    pub witness_p1: [u8; 81],
    pub propagated_p0: [u16; 81],
    pub propagated_p1: [u16; 81],
    pub propagated: [u16; 81],
}

/// Cell features of a position that are computed outside.
#[derive(Clone, Copy, Debug)]
pub struct CellFeatures {
    pub cat_best_p0: i32,
    pub cat_best_p1: i32,
    pub maps: HeatMaps,
    /// Steps from each pawn, and detour of each cell.
    pub pawn_fwd_p0: [u8; 81],
    pub pawn_fwd_p1: [u8; 81],
    pub corridor_delta_p0: [u8; 81],
    pub corridor_delta_p1: [u8; 81],
    pub choke_p0: [u8; 81],
    pub choke_p1: [u8; 81],
    pub contested: [u8; 81],
    pub route_p0: [u8; 81],
    pub route_p1: [u8; 81],
    pub flank_p0: [u8; 81],
    pub flank_p1: [u8; 81],
}

/// What the library itself knows of the position.
#[derive(Clone, Copy, Debug)]
pub struct PositionFacts {
    pub turn: usize,
    pub pawn0: usize,
    pub pawn1: usize,
    pub wl0: i32,
    pub wl1: i32,
    pub d0: [u8; 81],
    pub d1: [u8; 81],
    pub width0: usize,
    pub width1: usize,
    pub hw: [u8; 64],
    pub vw: [u8; 64],
    pub net_eval: i32,
    pub eval: i32,
}

/// Heat maps, field by field.
pub open spec fn cat_fields_text(pre: Seq<char>, m: HeatMaps) -> Seq<char> {
    warm_cells(warm_cells(warm_cells(cells(cells(pre
        + "\"cat_witness_p0_field\":["@, m.witness_p0@, 81)
        + "],\"cat_witness_p1_field\":["@, m.witness_p1@, 81)
        + "],\"cat_propagated_p0_field\":["@, m.propagated_p0@, 81)
        + "],\"cat_propagated_p1_field\":["@, m.propagated_p1@, 81)
        + "],\"cat_propagated_field\":["@, m.propagated@, 81)
        + "]"@
}

/// Writes the heat maps.
fn push_cat_fields(out: &mut String, m: &HeatMaps)
    ensures
        final(out)@ == cat_fields_text(old(out)@, *m),
{
    out.append("\"cat_witness_p0_field\":[");
    push_cells(out, &m.witness_p0);
    out.append("],\"cat_witness_p1_field\":[");
    push_cells(out, &m.witness_p1);
    out.append("],\"cat_propagated_p0_field\":[");
    push_warm_cells(out, &m.propagated_p0);
    out.append("],\"cat_propagated_p1_field\":[");
    push_warm_cells(out, &m.propagated_p1);
    out.append("],\"cat_propagated_field\":[");
    push_warm_cells(out, &m.propagated);
    out.append("]");
}

/// No walls are counted and no path crossings are looked for.
pub open spec fn no_crossings() -> Seq<u8> {
    Seq::new(81, |i: int| 0u8)
}

/// Scalars of the position.
pub open spec fn dump_head_text(pre: Seq<char>, p: PositionFacts, c: CellFeatures) -> Seq<char> {
    cat_fields_text(pre
        + "{\"turn\":"@
        + text::dec(p.turn as nat)
        + ",\"pawn0\":"@
        + text::dec(p.pawn0 as nat)
        + ",\"pawn1\":"@
        + text::dec(p.pawn1 as nat)
        + ",\"wl0\":"@
        + text::dec_int(p.wl0 as int)
        + ",\"wl1\":"@
        + text::dec_int(p.wl1 as int)
        + ",\"d0\":"@
        + text::dec(p.d0@[p.pawn0 as int] as nat)
        + ",\"d1\":"@
        + text::dec(p.d1@[p.pawn1 as int] as nat)
        + ",\"legal_wall_count\":0,\"legal_path_cross_p0\":0,\"legal_path_cross_p1\":0,\"cat_best_p0\":"@
        + text::dec_int(c.cat_best_p0 as int)
        + ",\"cat_best_p1\":"@
        + text::dec_int(c.cat_best_p1 as int)
        + ","@, c.maps)
        + ",\"corridor_width0\":"@
        + text::dec(p.width0 as nat)
        + ",\"corridor_width1\":"@
        + text::dec(p.width1 as nat)
}

/// Writes the scalars of the position.
fn push_dump_head(out: &mut String, p: &PositionFacts, c: &CellFeatures)
    requires
        p.pawn0 < 81,
        p.pawn1 < 81,
    ensures
        final(out)@ == dump_head_text(old(out)@, *p, *c),
{
    out.append("{\"turn\":");
    text::push_u64(out, p.turn as u64);
    out.append(",\"pawn0\":");
    text::push_u64(out, p.pawn0 as u64);
    out.append(",\"pawn1\":");
    text::push_u64(out, p.pawn1 as u64);
    out.append(",\"wl0\":");
    text::push_i64(out, p.wl0 as i64);
    out.append(",\"wl1\":");
    text::push_i64(out, p.wl1 as i64);
    out.append(",\"d0\":");
    text::push_u64(out, p.d0[p.pawn0] as u64);
    out.append(",\"d1\":");
    text::push_u64(out, p.d1[p.pawn1] as u64);
    out.append(",\"legal_wall_count\":0,\"legal_path_cross_p0\":0,\"legal_path_cross_p1\":0,\"cat_best_p0\":");
    text::push_i64(out, c.cat_best_p0 as i64);
    out.append(",\"cat_best_p1\":");
    text::push_i64(out, c.cat_best_p1 as i64);
    out.append(",");
    push_cat_fields(out, &c.maps);
    out.append(",\"corridor_width0\":");
    text::push_u64(out, p.width0 as u64);
    out.append(",\"corridor_width1\":");
    text::push_u64(out, p.width1 as u64);
}

/// Cell fields of the position.
pub open spec fn dump_fields_text(pre: Seq<char>, p: PositionFacts, c: CellFeatures) -> Seq<char> {
    cells(cells(cells(cells(cells(cells(cells(cells(cells(cells(cells(cells(cells(cells(cells(pre
        + ",\"goal_inv_p0_field\":["@, p.d0@, 81)
        + "],\"goal_inv_p1_field\":["@, p.d1@, 81)
        + "],\"pawn_fwd_p0_field\":["@, c.pawn_fwd_p0@, 81)
        + "],\"pawn_fwd_p1_field\":["@, c.pawn_fwd_p1@, 81)
        + "],\"corridor_delta_p0_field\":["@, c.corridor_delta_p0@, 81)
        + "],\"corridor_delta_p1_field\":["@, c.corridor_delta_p1@, 81)
        + "],\"path_cross_p0_field\":["@, no_crossings(), 81)
        + "],\"path_cross_p1_field\":["@, no_crossings(), 81)
        + "],\"choke_p0_field\":["@, c.choke_p0@, 81)
        + "],\"choke_p1_field\":["@, c.choke_p1@, 81)
        + "],\"contested_field\":["@, c.contested@, 81)
        + "],\"route_p0_field\":["@, c.route_p0@, 81)
        + "],\"route_p1_field\":["@, c.route_p1@, 81)
        + "],\"route_flank_p0_field\":["@, c.flank_p0@, 81)
        + "],\"route_flank_p1_field\":["@, c.flank_p1@, 81)
        + "]"@
}

/// Writes the cell fields of the position.
fn push_dump_fields(out: &mut String, p: &PositionFacts, c: &CellFeatures)
    ensures
        final(out)@ == dump_fields_text(old(out)@, *p, *c),
{
    let none: [u8; 81] = [0u8; 81];
    assert(none@ =~= no_crossings());
    out.append(",\"goal_inv_p0_field\":[");
    push_cells(out, &p.d0);
    out.append("],\"goal_inv_p1_field\":[");
    push_cells(out, &p.d1);
    out.append("],\"pawn_fwd_p0_field\":[");
    push_cells(out, &c.pawn_fwd_p0);
    out.append("],\"pawn_fwd_p1_field\":[");
    push_cells(out, &c.pawn_fwd_p1);
    out.append("],\"corridor_delta_p0_field\":[");
    push_cells(out, &c.corridor_delta_p0);
    out.append("],\"corridor_delta_p1_field\":[");
    push_cells(out, &c.corridor_delta_p1);
    out.append("],\"path_cross_p0_field\":[");
    push_cells(out, &none);
    out.append("],\"path_cross_p1_field\":[");
    push_cells(out, &none);
    out.append("],\"choke_p0_field\":[");
    push_cells(out, &c.choke_p0);
    out.append("],\"choke_p1_field\":[");
    push_cells(out, &c.choke_p1);
    out.append("],\"contested_field\":[");
    push_cells(out, &c.contested);
    out.append("],\"route_p0_field\":[");
    push_cells(out, &c.route_p0);
    out.append("],\"route_p1_field\":[");
    push_cells(out, &c.route_p1);
    out.append("],\"route_flank_p0_field\":[");
    push_cells(out, &c.flank_p0);
    out.append("],\"route_flank_p1_field\":[");
    push_cells(out, &c.flank_p1);
    out.append("]");
}

/// The same fields under their older names, the walls and the evaluations.
pub open spec fn dump_legacy_text(pre: Seq<char>, p: PositionFacts, c: CellFeatures) -> Seq<char> {
    slots(slots(cells(cells(cells(cells(cells(cells(cells(cells(pre
        + ",\"d0_field\":["@, p.d0@, 81)
        + "],\"d1_field\":["@, p.d1@, 81)
        + "],\"player0_field\":["@, c.pawn_fwd_p0@, 81)
        + "],\"player1_field\":["@, c.pawn_fwd_p1@, 81)
        + "],\"delta0_field\":["@, c.corridor_delta_p0@, 81)
        + "],\"delta1_field\":["@, c.corridor_delta_p1@, 81)
        + "],\"cross0_field\":["@, no_crossings(), 81)
        + "],\"cross1_field\":["@, no_crossings(), 81)
        + "],\"hw\":["@, p.hw@, 64)
        + "],\"vw\":["@, p.vw@, 64)
        + "],\"net_eval\":"@
        + text::dec_int(p.net_eval as int)
        + ",\"eval\":"@
        + text::dec_int(p.eval as int)
        + "}"@
}

/// Writes the older names, the walls and the evaluations.
fn push_dump_legacy(out: &mut String, p: &PositionFacts, c: &CellFeatures)
    ensures
        final(out)@ == dump_legacy_text(old(out)@, *p, *c),
{
    let none: [u8; 81] = [0u8; 81];
    assert(none@ =~= no_crossings());
    out.append(",\"d0_field\":[");
    push_cells(out, &p.d0);
    out.append("],\"d1_field\":[");
    push_cells(out, &p.d1);
    out.append("],\"player0_field\":[");
    push_cells(out, &c.pawn_fwd_p0);
    out.append("],\"player1_field\":[");
    push_cells(out, &c.pawn_fwd_p1);
    out.append("],\"delta0_field\":[");
    push_cells(out, &c.corridor_delta_p0);
    out.append("],\"delta1_field\":[");
    push_cells(out, &c.corridor_delta_p1);
    out.append("],\"cross0_field\":[");
    push_cells(out, &none);
    out.append("],\"cross1_field\":[");
    push_cells(out, &none);
    out.append("],\"hw\":[");
    push_slots(out, &p.hw);
    out.append("],\"vw\":[");
    push_slots(out, &p.vw);
    out.append("],\"net_eval\":");
    text::push_i64(out, p.net_eval as i64);
    out.append(",\"eval\":");
    text::push_i64(out, p.eval as i64);
    out.append("}");
}

/// The whole dump of a position.
pub open spec fn dump_text(p: PositionFacts, c: CellFeatures) -> Seq<char> {
    dump_legacy_text(dump_fields_text(dump_head_text(Seq::empty(), p, c), p, c), p, c)
}

/// Writes the dump of a position.
pub fn format_eval_dump(p: &PositionFacts, c: &CellFeatures) -> (json: String)
    requires
        p.pawn0 < 81,
        p.pawn1 < 81,
    ensures
        json@ == dump_text(*p, *c),
{
    let mut out: String = String::new();
    assert(out@ =~= Seq::empty());
    push_dump_head(&mut out, p, c);
    push_dump_fields(&mut out, p, c);
    push_dump_legacy(&mut out, p, c);
    out
}

/// The facts are those of the position.
pub open spec fn facts_of(p: game::Position, f: PositionFacts) -> bool {
    &&& f.turn == p.turn
    &&& f.pawn0 == p.p0
    &&& f.pawn1 == p.p1
    &&& f.wl0 == p.wl0
    &&& f.wl1 == p.wl1
    &&& crate::board::dist_field(p.w, 0, f.d0@)
    &&& crate::board::dist_field(p.w, 1, f.d1@)
    &&& f.width0 == eval::width_upto(f.d0@, f.d0@[p.p0] as int, 81)
    &&& f.width1 == eval::width_upto(f.d1@, f.d1@[p.p1] as int, 81)
    &&& f.hw@ == p.w.hw
    &&& f.vw@ == p.w.vw
}

fn position_facts(g: &GameState, net_eval: i32, evaluation: i32) -> (f: PositionFacts)
    requires
        g.wf(),
    ensures
        facts_of(g@, f),
        f.net_eval == net_eval,
        f.eval == evaluation,
{
    let d0: [u8; 81] = g.compute_dist(0);
    let d1: [u8; 81] = g.compute_dist(1);
    let width0: usize = eval::field_width(&d0, d0[g.pawn[0]] as i32);
    let width1: usize = eval::field_width(&d1, d1[g.pawn[1]] as i32);
    PositionFacts {
        turn: g.turn,
        pawn0: g.pawn[0],
        pawn1: g.pawn[1],
        wl0: g.wl[0],
        wl1: g.wl[1],
        d0,
        d1,
        width0,
        width1,
        hw: g.hw,
        vw: g.vw,
        net_eval,
        eval: evaluation,
    }
}

/// The network's output for the position and its goal distances.
pub open spec fn net_dumped<H: SearchHost>(p: game::Position, v: i32) -> bool {
    let d = search::race_distances(p, None);
    exists|h: H| #[trigger] h.net_of(p, d.0, d.1) == v
}

impl TitaniumSearch {
    /// Static evaluation of the position, without a search.
    pub fn eval_position<H: SearchHost>(&mut self, host: &mut H) -> (v: i32)
        requires
            old(self).ready(0),
        ensures
            final(self).ready(0),
            final(self).g@ == old(self).g@,
            final(self).dist.fields_are(final(self).g.topo()),
            search::score_ok(v as int),
            search::evaluated::<H>(*old(self), *final(self), 0, v as int),
    {
        self.dist.invalidate();
        self.refresh_dist(0);
        let ghost fresh = *self;
        let v: i32 = self.evaluate(0, host);
        proof {
            search::lemma_evaluated_from::<H>(*old(self), fresh, *self, 0, v as int);
        }
        v
    }

    /// Dumps the network inputs of the position and its evaluation.
    pub fn eval_dump_json<H: SearchHost>(&mut self, c: &CellFeatures, host: &mut H) -> (json: String)
        requires
            old(self).ready(0),
        ensures
            final(self).ready(0),
            final(self).g@ == old(self).g@,
            exists|f: PositionFacts|
                facts_of(old(self).g@, f) && #[trigger] dump_text(f, *c) == json@
                    && search::evaluated::<H>(*old(self), *final(self), 0, f.eval as int)
                    && net_dumped::<H>(old(self).g@, f.net_eval),
    {
        let evaluation: i32 = self.eval_position(host);
        let d_me: i32 = self.pawn_distance(self.g.turn);
        let d_opp: i32 = self.pawn_distance(1 - self.g.turn);
        let ghost h = *host;
        let net_eval: i32 = host.net_eval(&self.g, d_me, d_opp);
        assert(net_dumped::<H>(old(self).g@, net_eval)) by {
            let d = search::race_distances(old(self).g@, None);
            assert(h.net_of(old(self).g@, d.0, d.1) == net_eval);
        }
        let f = position_facts(&self.g, net_eval, evaluation);
        let json = format_eval_dump(&f, c);
        assert(facts_of(old(self).g@, f) && dump_text(f, *c) == json@ && search::evaluated::<H>(
            *old(self),
            *self,
            0,
            f.eval as int,
        ));
        json
    }
}

/// A dump with the number of its row in front.
pub open spec fn packed_text(row: nat, schema: Seq<char>, body: Seq<char>) -> Seq<char> {
    "{\"row\":"@ + text::dec(row) + ",\"ok\":true,\"feature_schema\":\""@ + schema
        + "\",\"protocol\":\"eval-packed-v1\","@ + body.skip(1)
}

/// Puts the number of its row in front of a dump.
pub fn pack_eval_dump(row: u32, schema: &str, body: &str) -> (json: String)
    requires
        body@.len() > 0,
    ensures
        json@ == packed_text(row as nat, schema@, body@),
{
    let mut out: String = String::new();
    out.append("{\"row\":");
    assert(out@ =~= "{\"row\":"@);
    text::push_u64(&mut out, row as u64);
    out.append(",\"ok\":true,\"feature_schema\":\"");
    out.append(schema);
    out.append("\",\"protocol\":\"eval-packed-v1\",");
    let n: usize = body.unicode_len();
    let rest = body.substring_char(1, n);
    assert(rest@ =~= body@.skip(1));
    out.append(rest);
    out
}

/// A dump ends with a brace.
proof fn lemma_dump_is_not_empty(p: PositionFacts, c: CellFeatures)
    ensures
        dump_text(p, c).len() > 0,
{
    reveal_strlit("}");
}

impl TitaniumSearch {
    /// Dumps the network inputs of the position with the number of its row in front.
    pub fn eval_dump_json_packed<H: SearchHost>(
        &mut self,
        row: u32,
        schema: &str,
        c: &CellFeatures,
        host: &mut H,
    ) -> (json: String)
        requires
            old(self).ready(0),
        ensures
            final(self).ready(0),
            final(self).g@ == old(self).g@,
            exists|f: PositionFacts|
                facts_of(old(self).g@, f) && packed_text(
                    row as nat,
                    schema@,
                    #[trigger] dump_text(f, *c),
                ) == json@ && search::evaluated::<H>(*old(self), *final(self), 0, f.eval as int),
    {
        let body = self.eval_dump_json(c, host);
        proof {
            let f = choose|f: PositionFacts|
                facts_of(old(self).g@, f) && #[trigger] dump_text(f, *c) == body@
                    && search::evaluated::<H>(*old(self), *self, 0, f.eval as int);
            lemma_dump_is_not_empty(f, *c);
        }
        pack_eval_dump(row, schema, body.as_str())
    }
}

/// Heat maps with the number of their row in front.
pub fn cat_dump_json_packed(row: u32, maps: &HeatMaps) -> (json: String)
    ensures
        json@ == cat_fields_text(
            "{\"row\":"@ + text::dec(row as nat)
                + ",\"ok\":true,\"protocol\":\"catv5-precise-packed-v2\","@,
            *maps,
        ) + "}"@,
{
    let mut out: String = String::new();
    out.append("{\"row\":");
    assert(out@ =~= "{\"row\":"@);
    text::push_u64(&mut out, row as u64);
    out.append(",\"ok\":true,\"protocol\":\"catv5-precise-packed-v2\",");
    push_cat_fields(&mut out, maps);
    out.append("}");
    out
}

} // verus!

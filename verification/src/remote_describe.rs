//! A `DESCRIBE` on a remote server: the query the client sends, and the
//! lines it prints of the server's reply, with the edges of the client's
//! own local patches laid over them.

use vstd::prelude::*;
use crate::experiment::{array_member, get_count, member, string_items, string_list};
use crate::lql::{join, string_views, DescribeMode, LayerBand};
use crate::remote::{json_get, JsonValue};
use crate::remote_text::{text_or, text_or_exec};
use crate::text::{decimal, owned, split_on, string_from_chars, u64_decimal};
use crate::token_summary::{
    append_pad_left, append_pad_right, join_strings, pad_left, pad_right, pair_views, push_pair,
};

verus! {

/// The band a `DESCRIBE` asks for on the wire: all layers when none is
/// named.
pub open spec fn band_wire(band: Option<LayerBand>) -> Seq<char> {
    match band {
        Some(LayerBand::Syntax) => "syntax"@,
        Some(LayerBand::Knowledge) => "knowledge"@,
        Some(LayerBand::Output) => "output"@,
        _ => "all"@,
    }
}

/// The display mode on the wire.
pub open spec fn describe_mode_wire(mode: DescribeMode) -> Seq<char> {
    match mode {
        DescribeMode::Verbose => "verbose"@,
        DescribeMode::Brief => "brief"@,
        DescribeMode::Raw => "raw"@,
    }
}

/// The query of a remote `DESCRIBE`: the entity, band, whether it is
/// verbose, the mode, then the layer and `relations_only` when asked for.
pub open spec fn describe_query(
    entity: Seq<char>,
    band: Option<LayerBand>,
    layer: Option<u32>,
    relations_only: bool,
    mode: DescribeMode,
) -> Seq<(Seq<char>, Seq<char>)> {
    seq![
        ("entity"@, entity),
        ("band"@, band_wire(band)),
        (
            "verbose"@,
            if mode == DescribeMode::Verbose {
                "true"@
            } else {
                "false"@
            },
        ),
        ("mode"@, describe_mode_wire(mode)),
    ] + match layer {
        Some(l) => seq![("layer"@, decimal(l as nat))],
        None => Seq::empty(),
    } + if relations_only {
        seq![("relations_only"@, "true"@)]
    } else {
        Seq::empty()
    }
}

fn band_wire_exec(band: Option<LayerBand>) -> (r: &'static str)
    ensures
        r@ == band_wire(band),
{
    match band {
        Some(LayerBand::Syntax) => "syntax",
        Some(LayerBand::Knowledge) => "knowledge",
        Some(LayerBand::Output) => "output",
        _ => "all",
    }
}

fn describe_mode_wire_exec(mode: DescribeMode) -> (r: &'static str)
    ensures
        r@ == describe_mode_wire(mode),
{
    match mode {
        DescribeMode::Verbose => "verbose",
        DescribeMode::Brief => "brief",
        DescribeMode::Raw => "raw",
    }
}

/// The query a remote `DESCRIBE` sends (`describe_query`).
pub fn describe_query_params(
    entity: &str,
    band: Option<LayerBand>,
    layer: Option<u32>,
    relations_only: bool,
    mode: DescribeMode,
) -> (q: Vec<(String, String)>)
    ensures
        pair_views(q@) == describe_query(entity@, band, layer, relations_only, mode),
{
    let mut q: Vec<(String, String)> = Vec::new();
    push_pair(&mut q, "entity", owned(entity));
    push_pair(&mut q, "band", owned(band_wire_exec(band)));
    let verbose: &str = match mode {
        DescribeMode::Verbose => "true",
        _ => "false",
    };
    push_pair(&mut q, "verbose", owned(verbose));
    push_pair(&mut q, "mode", owned(describe_mode_wire_exec(mode)));
    let ghost head = pair_views(q@);
    match layer {
        Some(l) => {
            push_pair(&mut q, "layer", string_from_chars(u64_decimal(l as u64).as_slice()));
        },
        None => {},
    }
    let ghost mid = pair_views(q@);
    assert(mid == head + match layer {
        Some(l) => seq![("layer"@, decimal(l as nat))],
        None => Seq::<(Seq<char>, Seq<char>)>::empty(),
    });
    if relations_only {
        push_pair(&mut q, "relations_only", owned("true"));
    }
    q
}

// ───────────────────────── edges ─────────────────────────

/// The relation column of an edge: the relation padded to twelve, blank
/// when labels are off or it has none.
pub open spec fn edge_label(relation: Seq<char>, show_labels: bool) -> Seq<char> {
    if show_labels && relation.len() > 0 {
        pad_right(relation, 12)
    } else {
        pad_right(Seq::empty(), 12)
    }
}

/// What an edge's `also` list adds in verbose and raw mode:
/// `  also: a, b`, nothing when it holds no string.
pub open spec fn also_text(edge: JsonValue, mode: DescribeMode) -> Seq<char> {
    let joined = join(string_items(array_member(edge, "also"@)), ", "@);
    if mode != DescribeMode::Brief && joined.len() > 0 {
        "  also: "@ + joined
    } else {
        Seq::empty()
    }
}

/// The line of an edge of the reply, with its gate score already written
/// with one decimal: label, target (`?`), score, layer, a `(probe)` tag
/// for a probe edge unless raw, and the `also` list.
pub open spec fn edge_line(edge: JsonValue, gate: Seq<char>, mode: DescribeMode) -> Seq<char> {
    let show_labels = mode != DescribeMode::Raw;
    "    "@ + edge_label(text_or(edge, "relation"@, Seq::empty()), show_labels) + " → "@ + pad_right(
        text_or(edge, "target"@, "?"@),
        20,
    ) + " "@ + pad_left(gate, 7) + "  L"@ + pad_right(decimal(get_count(edge, "layer"@) as nat), 3)
        + (if show_labels && text_or(edge, "source"@, Seq::empty()) == "probe"@ {
        "  (probe)"@
    } else {
        Seq::empty()
    }) + also_text(edge, mode)
}

fn also_text_exec(edge: &JsonValue, mode: DescribeMode) -> (r: String)
    ensures
        r@ == also_text(*edge, mode),
{
    let items = string_list(edge, "also");
    let joined = join_strings(&items, ", ");
    let wanted = match mode {
        DescribeMode::Brief => false,
        _ => true,
    };
    if wanted && joined.as_str().unicode_len() > 0 {
        let mut out = owned("  also: ");
        out.append(joined.as_str());
        out
    } else {
        String::new()
    }
}

fn edge_line_exec(edge: &JsonValue, gate: &str, mode: DescribeMode) -> (r: String)
    ensures
        r@ == edge_line(*edge, gate@, mode),
{
    proof {
        reveal_strlit("");
        assert(""@ =~= Seq::<char>::empty());
    }
    let show_labels = match mode {
        DescribeMode::Raw => false,
        _ => true,
    };
    let relation = text_or_exec(edge, "relation", "");
    let target = text_or_exec(edge, "target", "?");
    let source = text_or_exec(edge, "source", "");
    let layer = string_from_chars(u64_decimal(crate::experiment::count_field(edge, "layer")).as_slice());
    let mut out = owned("    ");
    if show_labels && relation.as_str().unicode_len() > 0 {
        append_pad_right(&mut out, relation.as_str(), 12);
    } else {
        append_pad_right(&mut out, "", 12);
    }
    assert(out@ == "    "@ + edge_label(relation@, show_labels));
    out.append(" → ");
    append_pad_right(&mut out, target.as_str(), 20);
    out.append(" ");
    append_pad_left(&mut out, gate, 7);
    out.append("  L");
    append_pad_right(&mut out, layer.as_str(), 3);
    let ghost before_tag = out@;
    if show_labels && crate::lql::str_eq(source.as_str(), "probe") {
        out.append("  (probe)");
    }
    assert(out@ == before_tag + (if show_labels && source@ == "probe"@ {
        "  (probe)"@
    } else {
        Seq::empty()
    }));
    let also = also_text_exec(edge, mode);
    out.append(also.as_str());
    out
}

// ───────────────────────── follow-ups ─────────────────────────

/// A line as `str::lines` yields it: without the `\r` of a `\r\n` ending.
pub open spec fn strip_cr(p: Seq<char>) -> Seq<char> {
    if p.len() > 0 && p.last() == '\r' {
        p.drop_last()
    } else {
        p
    }
}

/// The lines of `s` as `str::lines` yields them, but for a last empty
/// piece after a final newline, which a caller that skips empty lines
/// never sees: the pieces between newlines, each that a newline ends
/// losing a `\r` before it.
pub open spec fn text_lines(s: Seq<char>) -> Seq<Seq<char>> {
    let ps = split_on(s, '\n');
    Seq::new(
        ps.len(),
        |i: int|
            if i + 1 < ps.len() {
                strip_cr(ps[i])
            } else {
                ps[i]
            },
    )
}

/// The non-empty lines, each behind `indent`.
pub open spec fn indented_nonempty(lines: Seq<Seq<char>>, indent: Seq<char>) -> Seq<Seq<char>>
    decreases lines.len(),
{
    if lines.len() == 0 {
        Seq::empty()
    } else {
        let prefix = indented_nonempty(lines.drop_last(), indent);
        if lines.last().len() > 0 {
            prefix.push(indent + lines.last())
        } else {
            prefix
        }
    }
}

/// Every line behind `indent`.
pub open spec fn indented(lines: Seq<Seq<char>>, indent: Seq<char>) -> Seq<Seq<char>> {
    lines.map_values(|l: Seq<char>| indent + l)
}

/// What an empty reply says after `(no edges found)`: the server's note,
/// its suggested walk, and the inference it ran in their place (or why it
/// did not), with `infer` the lines of that inference.
pub open spec fn followup_lines(body: JsonValue, infer: Seq<Seq<char>>) -> Seq<Seq<char>> {
    let note = match json_get(body, "followup_note"@) {
        Some(JsonValue::String(n)) => seq![Seq::<char>::empty()] + indented_nonempty(
            text_lines(n@),
            "  "@,
        ),
        _ => Seq::empty(),
    };
    let walk_items = array_member(body, "followup_walk"@);
    let walk = if walk_items.len() > 0 {
        seq![Seq::<char>::empty(), "  EXPLAIN WALK —"@] + indented(string_items(walk_items), "    "@)
    } else {
        Seq::empty()
    };
    let skipped = match json_get(body, "followup_infer_error"@) {
        Some(JsonValue::String(e)) => seq![
            Seq::<char>::empty(),
            "  EXPLAIN INFER — skipped ("@ + e@ + ")"@,
        ],
        _ => Seq::empty(),
    };
    let infer_part = match json_get(body, "followup_infer"@) {
        Some(v) => if v is Null {
            skipped
        } else {
            seq![Seq::<char>::empty(), "  EXPLAIN INFER —"@] + indented(infer, "    "@)
        },
        None => skipped,
    };
    seq!["  (no edges found)"@] + note + walk + infer_part
}

/// Appends `indent + l` for each line.
fn push_indented(out: &mut Vec<String>, lines: &Vec<String>, indent: &str)
    ensures
        string_views(final(out)@) == string_views(old(out)@) + indented(string_views(lines@), indent@),
{
    let ghost start = string_views(out@);
    let ghost ls = string_views(lines@);
    let mut i: usize = 0;
    while i < lines.len()
        invariant
            i <= lines@.len(),
            ls == string_views(lines@),
            string_views(out@) == start + indented(ls.take(i as int), indent@),
        decreases lines.len() - i,
    {
        let mut line = owned(indent);
        line.append(lines[i].as_str());
        let ghost prev = out@;
        out.push(line);
        proof {
            assert(string_views(out@) =~= string_views(prev).push(indent@ + ls[i as int]));
            assert(indented(ls.take(i + 1), indent@) =~= indented(ls.take(i as int), indent@).push(
                indent@ + ls[i as int],
            ));
        }
        i = i + 1;
    }
    assert(ls.take(lines.len() as int) =~= ls);
}

/// The non-empty lines of `s`, each behind two spaces.
fn note_lines_exec(s: &str) -> (r: Vec<String>)
    ensures
        string_views(r@) == indented_nonempty(text_lines(s@), "  "@),
{
    let cs = crate::text::chars_of(s);
    let pieces = crate::text::split_chars(cs.as_slice(), '\n');
    let ghost ls = text_lines(s@);
    let mut r: Vec<String> = Vec::new();
    let mut i: usize = 0;
    while i < pieces.len()
        invariant
            i <= pieces@.len(),
            cs@ == s@,
            ls == text_lines(s@),
            pieces@.len() == split_on(cs@, '\n').len(),
            forall|j: int| 0 <= j < pieces@.len() ==> (#[trigger] pieces@[j])@ == split_on(cs@, '\n')[j],
            string_views(r@) == indented_nonempty(ls.take(i as int), "  "@),
        decreases pieces.len() - i,
    {
        let p = &pieces[i];
        let mut n = p.len();
        if i + 1 < pieces.len() && n > 0 && p[n - 1] == '\r' {
            n = n - 1;
        }
        let piece = string_from_chars(&p.as_slice()[0..n]);
        proof {
            assert(piece@ =~= ls[i as int]);
            assert(ls.take(i + 1).drop_last() =~= ls.take(i as int));
        }
        if n > 0 {
            let mut line = owned("  ");
            line.append(piece.as_str());
            r.push(line);
            proof {
                assert(string_views(r@) =~= indented_nonempty(ls.take(i as int), "  "@).push(
                    "  "@ + ls[i as int],
                ));
            }
        }
        i = i + 1;
    }
    assert(ls.take(pieces.len() as int) =~= ls);
    r
}

fn push_text(out: &mut Vec<String>, t: &str)
    ensures
        string_views(final(out)@) == string_views(old(out)@).push(t@),
{
    let ghost prev = out@;
    out.push(owned(t));
    assert(string_views(out@) =~= string_views(prev).push(t@));
}

fn push_all(out: &mut Vec<String>, more: Vec<String>)
    ensures
        string_views(final(out)@) == string_views(old(out)@) + string_views(more@),
{
    let ghost prev = string_views(out@);
    let ghost ms = string_views(more@);
    let mut i: usize = 0;
    while i < more.len()
        invariant
            i <= more@.len(),
            ms == string_views(more@),
            string_views(out@) == prev + ms.take(i as int),
        decreases more.len() - i,
    {
        let ghost before = out@;
        out.push(more[i].clone());
        proof {
            assert(string_views(out@) =~= string_views(before).push(ms[i as int]));
            assert(ms.take(i + 1) =~= ms.take(i as int).push(ms[i as int]));
        }
        i = i + 1;
    }
    assert(ms.take(more.len() as int) =~= ms);
}

fn followup_lines_exec(body: &JsonValue, infer: &Vec<String>) -> (r: Vec<String>)
    ensures
        string_views(r@) == followup_lines(*body, string_views(infer@)),
{
    proof {
        reveal_strlit("");
        assert(""@ =~= Seq::<char>::empty());
    }
    let mut r: Vec<String> = Vec::new();
    push_text(&mut r, "  (no edges found)");
    let ghost s0 = string_views(r@);
    match member(body, "followup_note") {
        Some(JsonValue::String(n)) => {
            push_text(&mut r, "");
            let lines = note_lines_exec(n.as_str());
            push_all(&mut r, lines);
        },
        _ => {},
    }
    let ghost s1 = string_views(r@);
    let ghost note = match json_get(*body, "followup_note"@) {
        Some(JsonValue::String(n)) => seq![Seq::<char>::empty()] + indented_nonempty(
            text_lines(n@),
            "  "@,
        ),
        _ => Seq::empty(),
    };
    assert(s1 =~= s0 + note);
    let walk = string_list(body, "followup_walk");
    let walk_nonempty = match member(body, "followup_walk") {
        Some(JsonValue::Array(items)) => items.len() > 0,
        _ => false,
    };
    if walk_nonempty {
        push_text(&mut r, "");
        push_text(&mut r, "  EXPLAIN WALK —");
        push_indented(&mut r, &walk, "    ");
    }
    let ghost s2 = string_views(r@);
    let ghost walk_items = array_member(*body, "followup_walk"@);
    let ghost walk_part = if walk_items.len() > 0 {
        seq![Seq::<char>::empty(), "  EXPLAIN WALK —"@] + indented(string_items(walk_items), "    "@)
    } else {
        Seq::empty()
    };
    assert(s2 =~= s1 + walk_part);
    let infer_present = match member(body, "followup_infer") {
        Some(JsonValue::Null) => false,
        Some(_) => true,
        None => false,
    };
    if infer_present {
        push_text(&mut r, "");
        push_text(&mut r, "  EXPLAIN INFER —");
        push_indented(&mut r, infer, "    ");
    } else {
        match member(body, "followup_infer_error") {
            Some(JsonValue::String(e)) => {
                push_text(&mut r, "");
                let mut line = owned("  EXPLAIN INFER — skipped (");
                line.append(e.as_str());
                line.append(")");
                push_text(&mut r, line.as_str());
            },
            _ => {},
        }
    }
    r
}

// ───────────────────────── local patches ─────────────────────────

/// An insert of one of the client's local patches: the entity and target
/// it links, its relation and layer, and its confidence (0.9 when the
/// patch gives none) already written with two decimals.
#[derive(Debug, Clone)]
pub struct LocalInsert {
    pub entity: String,
    pub relation: Option<String>,
    pub target: String,
    pub layer: usize,
    pub confidence_text: String,
}

/// The inserts whose entity is `entity` up to case (both lowercased).
pub open spec fn matching_inserts(inserts: Seq<LocalInsert>, entity: Seq<char>) -> Seq<LocalInsert>
    decreases inserts.len(),
{
    if inserts.len() == 0 {
        Seq::empty()
    } else {
        let prefix = matching_inserts(inserts.drop_last(), entity);
        if crate::text::str_lowercase(inserts.last().entity@) == crate::text::str_lowercase(entity) {
            prefix.push(inserts.last())
        } else {
            prefix
        }
    }
}

/// The line of a local edge: relation (padded to twelve), target,
/// confidence, layer, and a `(local)` tag.
pub open spec fn local_line(e: LocalInsert) -> Seq<char> {
    let relation = match e.relation {
        Some(r) => r@,
        None => Seq::empty(),
    };
    "    "@ + pad_right(relation, 12) + " → "@ + pad_right(e.target@, 20) + " "@ + pad_left(
        e.confidence_text@,
        7,
    ) + "  L"@ + pad_right(decimal(e.layer as nat), 3) + "  (local)"@
}

/// The local edges of `entity`, under a heading, when there are any.
pub open spec fn local_lines(inserts: Seq<LocalInsert>, entity: Seq<char>) -> Seq<Seq<char>> {
    let m = matching_inserts(inserts, entity);
    if m.len() > 0 {
        seq!["  Local patch edges:"@] + m.map_values(|e: LocalInsert| local_line(e))
    } else {
        Seq::empty()
    }
}

fn local_line_exec(e: &LocalInsert) -> (r: String)
    ensures
        r@ == local_line(*e),
{
    proof {
        reveal_strlit("");
        assert(""@ =~= Seq::<char>::empty());
    }
    let mut out = owned("    ");
    match &e.relation {
        Some(rel) => append_pad_right(&mut out, rel.as_str(), 12),
        None => append_pad_right(&mut out, "", 12),
    }
    out.append(" → ");
    append_pad_right(&mut out, e.target.as_str(), 20);
    out.append(" ");
    append_pad_left(&mut out, e.confidence_text.as_str(), 7);
    out.append("  L");
    let layer = string_from_chars(u64_decimal(e.layer as u64).as_slice());
    append_pad_right(&mut out, layer.as_str(), 3);
    out.append("  (local)");
    out
}

fn local_lines_exec(inserts: &Vec<LocalInsert>, entity: &str) -> (r: Vec<String>)
    ensures
        string_views(r@) == local_lines(inserts@, entity@),
{
    let entity_lower = crate::text::lowercase(entity);
    let mut lines: Vec<String> = Vec::new();
    let ghost ms = matching_inserts(inserts@, entity@);
    let mut i: usize = 0;
    while i < inserts.len()
        invariant
            i <= inserts@.len(),
            entity_lower@ == crate::text::str_lowercase(entity@),
            string_views(lines@) == matching_inserts(inserts@.take(i as int), entity@).map_values(
                |e: LocalInsert| local_line(e),
            ),
        decreases inserts.len() - i,
    {
        let ent_lower = crate::text::lowercase(inserts[i].entity.as_str());
        proof {
            assert(inserts@.take(i + 1).drop_last() =~= inserts@.take(i as int));
        }
        if crate::lql::str_eq(ent_lower.as_str(), entity_lower.as_str()) {
            let line = local_line_exec(&inserts[i]);
            let ghost prev = lines@;
            lines.push(line);
            proof {
                assert(string_views(lines@) =~= string_views(prev).push(local_line(inserts@[i as int])));
                assert(matching_inserts(inserts@.take(i + 1), entity@) == matching_inserts(
                    inserts@.take(i as int),
                    entity@,
                ).push(inserts@[i as int]));
                assert(matching_inserts(inserts@.take(i + 1), entity@).map_values(
                    |e: LocalInsert| local_line(e),
                ) =~= matching_inserts(inserts@.take(i as int), entity@).map_values(
                    |e: LocalInsert| local_line(e),
                ).push(local_line(inserts@[i as int])));
            }
        }
        i = i + 1;
    }
    assert(inserts@.take(inserts.len() as int) =~= inserts@);
    if lines.len() > 0 {
        let mut r: Vec<String> = Vec::new();
        push_text(&mut r, "  Local patch edges:");
        push_all(&mut r, lines);
        r
    } else {
        Vec::new()
    }
}

// ───────────────────────── the reply ─────────────────────────

/// The lines of the edges of a reply, the `i`th with the `i`th gate score.
pub open spec fn edge_lines(edges: Seq<JsonValue>, gates: Seq<Seq<char>>, mode: DescribeMode) -> Seq<
    Seq<char>,
> {
    Seq::new(edges.len(), |i: int| edge_line(edges[i], gates[i], mode))
}

/// What the reply's `edges` make: a line per edge, the follow-ups when
/// there is none, nothing when the reply holds no list of edges.
pub open spec fn reply_lines(
    body: JsonValue,
    gates: Seq<Seq<char>>,
    infer: Seq<Seq<char>>,
    mode: DescribeMode,
) -> Seq<Seq<char>> {
    match json_get(body, "edges"@) {
        Some(JsonValue::Array(edges)) => if edges@.len() == 0 {
            followup_lines(body, infer)
        } else {
            edge_lines(edges@, gates, mode)
        },
        _ => Seq::empty(),
    }
}

/// The latency line, when the reply gives a number of milliseconds
/// (`latency` being it with one decimal).
pub open spec fn latency_lines(body: JsonValue, latency: Seq<char>) -> Seq<Seq<char>> {
    match json_get(body, "latency_ms"@) {
        Some(JsonValue::Number(_)) => seq!["\n"@ + latency + "ms (remote)"@],
        _ => Seq::empty(),
    }
}

/// What a remote `DESCRIBE` prints: the entity, the reply's edges (or its
/// follow-ups), its latency, and the matching edges of the local patches.
pub open spec fn describe_lines(
    entity: Seq<char>,
    mode: DescribeMode,
    body: JsonValue,
    gates: Seq<Seq<char>>,
    latency: Seq<char>,
    infer: Seq<Seq<char>>,
    inserts: Seq<LocalInsert>,
) -> Seq<Seq<char>> {
    seq![entity] + reply_lines(body, gates, infer, mode) + latency_lines(body, latency) + local_lines(
        inserts,
        entity,
    )
}

/// The lines a remote `DESCRIBE` of `entity` prints from the server's
/// reply `body` (`describe_lines`). The floating-point values of the reply
/// come written out: `gate_texts` holds each edge's gate score with one
/// decimal, in the order of the edges, `latency_text` the latency with one
/// decimal, and `infer_lines` what the reply's follow-up inference reads
/// as; `local_inserts` are the inserts of the client's local patches.
pub fn remote_describe_lines(
    entity: &str,
    mode: DescribeMode,
    body: &JsonValue,
    gate_texts: &Vec<String>,
    latency_text: &str,
    infer_lines: &Vec<String>,
    local_inserts: &Vec<LocalInsert>,
) -> (out: Vec<String>)
    requires
        gate_texts@.len() == array_member(*body, "edges"@).len(),
    ensures
        string_views(out@) == describe_lines(
            entity@,
            mode,
            *body,
            string_views(gate_texts@),
            latency_text@,
            string_views(infer_lines@),
            local_inserts@,
        ),
{
    let ghost gates = string_views(gate_texts@);
    let mut out: Vec<String> = Vec::new();
    push_text(&mut out, entity);
    let ghost s0 = string_views(out@);
    match member(body, "edges") {
        Some(JsonValue::Array(edges)) => {
            if edges.len() == 0 {
                let more = followup_lines_exec(body, infer_lines);
                push_all(&mut out, more);
            } else {
                let mut i: usize = 0;
                while i < edges.len()
                    invariant
                        i <= edges@.len(),
                        gate_texts@.len() == edges@.len(),
                        gates == string_views(gate_texts@),
                        string_views(out@) == s0 + edge_lines(edges@, gates, mode).take(i as int),
                    decreases edges.len() - i,
                {
                    let line = edge_line_exec(&edges[i], gate_texts[i].as_str(), mode);
                    let ghost prev = out@;
                    out.push(line);
                    proof {
                        assert(string_views(out@) =~= string_views(prev).push(
                            edge_line(edges@[i as int], gates[i as int], mode),
                        ));
                        assert(edge_lines(edges@, gates, mode).take(i + 1) =~= edge_lines(
                            edges@,
                            gates,
                            mode,
                        ).take(i as int).push(edge_line(edges@[i as int], gates[i as int], mode)));
                    }
                    i = i + 1;
                }
                assert(edge_lines(edges@, gates, mode).take(edges.len() as int) =~= edge_lines(
                    edges@,
                    gates,
                    mode,
                ));
            }
        },
        _ => {},
    }
    let ghost s1 = string_views(out@);
    assert(s1 =~= s0 + reply_lines(*body, gates, string_views(infer_lines@), mode));
    match member(body, "latency_ms") {
        Some(JsonValue::Number(_)) => {
            let mut line = owned("\n");
            line.append(latency_text);
            line.append("ms (remote)");
            push_text(&mut out, line.as_str());
        },
        _ => {},
    }
    let ghost s2 = string_views(out@);
    assert(s2 =~= s1 + latency_lines(*body, latency_text@));
    let local = local_lines_exec(local_inserts, entity);
    push_all(&mut out, local);
    out
}


// ───────────────────────── laws of the query ─────────────────────────

/// Law: the `band` parameter of a remote `DESCRIBE` is the requested band's
/// name in lower case (`syntax`, `knowledge`, `output`), and `all` when no
/// band or `All` is requested.
pub proof fn lemma_band_parameter(
    entity: Seq<char>,
    band: Option<LayerBand>,
    layer: Option<u32>,
    relations_only: bool,
    mode: DescribeMode,
)
    ensures
        describe_query(entity, band, layer, relations_only, mode)[1] == ("band"@, match band {
            Some(b) => crate::scan_form::lower(crate::statement::layer_band_name(b)),
            None => "all"@,
        }),
{
    reveal_strlit("syntax");
    reveal_strlit("Syntax");
    reveal_strlit("knowledge");
    reveal_strlit("Knowledge");
    reveal_strlit("output");
    reveal_strlit("Output");
    reveal_strlit("all");
    reveal_strlit("All");
    match band {
        Some(b) => {
            assert(crate::scan_form::lower(crate::statement::layer_band_name(b)) =~= band_wire(band));
        },
        None => {},
    }
}

/// Law: distinct requested bands give distinct `band` parameters; only no
/// band and `All` share one.
pub proof fn lemma_band_parameter_distinct(
    entity: Seq<char>,
    b1: Option<LayerBand>,
    b2: Option<LayerBand>,
    layer: Option<u32>,
    relations_only: bool,
    mode: DescribeMode,
)
    requires
        describe_query(entity, b1, layer, relations_only, mode)[1] == describe_query(
            entity,
            b2,
            layer,
            relations_only,
            mode,
        )[1],
    ensures
        b1 == b2 || ((b1 is None || b1 == Some(LayerBand::All)) && (b2 is None || b2 == Some(
            LayerBand::All,
        ))),
{
    reveal_strlit("syntax");
    reveal_strlit("knowledge");
    reveal_strlit("output");
    reveal_strlit("all");
    assert(band_wire(b1) == band_wire(b2));
    if band_wire(b1) == "syntax"@ {
        assert("syntax"@ != "knowledge"@ && "syntax"@ != "output"@ && "syntax"@ != "all"@) by {
            assert("syntax"@[0] != "knowledge"@[0]);
            assert("syntax"@[0] != "output"@[0]);
            assert("syntax"@[0] != "all"@[0]);
        }
    }
    assert("knowledge"@[0] != "output"@[0]);
    assert("knowledge"@[0] != "all"@[0]);
    assert("output"@[0] != "all"@[0]);
    assert("syntax"@[0] != "knowledge"@[0]);
    assert("syntax"@[0] != "output"@[0]);
    assert("syntax"@[0] != "all"@[0]);
}


/// Law: the query of a remote `DESCRIBE` holds, in order, the entity, the
/// band, `verbose` set to `true` exactly for the verbose mode, the mode's
/// name in lower case (`verbose`, `brief`, `raw`), then the layer in
/// decimal when one is given, then `relations_only=true` when asked for.
pub proof fn lemma_describe_query_fields(
    entity: Seq<char>,
    band: Option<LayerBand>,
    layer: Option<u32>,
    relations_only: bool,
    mode: DescribeMode,
)
    ensures
        ({
            let q = describe_query(entity, band, layer, relations_only, mode);
            &&& q.len() == 4 + (if layer is Some { 1int } else { 0int }) + (if relations_only { 1int } else { 0int })
            &&& q[0] == ("entity"@, entity)
            &&& q[2] == ("verbose"@, if mode == DescribeMode::Verbose { "true"@ } else { "false"@ })
            &&& q[3] == ("mode"@, crate::scan_form::lower(crate::statement::describe_mode_name(mode)))
            &&& (layer matches Some(l) ==> q[4] == ("layer"@, decimal(l as nat)))
            &&& (relations_only ==> q.last() == ("relations_only"@, "true"@))
        }),
{
    reveal_strlit("verbose");
    reveal_strlit("Verbose");
    reveal_strlit("brief");
    reveal_strlit("Brief");
    reveal_strlit("raw");
    reveal_strlit("Raw");
    assert(crate::scan_form::lower(crate::statement::describe_mode_name(mode)) =~= describe_mode_wire(mode));
}

} // verus!

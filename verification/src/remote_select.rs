//! A `SELECT` on a remote server: what the client asks `/v1/select` for,
//! which of its conditions the server cannot take, and the lines it prints
//! of the edges that come back.

use vstd::prelude::*;
use crate::experiment::{array_member, get_count, member};
use crate::lql::{join, str_eq, string_views, Condition, NearestClause, OrderBy, Value};
use crate::remote::{field_u64, json_get, JsonValue};
use crate::remote_text::{text_or, text_or_exec};
use crate::text::{decimal, owned, string_from_chars, u64_decimal};
use crate::token_summary::{
    append_pad_left, append_pad_right, dashes, dashes_exec, join_strings, pad_left, pad_right,
};

verus! {

/// The string of the last condition on `field` whose value is a string.
pub open spec fn last_string(conds: Seq<Condition>, field: Seq<char>) -> Option<Seq<char>>
    decreases conds.len(),
{
    if conds.len() == 0 {
        None
    } else {
        let c = conds.last();
        match c.value {
            Value::String(s) => if c.field@ == field {
                Some(s@)
            } else {
                last_string(conds.drop_last(), field)
            },
            _ => last_string(conds.drop_last(), field),
        }
    }
}

/// The integer of the last condition on `layer` whose value is an integer.
pub open spec fn last_layer(conds: Seq<Condition>) -> Option<i64>
    decreases conds.len(),
{
    if conds.len() == 0 {
        None
    } else {
        let c = conds.last();
        match c.value {
            Value::Integer(n) => if c.field@ == "layer"@ {
                Some(n)
            } else {
                last_layer(conds.drop_last())
            },
            _ => last_layer(conds.drop_last()),
        }
    }
}

/// A condition on the score: on `confidence` or `c_score`.
pub open spec fn is_score_field(f: Seq<char>) -> bool {
    f == "confidence"@ || f == "c_score"@
}

/// The number of the last condition on the score whose value is a number
/// (its text) or an integer.
pub open spec fn last_floor(conds: Seq<Condition>) -> Option<Value>
    decreases conds.len(),
{
    if conds.len() == 0 {
        None
    } else {
        let c = conds.last();
        if is_score_field(c.field@) {
            match c.value {
                Value::Number(t) => Some(Value::Number(t)),
                Value::Integer(n) => Some(Value::Integer(n)),
                _ => last_floor(conds.drop_last()),
            }
        } else {
            last_floor(conds.drop_last())
        }
    }
}

/// The fields a remote `SELECT` can filter on.
pub open spec fn is_supported_field(f: Seq<char>) -> bool {
    f == "entity"@ || f == "relation"@ || f == "layer"@ || is_score_field(f)
}

/// The fields of the conditions the server cannot filter on, in order.
pub open spec fn unknown_fields(conds: Seq<Condition>) -> Seq<Seq<char>>
    decreases conds.len(),
{
    if conds.len() == 0 {
        Seq::empty()
    } else if is_supported_field(conds.last().field@) {
        unknown_fields(conds.drop_last())
    } else {
        unknown_fields(conds.drop_last()).push(conds.last().field@)
    }
}

/// The body of a remote `SELECT`: how many edges (twenty when unsaid),
/// the order and the field it is by, the fields to return (none when the
/// statement names none), the `NEAREST` clause, and the filters the
/// conditions give (the last of each kind counting); with the conditions
/// the server cannot take.
#[derive(Debug)]
pub struct RemoteSelectPlan {
    pub limit: u32,
    pub order: Option<OrderBy>,
    pub fields: Option<Vec<String>>,
    pub nearest: Option<NearestClause>,
    pub entity: Option<String>,
    pub relation: Option<String>,
    pub layer: Option<i64>,
    pub confidence_floor: Option<Value>,
    pub unknown_fields: Vec<String>,
}

/// The views of an optional string.
pub open spec fn opt_seq(s: Option<String>) -> Option<Seq<char>> {
    match s {
        Some(x) => Some(x@),
        None => None,
    }
}

/// `p` is the plan of a remote `SELECT` with these clauses.
pub open spec fn is_select_plan(
    p: RemoteSelectPlan,
    conds: Seq<Condition>,
    limit: Option<u32>,
    fields: Seq<String>,
    nearest: Option<NearestClause>,
    order: Option<OrderBy>,
) -> bool {
    &&& p.limit == match limit {
        Some(l) => l,
        None => 20,
    }
    &&& match (p.order, order) {
        (Some(a), Some(b)) => a.field@ == b.field@ && a.descending == b.descending,
        (None, None) => true,
        _ => false,
    }
    &&& match p.fields {
        Some(fs) => fields.len() > 0 && string_views(fs@) == string_views(fields),
        None => fields.len() == 0,
    }
    &&& match (p.nearest, nearest) {
        (Some(a), Some(b)) => a.entity@ == b.entity@ && a.layer == b.layer,
        (None, None) => true,
        _ => false,
    }
    &&& opt_seq(p.entity) == last_string(conds, "entity"@)
    &&& opt_seq(p.relation) == last_string(conds, "relation"@)
    &&& p.layer == last_layer(conds)
    &&& p.confidence_floor == last_floor(conds)
    &&& string_views(p.unknown_fields@) == unknown_fields(conds)
}

/// The plan of a remote `SELECT` with these clauses (`is_select_plan`).
pub fn remote_select_plan(
    conditions: &[Condition],
    limit: Option<u32>,
    fields: &Vec<String>,
    nearest: Option<&NearestClause>,
    order: Option<&OrderBy>,
) -> (p: RemoteSelectPlan)
    ensures
        is_select_plan(
            p,
            conditions@,
            limit,
            fields@,
            match nearest {
                Some(n) => Some(*n),
                None => None,
            },
            match order {
                Some(o) => Some(*o),
                None => None,
            },
        ),
{
    let mut entity: Option<String> = None;
    let mut relation: Option<String> = None;
    let mut layer: Option<i64> = None;
    let mut floor: Option<Value> = None;
    let mut unknown: Vec<String> = Vec::new();
    let mut i: usize = 0;
    while i < conditions.len()
        invariant
            i <= conditions@.len(),
            opt_seq(entity) == last_string(conditions@.take(i as int), "entity"@),
            opt_seq(relation) == last_string(conditions@.take(i as int), "relation"@),
            layer == last_layer(conditions@.take(i as int)),
            floor == last_floor(conditions@.take(i as int)),
            string_views(unknown@) == unknown_fields(conditions@.take(i as int)),
        decreases conditions.len() - i,
    {
        let c = &conditions[i];
        proof {
            assert(conditions@.take(i + 1).drop_last() =~= conditions@.take(i as int));
            assert(conditions@.take(i + 1).last() == conditions@[i as int]);
            reveal_strlit("entity");
            reveal_strlit("relation");
            reveal_strlit("layer");
            reveal_strlit("confidence");
            reveal_strlit("c_score");
            assert("entity"@.len() == 6 && "relation"@.len() == 8 && "layer"@.len() == 5);
            assert("confidence"@.len() == 10 && "c_score"@.len() == 7);
        }
        let f = c.field.as_str();
        let is_entity = str_eq(f, "entity");
        let is_relation = str_eq(f, "relation");
        let is_layer = str_eq(f, "layer");
        let is_score = str_eq(f, "confidence") || str_eq(f, "c_score");
        if is_entity {
            match &c.value {
                Value::String(s) => {
                    entity = Some(s.clone());
                },
                _ => {},
            }
        } else if is_relation {
            match &c.value {
                Value::String(s) => {
                    relation = Some(s.clone());
                },
                _ => {},
            }
        } else if is_layer {
            match &c.value {
                Value::Integer(n) => {
                    layer = Some(*n);
                },
                _ => {},
            }
        } else if is_score {
            match &c.value {
                Value::Number(t) => {
                    floor = Some(Value::Number(t.clone()));
                },
                Value::Integer(n) => {
                    floor = Some(Value::Integer(*n));
                },
                _ => {},
            }
        } else {
            let ghost prev = unknown@;
            unknown.push(c.field.clone());
            proof {
                assert(string_views(unknown@) =~= string_views(prev).push(c.field@));
            }
        }
        i = i + 1;
    }
    proof {
        assert(conditions@.take(conditions@.len() as int) =~= conditions@);
    }
    RemoteSelectPlan {
        limit: match limit {
            Some(l) => l,
            None => 20,
        },
        order: match order {
            Some(o) => Some(OrderBy { field: o.field.clone(), descending: o.descending }),
            None => None,
        },
        fields: if fields.len() == 0 {
            None
        } else {
            Some(crate::batch_dla::copy_strings(fields))
        },
        nearest: match nearest {
            Some(n) => Some(NearestClause { entity: n.entity.clone(), layer: n.layer }),
            None => None,
        },
        entity,
        relation,
        layer,
        confidence_floor: floor,
        unknown_fields: unknown,
    }
}

/// The warning a remote `SELECT` gives for conditions the server cannot
/// take, when there are any.
pub open spec fn unknown_fields_warning(unknown: Seq<Seq<char>>) -> Option<Seq<char>> {
    if unknown.len() > 0 {
        Some("Warning: SELECT ignored unknown condition fields: "@ + join(unknown, ", "@))
    } else {
        None
    }
}

/// The warning of a plan (`unknown_fields_warning`).
pub fn select_warning(plan: &RemoteSelectPlan) -> (r: Option<String>)
    ensures
        opt_seq(r) == unknown_fields_warning(string_views(plan.unknown_fields@)),
{
    if plan.unknown_fields.len() > 0 {
        let mut w = owned("Warning: SELECT ignored unknown condition fields: ");
        let j = join_strings(&plan.unknown_fields, ", ");
        w.append(j.as_str());
        Some(w)
    } else {
        None
    }
}

// ───────────────────────── the reply ─────────────────────────

/// The header of the edge table.
pub open spec fn select_header() -> Seq<char> {
    "  "@ + pad_right("Target"@, 20) + " "@ + pad_right("Relation"@, 15) + " "@ + pad_left("Score"@, 6)
        + "  "@ + pad_right("Layer"@, 6) + " "@ + "Feature"@
}

/// The line of an edge, with its score written with three decimals:
/// target (`?`), relation, score, layer and feature.
pub open spec fn select_edge_line(edge: JsonValue, score: Seq<char>) -> Seq<char> {
    "  "@ + pad_right(text_or(edge, "target"@, "?"@), 20) + " "@ + pad_right(
        text_or(edge, "relation"@, Seq::empty()),
        15,
    ) + " "@ + pad_left(score, 6) + "  L"@ + pad_right(decimal(get_count(edge, "layer"@) as nat), 5)
        + " F"@ + decimal(get_count(edge, "feature"@) as nat)
}

/// What a remote `SELECT` prints of the reply: `(no matching edges)`, or
/// a table of the edges (the `i`th with the `i`th score); then the total
/// when the reply gives one.
pub open spec fn select_reply_lines(body: JsonValue, scores: Seq<Seq<char>>) -> Seq<Seq<char>> {
    let table = match json_get(body, "edges"@) {
        Some(JsonValue::Array(es)) => if es@.len() == 0 {
            seq!["  (no matching edges)"@]
        } else {
            seq![select_header(), "  "@ + dashes(65)] + Seq::new(
                es@.len(),
                |i: int| select_edge_line(es@[i], scores[i]),
            )
        },
        _ => Seq::empty(),
    };
    table + match field_u64(body, "total"@) {
        Some(t) => seq!["\n"@ + decimal(t as nat) + " total"@],
        None => Seq::empty(),
    }
}

fn decimal_string(n: u64) -> (r: String)
    ensures
        r@ == decimal(n as nat),
{
    string_from_chars(u64_decimal(n).as_slice())
}

fn select_header_exec() -> (r: String)
    ensures
        r@ == select_header(),
{
    let mut out = owned("  ");
    append_pad_right(&mut out, "Target", 20);
    out.append(" ");
    append_pad_right(&mut out, "Relation", 15);
    out.append(" ");
    append_pad_left(&mut out, "Score", 6);
    out.append("  ");
    append_pad_right(&mut out, "Layer", 6);
    out.append(" ");
    out.append("Feature");
    out
}

fn select_edge_line_exec(edge: &JsonValue, score: &str) -> (r: String)
    ensures
        r@ == select_edge_line(*edge, score@),
{
    proof {
        reveal_strlit("");
        assert(""@ =~= Seq::<char>::empty());
    }
    let mut out = owned("  ");
    let target = text_or_exec(edge, "target", "?");
    append_pad_right(&mut out, target.as_str(), 20);
    out.append(" ");
    let relation = text_or_exec(edge, "relation", "");
    append_pad_right(&mut out, relation.as_str(), 15);
    out.append(" ");
    append_pad_left(&mut out, score, 6);
    out.append("  L");
    let layer = decimal_string(crate::experiment::count_field(edge, "layer"));
    append_pad_right(&mut out, layer.as_str(), 5);
    out.append(" F");
    let feature = decimal_string(crate::experiment::count_field(edge, "feature"));
    out.append(feature.as_str());
    out
}

/// The lines a remote `SELECT` prints from the server's reply `body`
/// (`select_reply_lines`), with `score_texts` each edge's score written
/// with three decimals, in the order of the edges.
pub fn remote_select_lines(body: &JsonValue, score_texts: &Vec<String>) -> (out: Vec<String>)
    requires
        score_texts@.len() == array_member(*body, "edges"@).len(),
    ensures
        string_views(out@) == select_reply_lines(*body, string_views(score_texts@)),
{
    let ghost scores = string_views(score_texts@);
    let mut out: Vec<String> = Vec::new();
    match member(body, "edges") {
        Some(JsonValue::Array(es)) => {
            if es.len() == 0 {
                out.push(owned("  (no matching edges)"));
            } else {
                out.push(select_header_exec());
                let mut rule = owned("  ");
                let d = dashes_exec(65);
                rule.append(d.as_str());
                out.push(rule);
                let ghost head = string_views(out@);
                let mut i: usize = 0;
                while i < es.len()
                    invariant
                        i <= es@.len(),
                        score_texts@.len() == es@.len(),
                        scores == string_views(score_texts@),
                        string_views(out@) == head + Seq::new(
                            i as nat,
                            |k: int| select_edge_line(es@[k], scores[k]),
                        ),
                    decreases es.len() - i,
                {
                    let line = select_edge_line_exec(&es[i], score_texts[i].as_str());
                    let ghost prev = string_views(out@);
                    out.push(line);
                    proof {
                        assert(string_views(out@) =~= prev.push(select_edge_line(es@[i as int], scores[i as int])));
                        assert(string_views(out@) =~= head + Seq::new(
                            (i + 1) as nat,
                            |k: int| select_edge_line(es@[k], scores[k]),
                        ));
                    }
                    i = i + 1;
                }
                proof {
                    assert(string_views(out@) =~= seq![select_header(), "  "@ + dashes(65)] + Seq::new(
                        es@.len(),
                        |k: int| select_edge_line(es@[k], scores[k]),
                    ));
                }
            }
        },
        _ => {},
    }
    let ghost s1 = string_views(out@);
    let ghost table = match json_get(*body, "edges"@) {
        Some(JsonValue::Array(es)) => if es@.len() == 0 {
            seq!["  (no matching edges)"@]
        } else {
            seq![select_header(), "  "@ + dashes(65)] + Seq::new(
                es@.len(),
                |i: int| select_edge_line(es@[i], scores[i]),
            )
        },
        _ => Seq::empty(),
    };
    assert(s1 =~= table);
    match crate::remote::get_u64(body, "total") {
        Some(t) => {
            let mut line = owned("\n");
            let d = decimal_string(t);
            line.append(d.as_str());
            line.append(" total");
            out.push(line);
        },
        None => {},
    }
    proof {
        assert(string_views(out@) =~= select_reply_lines(*body, scores));
    }
    out
}

} // verus!

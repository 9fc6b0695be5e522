//! What the remote LQL client prints from the server's model and layer
//! listings, and of the patches it keeps on the client side.

use vstd::prelude::*;
use crate::experiment::{array_member, get_bool, get_count, member};
use crate::remote::{json_get, JsonValue};
use crate::numfmt::format_number_spec;
use crate::text::{decimal, owned, push_chars, string_from_chars, u64_decimal};
use crate::token_summary::{
    append_pad_left, append_pad_right, dashes, dashes_exec, pad_left, pad_right,
};
use crate::lql::{
    condition_string, condition_usize, first_condition_on, string_views, Assignment, Condition,
    Value,
};
use crate::remote::LqlError;
use crate::text::parse_usize_spec;

verus! {

/// The string member `key`, or `d` when it is missing or not a string.
pub open spec fn text_or(v: JsonValue, key: Seq<char>, d: Seq<char>) -> Seq<char> {
    match json_get(v, key) {
        Some(JsonValue::String(s)) => s@,
        _ => d,
    }
}

pub(crate) fn text_or_exec(v: &JsonValue, key: &str, d: &str) -> (r: String)
    ensures
        r@ == text_or(*v, key@, d@),
{
    match member(v, key) {
        Some(JsonValue::String(s)) => s.clone(),
        _ => owned(d),
    }
}

fn decimal_text(n: u64) -> (r: String)
    ensures
        r@ == decimal(n as nat),
{
    string_from_chars(u64_decimal(n).as_slice())
}

// ───────────────────────── models ─────────────────────────

/// The cells of a model line: `{:<35} {:>10} {:>8} {:>12}`.
pub open spec fn model_cells(a: Seq<char>, b: Seq<char>, c: Seq<char>, d: Seq<char>) -> Seq<char> {
    pad_right(a, 35) + " "@ + pad_left(b, 10) + " "@ + pad_left(c, 8) + " "@ + pad_left(d, 12)
}

/// The line of a model of the listing: its id (`?`), features, whether it
/// is loaded, and path (`/v1`).
pub open spec fn model_line(m: JsonValue) -> Seq<char> {
    model_cells(
        text_or(m, "id"@, "?"@),
        decimal(get_count(m, "features"@) as nat),
        if get_bool(m, "loaded"@) {
            "loaded"@
        } else {
            "unloaded"@
        },
        text_or(m, "path"@, "/v1"@),
    )
}

/// `SHOW MODELS` on a remote server: a header, a rule, and a line per
/// model the server lists.
pub open spec fn models_lines(body: JsonValue) -> Seq<Seq<char>> {
    seq![model_cells("Model"@, "Features"@, "Status"@, "Path"@), dashes(70)] + array_member(
        body,
        "models"@,
    ).map_values(|m: JsonValue| model_line(m))
}

fn model_cells_exec(a: &str, b: &str, c: &str, d: &str) -> (r: String)
    ensures
        r@ == model_cells(a@, b@, c@, d@),
{
    let mut out = String::new();
    append_pad_right(&mut out, a, 35);
    out.append(" ");
    append_pad_left(&mut out, b, 10);
    out.append(" ");
    append_pad_left(&mut out, c, 8);
    out.append(" ");
    append_pad_left(&mut out, d, 12);
    out
}

fn model_line_exec(m: &JsonValue) -> (r: String)
    ensures
        r@ == model_line(*m),
{
    let id = text_or_exec(m, "id", "?");
    let features = decimal_text(crate::experiment::count_field(m, "features"));
    let status: &str = if crate::experiment::bool_field(m, "loaded") {
        "loaded"
    } else {
        "unloaded"
    };
    let path = text_or_exec(m, "path", "/v1");
    model_cells_exec(id.as_str(), features.as_str(), status, path.as_str())
}

/// The lines of `SHOW MODELS` on a remote server (`models_lines`).
pub fn show_models_lines(body: &JsonValue) -> (out: Vec<String>)
    ensures
        string_views(out@) == models_lines(*body),
{
    let mut out: Vec<String> = Vec::new();
    out.push(model_cells_exec("Model", "Features", "Status", "Path"));
    out.push(dashes_exec(70));
    let ghost head = string_views(out@);
    let ghost items = array_member(*body, "models"@);
    match member(body, "models") {
        Some(JsonValue::Array(models)) => {
            let mut i: usize = 0;
            while i < models.len()
                invariant
                    i <= models@.len(),
                    items == models@,
                    string_views(out@) == head + items.take(i as int).map_values(
                        |m: JsonValue| model_line(m),
                    ),
                decreases models.len() - i,
            {
                let line = model_line_exec(&models[i]);
                let ghost prev = out@;
                out.push(line);
                proof {
                    assert(string_views(out@) =~= string_views(prev).push(model_line(items[i as int])));
                    assert(items.take(i + 1).map_values(|m: JsonValue| model_line(m)) =~= items.take(
                        i as int,
                    ).map_values(|m: JsonValue| model_line(m)).push(model_line(items[i as int])));
                }
                i = i + 1;
            }
            assert(items.take(models.len() as int) == items);
        },
        _ => {
            assert(items.map_values(|m: JsonValue| model_line(m)) =~= Seq::<Seq<char>>::empty());
        },
    }
    assert(string_views(out@) =~= models_lines(*body));
    out
}

// ───────────────────────── layers ─────────────────────────

/// The cells of a layer line: `{:<8} {:>10} {:>10} {:>15}`.
pub open spec fn layer_cells(a: Seq<char>, b: Seq<char>, c: Seq<char>, d: Seq<char>) -> Seq<char> {
    pad_right(a, 8) + " "@ + pad_left(b, 10) + " "@ + pad_left(c, 10) + " "@ + pad_left(d, 15)
}

/// The line of a layer of the listing: its number, features, features
/// with metadata, and top token.
pub open spec fn layer_line(l: JsonValue) -> Seq<char> {
    layer_cells(
        decimal(get_count(l, "layer"@) as nat),
        decimal(get_count(l, "features"@) as nat),
        decimal(get_count(l, "with_meta"@) as nat),
        text_or(l, "top_token"@, Seq::empty()),
    )
}

/// `SHOW LAYERS` on a remote server: a header, a rule, and a line per
/// layer the server lists.
pub open spec fn layers_lines(body: JsonValue) -> Seq<Seq<char>> {
    seq![layer_cells("Layer"@, "Features"@, "With Meta"@, "Top Token"@), dashes(48)]
        + array_member(body, "layers"@).map_values(|l: JsonValue| layer_line(l))
}

/// The query of a remote `SHOW LAYERS`: the range's ends, when it has one.
pub open spec fn layers_query(range: Option<(u32, u32)>) -> Seq<(Seq<char>, Seq<char>)> {
    match range {
        Some((s, e)) => seq![("start"@, decimal(s as nat)), ("end"@, decimal(e as nat))],
        None => Seq::empty(),
    }
}

/// The query of a remote `SHOW LAYERS` (`layers_query`).
pub fn layers_query_params(range: Option<(u32, u32)>) -> (q: Vec<(String, String)>)
    ensures
        crate::token_summary::pair_views(q@) == layers_query(range),
{
    let mut q: Vec<(String, String)> = Vec::new();
    if let Some((s, e)) = range {
        q.push((owned("start"), decimal_text(s as u64)));
        q.push((owned("end"), decimal_text(e as u64)));
    }
    assert(crate::token_summary::pair_views(q@) =~= layers_query(range));
    q
}

fn layer_cells_exec(a: &str, b: &str, c: &str, d: &str) -> (r: String)
    ensures
        r@ == layer_cells(a@, b@, c@, d@),
{
    let mut out = String::new();
    append_pad_right(&mut out, a, 8);
    out.append(" ");
    append_pad_left(&mut out, b, 10);
    out.append(" ");
    append_pad_left(&mut out, c, 10);
    out.append(" ");
    append_pad_left(&mut out, d, 15);
    out
}

fn layer_line_exec(l: &JsonValue) -> (r: String)
    ensures
        r@ == layer_line(*l),
{
    let layer = decimal_text(crate::experiment::count_field(l, "layer"));
    let features = decimal_text(crate::experiment::count_field(l, "features"));
    let with_meta = decimal_text(crate::experiment::count_field(l, "with_meta"));
    let top = text_or_exec(l, "top_token", "");
    proof {
        reveal_strlit("");
    }
    layer_cells_exec(layer.as_str(), features.as_str(), with_meta.as_str(), top.as_str())
}

/// The lines of `SHOW LAYERS` on a remote server (`layers_lines`).
pub fn show_layers_lines(body: &JsonValue) -> (out: Vec<String>)
    ensures
        string_views(out@) == layers_lines(*body),
{
    let mut out: Vec<String> = Vec::new();
    out.push(layer_cells_exec("Layer", "Features", "With Meta", "Top Token"));
    out.push(dashes_exec(48));
    let ghost head = string_views(out@);
    let ghost items = array_member(*body, "layers"@);
    match member(body, "layers") {
        Some(JsonValue::Array(layers)) => {
            let mut i: usize = 0;
            while i < layers.len()
                invariant
                    i <= layers@.len(),
                    items == layers@,
                    string_views(out@) == head + items.take(i as int).map_values(
                        |l: JsonValue| layer_line(l),
                    ),
                decreases layers.len() - i,
            {
                let line = layer_line_exec(&layers[i]);
                let ghost prev = out@;
                out.push(line);
                proof {
                    assert(string_views(out@) =~= string_views(prev).push(layer_line(items[i as int])));
                    assert(items.take(i + 1).map_values(|l: JsonValue| layer_line(l)) =~= items.take(
                        i as int,
                    ).map_values(|l: JsonValue| layer_line(l)).push(layer_line(items[i as int])));
                }
                i = i + 1;
            }
            assert(items.take(layers.len() as int) == items);
        },
        _ => {
            assert(items.map_values(|l: JsonValue| layer_line(l)) =~= Seq::<Seq<char>>::empty());
        },
    }
    assert(string_views(out@) =~= layers_lines(*body));
    out
}

/// A layer's line in a local `SHOW LAYERS`: `L` and its number, its
/// features and features with metadata (compact counts), and its most
/// frequent top token.
pub open spec fn local_layer_text(layer: nat, gates: nat, metas: nat, top: Seq<char>) -> Seq<char> {
    "L"@ + pad_right(decimal(layer), 7) + " "@ + pad_left(format_number_spec(gates), 10) + " "@
        + pad_left(format_number_spec(metas), 10) + " "@ + pad_left(top, 15)
}

/// A layer's line in a local `SHOW LAYERS` (`local_layer_text`).
pub fn local_layer_line(layer: usize, gates: usize, metas: usize, top: &str) -> (r: String)
    ensures
        r@ == local_layer_text(layer as nat, gates as nat, metas as nat, top@),
{
    let mut out = owned("L");
    let n = decimal_text(layer as u64);
    append_pad_right(&mut out, n.as_str(), 7);
    out.append(" ");
    let g = crate::numfmt::format_number(gates);
    append_pad_left(&mut out, g.as_str(), 10);
    out.append(" ");
    let m = crate::numfmt::format_number(metas);
    append_pad_left(&mut out, m.as_str(), 10);
    out.append(" ");
    append_pad_left(&mut out, top, 15);
    out
}

/// The header and rule of `SHOW LAYERS`.
pub fn layers_header() -> (r: Vec<String>)
    ensures
        string_views(r@) == seq![layer_cells("Layer"@, "Features"@, "With Meta"@, "Top Token"@), dashes(48)],
{
    let mut out: Vec<String> = Vec::new();
    out.push(layer_cells_exec("Layer", "Features", "With Meta", "Top Token"));
    out.push(dashes_exec(48));
    assert(string_views(out@) =~= seq![
        layer_cells("Layer"@, "Features"@, "With Meta"@, "Top Token"@),
        dashes(48),
    ]);
    out
}

// ───────────────────────── local patches ─────────────────────────

/// What the client says of a patch it keeps: its description and its
/// counts of inserts, updates and deletes.
#[derive(Debug, Clone)]
pub struct PatchSummary {
    pub description: Option<String>,
    pub inserts: usize,
    pub updates: usize,
    pub deletes: usize,
}

/// The line of a local patch.
pub open spec fn patch_line(p: PatchSummary) -> Seq<char> {
    "  - "@ + match p.description {
        Some(d) => d@,
        None => "unnamed"@,
    } + " (ins="@ + decimal(p.inserts as nat) + ", upd="@ + decimal(p.updates as nat) + ", del="@
        + decimal(p.deletes as nat) + ")"@
}

/// `SHOW PATCHES` on a remote session: the patches kept on the client, or
/// a note that there are none.
pub open spec fn patches_lines(ps: Seq<PatchSummary>) -> Seq<Seq<char>> {
    if ps.len() == 0 {
        seq!["  (no local patches)"@]
    } else {
        seq!["Local patches (client-side only):"@] + ps.map_values(|p: PatchSummary| patch_line(p))
    }
}

fn patch_line_exec(p: &PatchSummary) -> (r: String)
    ensures
        r@ == patch_line(*p),
{
    let mut out = owned("  - ");
    match &p.description {
        Some(d) => out.append(d.as_str()),
        None => out.append("unnamed"),
    }
    out.append(" (ins=");
    push_chars(&mut out, u64_decimal(p.inserts as u64).as_slice());
    out.append(", upd=");
    push_chars(&mut out, u64_decimal(p.updates as u64).as_slice());
    out.append(", del=");
    push_chars(&mut out, u64_decimal(p.deletes as u64).as_slice());
    out.append(")");
    out
}

/// The lines of `SHOW PATCHES` on a remote session (`patches_lines`).
pub fn show_patches_lines(patches: &Vec<PatchSummary>) -> (out: Vec<String>)
    ensures
        string_views(out@) == patches_lines(patches@),
{
    let mut out: Vec<String> = Vec::new();
    if patches.len() == 0 {
        out.push(owned("  (no local patches)"));
        assert(string_views(out@) =~= patches_lines(patches@));
        return out;
    }
    out.push(owned("Local patches (client-side only):"));
    let ghost head = string_views(out@);
    let mut i: usize = 0;
    while i < patches.len()
        invariant
            i <= patches@.len(),
            string_views(out@) == head + patches@.take(i as int).map_values(
                |p: PatchSummary| patch_line(p),
            ),
        decreases patches.len() - i,
    {
        let line = patch_line_exec(&patches[i]);
        let ghost prev = out@;
        out.push(line);
        proof {
            assert(string_views(out@) =~= string_views(prev).push(patch_line(patches@[i as int])));
            assert(patches@.take(i + 1).map_values(|p: PatchSummary| patch_line(p)) =~= patches@.take(
                i as int,
            ).map_values(|p: PatchSummary| patch_line(p)).push(patch_line(patches@[i as int])));
        }
        i = i + 1;
    }
    assert(patches@.take(patches.len() as int) == patches@);
    assert(string_views(out@) =~= patches_lines(patches@));
    out
}

/// The message of a patch of `total` operations applied on the client
/// side.
pub open spec fn applied_message(path: Seq<char>, total: nat, p: PatchSummary) -> Seq<char> {
    "Applied locally: "@ + path + " ("@ + decimal(total)
        + " ops: "@ + decimal(p.inserts as nat) + " ins, "@ + decimal(p.updates as nat) + " upd, "@
        + decimal(p.deletes as nat) + " del)\nPatch stays client-side — server never sees it."@
}

/// The message of a patch of `total` operations applied on the client
/// side (`applied_message`).
pub fn applied_patch_message(path: &str, total: usize, p: &PatchSummary) -> (r: String)
    ensures
        r@ == applied_message(path@, total as nat, *p),
{
    let mut out = owned("Applied locally: ");
    out.append(path);
    out.append(" (");
    push_chars(&mut out, u64_decimal(total as u64).as_slice());
    out.append(" ops: ");
    push_chars(&mut out, u64_decimal(p.inserts as u64).as_slice());
    out.append(" ins, ");
    push_chars(&mut out, u64_decimal(p.updates as u64).as_slice());
    out.append(" upd, ");
    push_chars(&mut out, u64_decimal(p.deletes as u64).as_slice());
    out.append(" del)\nPatch stays client-side — server never sees it.");
    out
}

/// The description a patch is listed under.
pub open spec fn patch_desc(p: PatchSummary) -> Seq<char> {
    match p.description {
        Some(d) => d@,
        None => "unnamed"@,
    }
}

/// The first patch listed under `name`.
pub open spec fn first_described(ps: Seq<PatchSummary>, name: Seq<char>) -> Option<int>
    decreases ps.len(),
{
    if ps.len() == 0 {
        None
    } else if patch_desc(ps[0]) == name {
        Some(0)
    } else {
        match first_described(ps.drop_first(), name) {
            Some(i) => Some(i + 1),
            None => None,
        }
    }
}

/// The local patch `name` names: the index it spells, when there is such
/// a patch; else, when it spells no index, the first patch listed under
/// it.
pub open spec fn patch_named(ps: Seq<PatchSummary>, name: Seq<char>) -> Option<int> {
    match parse_usize_spec(name) {
        Some(i) => if (i as int) < ps.len() {
            Some(i as int)
        } else {
            None
        },
        None => first_described(ps, name),
    }
}

fn first_described_exec(ps: &Vec<PatchSummary>, name: &str) -> (r: Option<usize>)
    ensures
        match r {
            Some(i) => i < ps@.len() && first_described(ps@, name@) == Some(i as int),
            None => first_described(ps@, name@) is None,
        },
{
    let mut i: usize = 0;
    assert(ps@.skip(0) == ps@);
    while i < ps.len()
        invariant
            i <= ps@.len(),
            first_described(ps@, name@) == match first_described(ps@.skip(i as int), name@) {
                Some(k) => Some(k + i),
                None => None::<int>,
            },
        decreases ps.len() - i,
    {
        let ghost rest = ps@.skip(i as int);
        assert(rest[0] == ps@[i as int]);
        let desc: &str = match &ps[i].description {
            Some(d) => d.as_str(),
            None => "unnamed",
        };
        if crate::lql::str_eq(desc, name) {
            return Some(i);
        }
        assert(rest.drop_first() == ps@.skip(i + 1));
        i = i + 1;
    }
    None
}

/// Removes the local patch `name` names (`patch_named`) and says which it
/// was; when it names none, nothing changes and the error says so.
pub fn remove_local_patch(patches: &mut Vec<PatchSummary>, name: &str) -> (r: Result<String, LqlError>)
    ensures
        match patch_named(old(patches)@, name@) {
            Some(i) => final(patches)@ == old(patches)@.remove(i) && (r matches Ok(m) && m@
                == "Removed local patch #"@ + decimal(i as nat) + ": "@ + patch_desc(
                old(patches)@[i],
            )),
            None => final(patches)@ == old(patches)@ && (r matches Err(LqlError::Execution(m))
                && m@ == "local patch not found: "@ + name@ + " (use index or description)"@),
        },
{
    let cs = crate::text::chars_of(name);
    let pos: Option<usize> = match crate::text::parse_usize(cs.as_slice()) {
        Some(idx) => if idx < patches.len() {
            Some(idx)
        } else {
            None
        },
        None => first_described_exec(patches, name),
    };
    match pos {
        Some(i) => {
            let removed = patches.remove(i);
            let mut m = owned("Removed local patch #");
            push_chars(&mut m, u64_decimal(i as u64).as_slice());
            m.append(": ");
            match &removed.description {
                Some(d) => m.append(d.as_str()),
                None => m.append("unnamed"),
            }
            Ok(m)
        },
        None => {
            let mut m = owned("local patch not found: ");
            m.append(name);
            m.append(" (use index or description)");
            Err(LqlError::Execution(m))
        },
    }
}

// ───────────────────────── remote edits ─────────────────────────

/// Which features a remote `DELETE` or `UPDATE` edits: the one its
/// conditions name by layer and feature, or those the server's `SELECT`
/// finds for an entity (in a layer, when one is given).
#[derive(Debug)]
pub enum RemoteEditTarget {
    Feature { layer: usize, feature: usize },
    Entity { entity: String, layer: Option<usize> },
}

/// What the conditions of a remote `DELETE` or `UPDATE` (`verb`) ask to
/// edit: a layer and a feature, else an entity, else an error.
pub fn plan_remote_edit(conditions: &[Condition], verb: &str) -> (r: Result<RemoteEditTarget, LqlError>)
    ensures
        ({
            let layer = condition_usize_spec(conditions@, "layer"@);
            let feature = condition_usize_spec(conditions@, "feature"@);
            match (layer, feature) {
                (Some(l), Some(f)) => r matches Ok(RemoteEditTarget::Feature { layer, feature })
                    && layer == l && feature == f,
                _ => match condition_string_spec(conditions@, "entity"@) {
                    Some(e) => r matches Ok(RemoteEditTarget::Entity { entity, layer: el })
                        && entity@ == e && el == layer,
                    None => r matches Err(LqlError::Execution(m)) && m@ == verb@
                        + " requires either layer+feature or entity"@,
                },
            }
        }),
{
    let layer = condition_usize(conditions, "layer");
    let feature = condition_usize(conditions, "feature");
    match (layer, feature) {
        (Some(l), Some(f)) => Ok(RemoteEditTarget::Feature { layer: l, feature: f }),
        _ => match condition_string(conditions, "entity") {
            Some(e) => Ok(RemoteEditTarget::Entity { entity: e, layer }),
            None => {
                let mut m = owned(verb);
                m.append(" requires either layer+feature or entity");
                Err(LqlError::Execution(m))
            },
        },
    }
}

/// The integer of the first condition on `field`, as `condition_usize`
/// reads it.
pub open spec fn condition_usize_spec(cs: Seq<Condition>, field: Seq<char>) -> Option<usize> {
    match first_condition_on(cs, field) {
        Some(i) => match cs[i].value {
            Value::Integer(n) => Some(n as usize),
            _ => None,
        },
        None => None,
    }
}

/// The string of the first condition on `field`, as `condition_string`
/// reads it.
pub open spec fn condition_string_spec(cs: Seq<Condition>, field: Seq<char>) -> Option<Seq<char>> {
    match first_condition_on(cs, field) {
        Some(i) => match cs[i].value {
            Value::String(s) => Some(s@),
            _ => None,
        },
        None => None,
    }
}

/// The target an `UPDATE`'s assignments set: the first assignment to
/// `target` or `top_token`, when its value is a string.
pub open spec fn update_target_spec(set: Seq<Assignment>) -> Option<Seq<char>>
    decreases set.len(),
{
    if set.len() == 0 {
        None
    } else if set[0].field@ == "target"@ || set[0].field@ == "top_token"@ {
        match set[0].value {
            Value::String(s) => Some(s@),
            _ => None,
        }
    } else {
        update_target_spec(set.drop_first())
    }
}

/// The target an `UPDATE`'s assignments set (`update_target_spec`).
pub fn update_target(set: &[Assignment]) -> (r: Option<String>)
    ensures
        match r {
            Some(t) => update_target_spec(set@) == Some(t@),
            None => update_target_spec(set@) is None,
        },
{
    let mut i: usize = 0;
    assert(set@.skip(0) == set@);
    while i < set.len()
        invariant
            i <= set@.len(),
            update_target_spec(set@) == update_target_spec(set@.skip(i as int)),
        decreases set.len() - i,
    {
        let ghost rest = set@.skip(i as int);
        assert(rest[0] == set@[i as int]);
        if crate::lql::str_eq(set[i].field.as_str(), "target") || crate::lql::str_eq(
            set[i].field.as_str(),
            "top_token",
        ) {
            return match &set[i].value {
                Value::String(s) => Some(s.clone()),
                _ => None,
            };
        }
        assert(rest.drop_first() == set@.skip(i + 1));
        i = i + 1;
    }
    None
}

/// The description of a remote edit's patch: `{verb} {n} feature(s)`.
pub fn edit_patch_description(verb: &str, n: usize) -> (r: String)
    ensures
        r@ == verb@ + " "@ + decimal(n as nat) + " feature(s)"@,
{
    let mut m = owned(verb);
    m.append(" ");
    push_chars(&mut m, u64_decimal(n as u64).as_slice());
    m.append(" feature(s)");
    m
}

/// What a remote `DELETE` says once the server applied its patch.
pub fn deleted_message(n: usize) -> (r: String)
    ensures
        r@ == "Deleted: "@ + decimal(n as nat) + " feature(s) → remote server"@,
{
    let mut m = owned("Deleted: ");
    push_chars(&mut m, u64_decimal(n as u64).as_slice());
    m.append(" feature(s) → remote server");
    m
}

/// What a remote `UPDATE` says once the server applied its patch.
pub fn updated_message(n: usize, target: &Option<String>) -> (r: String)
    ensures
        r@ == "Updated: "@ + decimal(n as nat) + " feature(s)"@ + match target {
            Some(t) => " target="@ + t@,
            None => Seq::empty(),
        } + " → remote server"@,
{
    let mut m = owned("Updated: ");
    push_chars(&mut m, u64_decimal(n as u64).as_slice());
    m.append(" feature(s)");
    let ghost mid = m@;
    match target {
        Some(t) => {
            m.append(" target=");
            m.append(t.as_str());
        },
        None => {
            assert(mid + Seq::<char>::empty() == mid);
        },
    }
    m.append(" → remote server");
    m
}

/// What `USE REMOTE` says once the server answered its stats: the model
/// (`unknown`), its layers and features, and the URL without trailing
/// slashes.
pub open spec fn connected_text(stats: JsonValue, url: Seq<char>) -> Seq<char> {
    "Connected: "@ + text_or(stats, "model"@, "unknown"@) + " ("@ + decimal(
        get_count(stats, "layers"@) as nat,
    ) + " layers, "@ + decimal(get_count(stats, "features"@) as nat) + " features)\n  Remote: "@
        + crate::terminal::without_trailing_slashes(url)
}

/// What `USE REMOTE` says once connected (`connected_text`).
pub fn connected_message(stats: &JsonValue, url: &str) -> (r: String)
    ensures
        r@ == connected_text(*stats, url@),
{
    let base = crate::terminal::trim_trailing_slashes(url);
    let mut m = owned("Connected: ");
    let model = text_or_exec(stats, "model", "unknown");
    m.append(model.as_str());
    m.append(" (");
    push_chars(&mut m, u64_decimal(crate::experiment::count_field(stats, "layers")).as_slice());
    m.append(" layers, ");
    push_chars(&mut m, u64_decimal(crate::experiment::count_field(stats, "features")).as_slice());
    m.append(" features)\n  Remote: ");
    m.append(base.as_str());
    m
}

} // verus!

//! What the remote LQL client prints of the server's relation, feature and
//! entity listings, of its statistics, and of an insert it forwarded.

use vstd::prelude::*;
use crate::experiment::{array_member, get_bool, get_count, member, string_items, string_list};
use crate::introspection::{feature_cells, feature_cells_exec};
use crate::lql::{join, str_eq, string_views, Condition, DescribeMode, Value};
use crate::remote::{json_get, JsonValue, LqlError};
use crate::remote_text::{text_or, text_or_exec};
use crate::text::{decimal, owned, string_from_chars, u64_decimal};
use crate::token_summary::{
    append_pad_left, append_pad_right, dashes, dashes_exec, join_strings, pad_left, pad_right,
    pair_views, push_pair,
};

verus! {

fn decimal_string(n: u64) -> (r: String)
    ensures
        r@ == decimal(n as nat),
{
    string_from_chars(u64_decimal(n).as_slice())
}

fn push_line(out: &mut Vec<String>, line: String)
    ensures
        string_views(final(out)@) == string_views(old(out)@).push(line@),
{
    let ghost prev = out@;
    let ghost l = line@;
    out.push(line);
    assert(string_views(out@) =~= string_views(prev).push(l));
}

// ───────────────────────── relations ─────────────────────────

/// The line of a probe-confirmed relation: name (`?`) and feature count.
pub open spec fn probe_line(r: JsonValue) -> Seq<char> {
    pad_right(text_or(r, "name"@, "?"@), 25) + " "@ + pad_left(decimal(get_count(r, "count"@) as nat), 8)
}

/// The probe-confirmed relations, unless raw: a heading with the number
/// of labels, a header, a rule, a line each, and a blank line; nothing
/// when there are none.
pub open spec fn probe_part(body: JsonValue, mode: DescribeMode) -> Seq<Seq<char>> {
    let probes = array_member(body, "probe_relations"@);
    if mode != DescribeMode::Raw && probes.len() > 0 {
        seq![
            "Probe-confirmed relations ("@ + decimal(get_count(body, "probe_count"@) as nat) + " labels):"@,
            pad_right("Relation"@, 25) + " "@ + pad_left("Features"@, 8),
            dashes(35),
        ] + probes.map_values(|r: JsonValue| probe_line(r)) + seq![Seq::<char>::empty()]
    } else {
        Seq::empty()
    }
}

/// The examples of a token relation, when asked for and it has any.
pub open spec fn examples_text(r: JsonValue, with_examples: bool) -> Seq<char> {
    let ex = string_items(array_member(r, "examples"@));
    if with_examples && ex.len() > 0 {
        "  e.g. "@ + join(ex, ", "@)
    } else {
        Seq::empty()
    }
}

/// The line of a token relation, with its top score written with two
/// decimals: name (`?`), count, score, layer span, examples.
pub open spec fn token_relation_line(r: JsonValue, score: Seq<char>, with_examples: bool) -> Seq<char> {
    pad_right(text_or(r, "name"@, "?"@), 25) + " "@ + pad_left(decimal(get_count(r, "count"@) as nat), 8)
        + " "@ + pad_left(score, 8) + " "@ + pad_left(decimal(get_count(r, "min_layer"@) as nat), 5)
        + "-"@ + decimal(get_count(r, "max_layer"@) as nat) + examples_text(r, with_examples)
}

/// What a remote `SHOW RELATIONS` prints: the probe-confirmed relations
/// (unless raw), then the top output tokens, in verbose or raw mode or
/// when there was no probe part, each with the `i`th score.
pub open spec fn relations_lines(
    body: JsonValue,
    mode: DescribeMode,
    with_examples: bool,
    scores: Seq<Seq<char>>,
) -> Seq<Seq<char>> {
    let probe = probe_part(body, mode);
    let rels = array_member(body, "relations"@);
    let show_raw = mode == DescribeMode::Raw || mode == DescribeMode::Verbose || probe.len() == 0;
    probe + if show_raw && rels.len() > 0 {
        seq![
            "Top output tokens:"@,
            pad_right("Token"@, 25) + " "@ + pad_left("Count"@, 8) + " "@ + pad_left("Score"@, 8) + " "@
                + pad_left("Layers"@, 10),
            dashes(55),
        ] + Seq::new(rels.len(), |i: int| token_relation_line(rels[i], scores[i], with_examples))
    } else {
        Seq::empty()
    }
}

fn probe_line_exec(r: &JsonValue) -> (s: String)
    ensures
        s@ == probe_line(*r),
{
    let mut out = String::new();
    let name = text_or_exec(r, "name", "?");
    append_pad_right(&mut out, name.as_str(), 25);
    out.append(" ");
    let count = decimal_string(crate::experiment::count_field(r, "count"));
    append_pad_left(&mut out, count.as_str(), 8);
    out
}

fn token_relation_line_exec(r: &JsonValue, score: &str, with_examples: bool) -> (s: String)
    ensures
        s@ == token_relation_line(*r, score@, with_examples),
{
    let mut out = String::new();
    let name = text_or_exec(r, "name", "?");
    append_pad_right(&mut out, name.as_str(), 25);
    out.append(" ");
    let count = decimal_string(crate::experiment::count_field(r, "count"));
    append_pad_left(&mut out, count.as_str(), 8);
    out.append(" ");
    append_pad_left(&mut out, score, 8);
    out.append(" ");
    let lo = decimal_string(crate::experiment::count_field(r, "min_layer"));
    append_pad_left(&mut out, lo.as_str(), 5);
    out.append("-");
    let hi = decimal_string(crate::experiment::count_field(r, "max_layer"));
    out.append(hi.as_str());
    let ex = string_list(r, "examples");
    if with_examples && ex.len() > 0 {
        out.append("  e.g. ");
        let j = join_strings(&ex, ", ");
        out.append(j.as_str());
    }
    out
}

/// The lines of a remote `SHOW RELATIONS` from the server's reply `body`
/// (`relations_lines`), with `score_texts` the top score of each token
/// relation written with two decimals, in the order of the relations.
pub fn remote_relations_lines(
    body: &JsonValue,
    mode: DescribeMode,
    with_examples: bool,
    score_texts: &Vec<String>,
) -> (out: Vec<String>)
    requires
        score_texts@.len() == array_member(*body, "relations"@).len(),
    ensures
        string_views(out@) == relations_lines(*body, mode, with_examples, string_views(score_texts@)),
{
    let ghost scores = string_views(score_texts@);
    let mut out: Vec<String> = Vec::new();
    let not_raw = match mode {
        DescribeMode::Raw => false,
        _ => true,
    };
    if not_raw {
        match member(body, "probe_relations") {
            Some(JsonValue::Array(probes)) => {
                if probes.len() > 0 {
                    let mut head = owned("Probe-confirmed relations (");
                    let n = decimal_string(crate::experiment::count_field(body, "probe_count"));
                    head.append(n.as_str());
                    head.append(" labels):");
                    push_line(&mut out, head);
                    let mut h = String::new();
                    append_pad_right(&mut h, "Relation", 25);
                    h.append(" ");
                    append_pad_left(&mut h, "Features", 8);
                    push_line(&mut out, h);
                    push_line(&mut out, dashes_exec(35));
                    let ghost start = string_views(out@);
                    let mut i: usize = 0;
                    while i < probes.len()
                        invariant
                            i <= probes@.len(),
                            string_views(out@) == start + probes@.take(i as int).map_values(
                                |r: JsonValue| probe_line(r),
                            ),
                        decreases probes.len() - i,
                    {
                        let line = probe_line_exec(&probes[i]);
                        push_line(&mut out, line);
                        proof {
                            assert(probes@.take(i + 1).map_values(|r: JsonValue| probe_line(r))
                                =~= probes@.take(i as int).map_values(|r: JsonValue| probe_line(r)).push(
                                probe_line(probes@[i as int]),
                            ));
                        }
                        i = i + 1;
                    }
                    proof {
                        assert(probes@.take(probes@.len() as int) =~= probes@);
                    }
                    push_line(&mut out, String::new());
                }
            },
            _ => {},
        }
    }
    let ghost s1 = string_views(out@);
    assert(s1 =~= probe_part(*body, mode));
    let show_raw = match mode {
        DescribeMode::Raw => true,
        DescribeMode::Verbose => true,
        DescribeMode::Brief => out.len() == 0,
    };
    if show_raw {
        match member(body, "relations") {
            Some(JsonValue::Array(rels)) => {
                if rels.len() > 0 {
                    push_line(&mut out, owned("Top output tokens:"));
                    let mut h = String::new();
                    append_pad_right(&mut h, "Token", 25);
                    h.append(" ");
                    append_pad_left(&mut h, "Count", 8);
                    h.append(" ");
                    append_pad_left(&mut h, "Score", 8);
                    h.append(" ");
                    append_pad_left(&mut h, "Layers", 10);
                    push_line(&mut out, h);
                    push_line(&mut out, dashes_exec(55));
                    let ghost start = string_views(out@);
                    let mut i: usize = 0;
                    while i < rels.len()
                        invariant
                            i <= rels@.len(),
                            score_texts@.len() == rels@.len(),
                            scores == string_views(score_texts@),
                            string_views(out@) == start + Seq::new(
                                i as nat,
                                |k: int| token_relation_line(rels@[k], scores[k], with_examples),
                            ),
                        decreases rels.len() - i,
                    {
                        let line = token_relation_line_exec(&rels[i], score_texts[i].as_str(), with_examples);
                        let ghost prev = string_views(out@);
                        push_line(&mut out, line);
                        proof {
                            assert(string_views(out@) =~= start + Seq::new(
                                (i + 1) as nat,
                                |k: int| token_relation_line(rels@[k], scores[k], with_examples),
                            ));
                        }
                        i = i + 1;
                    }
                }
            },
            _ => {},
        }
    }
    proof {
        assert(string_views(out@) =~= relations_lines(*body, mode, with_examples, scores));
    }
    out
}

// ───────────────────────── stats ─────────────────────────

/// `true` or `false`.
pub open spec fn bool_text(b: bool) -> Seq<char> {
    if b {
        "true"@
    } else {
        "false"@
    }
}

/// The reply names all three layer bands.
pub open spec fn has_bands(body: JsonValue) -> bool {
    match json_get(body, "layer_bands"@) {
        Some(b) => json_get(b, "syntax"@) is Some && json_get(b, "knowledge"@) is Some && json_get(
            b,
            "output"@,
        ) is Some,
        None => false,
    }
}

/// What a remote `STATS` prints: the model, family, layer, feature and
/// hidden counts, dtype and extract level; the bands when the reply names
/// all three (`bands` being their ends as the reply writes them); what is
/// loaded when it says; and the server's address.
pub open spec fn stats_lines(body: JsonValue, url: Seq<char>, bands: Seq<Seq<char>>) -> Seq<Seq<char>> {
    seq![
        "Model: "@ + text_or(body, "model"@, "?"@),
        "Family: "@ + text_or(body, "family"@, "?"@),
        "Layers: "@ + decimal(get_count(body, "layers"@) as nat),
        "Features: "@ + decimal(get_count(body, "features"@) as nat),
        "Hidden: "@ + decimal(get_count(body, "hidden_size"@) as nat),
        "Dtype: "@ + text_or(body, "dtype"@, "?"@),
        "Extract level: "@ + text_or(body, "extract_level"@, "?"@),
    ] + (if has_bands(body) {
        seq![
            "Bands: syntax "@ + bands[0] + "-"@ + bands[1] + ", knowledge "@ + bands[2] + "-"@ + bands[3]
                + ", output "@ + bands[4] + "-"@ + bands[5],
        ]
    } else {
        Seq::empty()
    }) + match json_get(body, "loaded"@) {
        Some(l) => seq![
            "Loaded: browse="@ + bool_text(get_bool(l, "browse"@)) + ", inference="@ + bool_text(
                get_bool(l, "inference"@),
            ),
        ],
        None => Seq::empty(),
    } + seq!["Remote: "@ + url]
}

fn labelled(label: &str, value: &str) -> (r: String)
    ensures
        r@ == label@ + value@,
{
    let mut out = owned(label);
    out.append(value);
    out
}

fn bool_str(b: bool) -> (r: &'static str)
    ensures
        r@ == bool_text(b),
{
    if b {
        "true"
    } else {
        "false"
    }
}

/// The lines of a remote `STATS` (`stats_lines`), `band_texts` holding the
/// ends of the syntax, knowledge and output bands, in that order, as the
/// reply writes them, and `url` the server's address.
pub fn remote_stats_lines(body: &JsonValue, url: &str, band_texts: &Vec<String>) -> (out: Vec<String>)
    requires
        band_texts@.len() == 6,
    ensures
        string_views(out@) == stats_lines(*body, url@, string_views(band_texts@)),
{
    let ghost bands = string_views(band_texts@);
    let mut out: Vec<String> = Vec::new();
    push_line(&mut out, labelled("Model: ", text_or_exec(body, "model", "?").as_str()));
    push_line(&mut out, labelled("Family: ", text_or_exec(body, "family", "?").as_str()));
    push_line(&mut out, labelled("Layers: ", decimal_string(crate::experiment::count_field(body, "layers")).as_str()));
    push_line(&mut out, labelled("Features: ", decimal_string(crate::experiment::count_field(body, "features")).as_str()));
    push_line(&mut out, labelled("Hidden: ", decimal_string(crate::experiment::count_field(body, "hidden_size")).as_str()));
    push_line(&mut out, labelled("Dtype: ", text_or_exec(body, "dtype", "?").as_str()));
    push_line(&mut out, labelled("Extract level: ", text_or_exec(body, "extract_level", "?").as_str()));
    let ghost s0 = string_views(out@);
    let bands_named = match member(body, "layer_bands") {
        Some(b) => member(b, "syntax").is_some() && member(b, "knowledge").is_some() && member(
            b,
            "output",
        ).is_some(),
        None => false,
    };
    if bands_named {
        let mut line = owned("Bands: syntax ");
        line.append(band_texts[0].as_str());
        line.append("-");
        line.append(band_texts[1].as_str());
        line.append(", knowledge ");
        line.append(band_texts[2].as_str());
        line.append("-");
        line.append(band_texts[3].as_str());
        line.append(", output ");
        line.append(band_texts[4].as_str());
        line.append("-");
        line.append(band_texts[5].as_str());
        push_line(&mut out, line);
    }
    let ghost s1 = string_views(out@);
    match member(body, "loaded") {
        Some(l) => {
            let mut line = owned("Loaded: browse=");
            line.append(bool_str(crate::experiment::bool_field(l, "browse")));
            line.append(", inference=");
            line.append(bool_str(crate::experiment::bool_field(l, "inference")));
            push_line(&mut out, line);
        },
        None => {},
    }
    let ghost s2 = string_views(out@);
    push_line(&mut out, labelled("Remote: ", url));
    proof {
        assert(s1 =~= s0 + (if has_bands(*body) {
            seq![
                "Bands: syntax "@ + bands[0] + "-"@ + bands[1] + ", knowledge "@ + bands[2] + "-"@
                    + bands[3] + ", output "@ + bands[4] + "-"@ + bands[5],
            ]
        } else {
            Seq::empty()
        }));
        assert(string_views(out@) =~= stats_lines(*body, url@, bands));
    }
    out
}

// ───────────────────────── features ─────────────────────────

/// The index of the first condition on `a` or on `b`.
pub open spec fn first_condition_of(conds: Seq<Condition>, a: Seq<char>, b: Seq<char>) -> Option<int>
    decreases conds.len(),
{
    if conds.len() == 0 {
        None
    } else if conds[0].field@ == a || conds[0].field@ == b {
        Some(0)
    } else {
        match first_condition_of(conds.drop_first(), a, b) {
            Some(i) => Some(i + 1),
            None => None,
        }
    }
}

/// The token a remote `SHOW FEATURES` filters on: the string of the first
/// condition on `relation` or `token`, when that value is a string.
pub open spec fn features_token(conds: Seq<Condition>) -> Option<Seq<char>> {
    match first_condition_of(conds, "relation"@, "token"@) {
        Some(i) => match conds[i].value {
            Value::String(s) => Some(s@),
            _ => None,
        },
        None => None,
    }
}

/// The score floor of a remote `SHOW FEATURES`: the number of the first
/// condition on `confidence` or `c_score`, when that value is a number or
/// an integer.
pub open spec fn features_floor_spec(conds: Seq<Condition>) -> Option<Value> {
    match first_condition_of(conds, "confidence"@, "c_score"@) {
        Some(i) => match conds[i].value {
            Value::Number(t) => Some(Value::Number(t)),
            Value::Integer(n) => Some(Value::Integer(n)),
            _ => None,
        },
        None => None,
    }
}

proof fn lemma_first_condition_of(conds: Seq<Condition>, a: Seq<char>, b: Seq<char>, k: int)
    requires
        0 <= k <= conds.len(),
        forall|j: int| 0 <= j < k ==> (#[trigger] conds[j]).field@ != a && conds[j].field@ != b,
    ensures
        k < conds.len() && (conds[k].field@ == a || conds[k].field@ == b) ==> first_condition_of(
            conds,
            a,
            b,
        ) == Some(k),
        k == conds.len() ==> first_condition_of(conds, a, b) is None,
    decreases k,
{
    if k > 0 {
        let rest = conds.drop_first();
        assert(conds[0].field@ != a && conds[0].field@ != b);
        assert forall|j: int| 0 <= j < k - 1 implies (#[trigger] rest[j]).field@ != a && rest[j].field@ != b by {
            assert(rest[j] == conds[j + 1]);
        }
        if k < conds.len() {
            assert(rest[k - 1] == conds[k]);
        }
        lemma_first_condition_of(rest, a, b, k - 1);
    }
}

/// The first condition on `a` or on `b`, found by a scan.
fn find_condition_of(conds: &[Condition], a: &str, b: &str) -> (r: Option<usize>)
    ensures
        match r {
            Some(i) => i < conds@.len() && first_condition_of(conds@, a@, b@) == Some(i as int),
            None => first_condition_of(conds@, a@, b@) is None,
        },
{
    let mut i: usize = 0;
    while i < conds.len()
        invariant
            i <= conds@.len(),
            forall|j: int| 0 <= j < i ==> (#[trigger] conds@[j]).field@ != a@ && conds@[j].field@ != b@,
        decreases conds.len() - i,
    {
        let f = conds[i].field.as_str();
        if str_eq(f, a) || str_eq(f, b) {
            proof {
                lemma_first_condition_of(conds@, a@, b@, i as int);
            }
            return Some(i);
        }
        i = i + 1;
    }
    proof {
        lemma_first_condition_of(conds@, a@, b@, i as int);
    }
    None
}

/// The score floor of a remote `SHOW FEATURES` (`features_floor_spec`).
pub fn features_floor(conds: &[Condition]) -> (r: Option<Value>)
    ensures
        r == features_floor_spec(conds@),
{
    match find_condition_of(conds, "confidence", "c_score") {
        Some(i) => match &conds[i].value {
            Value::Number(t) => Some(Value::Number(t.clone())),
            Value::Integer(n) => Some(Value::Integer(*n)),
            _ => None,
        },
        None => None,
    }
}

/// The query of a remote `SHOW FEATURES` of `layer`: the layer, the token
/// filter, the score floor (`floor` being it as the `f32` it is taken as
/// writes itself), and the limit.
pub open spec fn features_query(
    layer: u32,
    conds: Seq<Condition>,
    limit: Option<u32>,
    floor: Seq<char>,
) -> Seq<(Seq<char>, Seq<char>)> {
    seq![("layer"@, decimal(layer as nat))] + match features_token(conds) {
        Some(t) => seq![("token"@, t)],
        None => Seq::empty(),
    } + match features_floor_spec(conds) {
        Some(_) => seq![("confidence_floor"@, floor)],
        None => Seq::empty(),
    } + match limit {
        Some(l) => seq![("limit"@, decimal(l as nat))],
        None => Seq::empty(),
    }
}

/// The query of a remote `SHOW FEATURES` (`features_query`).
pub fn features_query_params(
    layer: u32,
    conds: &[Condition],
    limit: Option<u32>,
    floor_text: &str,
) -> (q: Vec<(String, String)>)
    ensures
        pair_views(q@) == features_query(layer, conds@, limit, floor_text@),
{
    let mut q: Vec<(String, String)> = Vec::new();
    push_pair(&mut q, "layer", decimal_string(layer as u64));
    let ghost s0 = pair_views(q@);
    match find_condition_of(conds, "relation", "token") {
        Some(i) => match &conds[i].value {
            Value::String(s) => push_pair(&mut q, "token", s.clone()),
            _ => {},
        },
        None => {},
    }
    let ghost s1 = pair_views(q@);
    assert(s1 =~= s0 + match features_token(conds@) {
        Some(t) => seq![("token"@, t)],
        None => Seq::<(Seq<char>, Seq<char>)>::empty(),
    });
    let floor = features_floor(conds);
    if floor.is_some() {
        push_pair(&mut q, "confidence_floor", owned(floor_text));
    }
    let ghost s2 = pair_views(q@);
    assert(s2 =~= s1 + match features_floor_spec(conds@) {
        Some(_) => seq![("confidence_floor"@, floor_text@)],
        None => Seq::<(Seq<char>, Seq<char>)>::empty(),
    });
    match limit {
        Some(l) => push_pair(&mut q, "limit", decimal_string(l as u64)),
        None => {},
    }
    q
}

/// The line of a listed feature, with its score written with one decimal.
pub open spec fn remote_feature_line(f: JsonValue, score: Seq<char>) -> Seq<char> {
    feature_cells(
        decimal(get_count(f, "feature"@) as nat),
        text_or(f, "top_token"@, Seq::empty()),
        score,
        text_or(f, "down_outputs"@, Seq::empty()),
    )
}

/// What a remote `SHOW FEATURES` prints: the header, a rule, and a line
/// per listed feature, the `i`th with the `i`th score.
pub open spec fn remote_features_lines(body: JsonValue, scores: Seq<Seq<char>>) -> Seq<Seq<char>> {
    let fs = array_member(body, "features"@);
    seq![feature_cells("Feature"@, "Top Token"@, "Score"@, "Down outputs"@), dashes(72)] + Seq::new(
        fs.len(),
        |i: int| remote_feature_line(fs[i], scores[i]),
    )
}

/// The message of an error reply: its text, or `unknown error`.
pub open spec fn error_text(e: JsonValue) -> Seq<char> {
    match e {
        JsonValue::String(s) => s@,
        _ => "unknown error"@,
    }
}

/// The lines of a remote `SHOW FEATURES` from the server's reply
/// (`remote_features_lines`), with `score_texts` each feature's score
/// written with one decimal; the reply's `error`, when it has one, as an
/// error.
pub fn remote_features_lines_of(body: &JsonValue, score_texts: &Vec<String>) -> (r: Result<Vec<String>, LqlError>)
    requires
        score_texts@.len() == array_member(*body, "features"@).len(),
    ensures
        match json_get(*body, "error"@) {
            Some(e) => r matches Err(LqlError::Execution(m)) && m@ == error_text(e),
            None => r matches Ok(out) && string_views(out@) == remote_features_lines(
                *body,
                string_views(score_texts@),
            ),
        },
{
    proof {
        reveal_strlit("");
        assert(""@ =~= Seq::<char>::empty());
    }
    match member(body, "error") {
        Some(e) => {
            let m = match e {
                JsonValue::String(s) => s.clone(),
                _ => owned("unknown error"),
            };
            return Err(LqlError::Execution(m));
        },
        None => {},
    }
    let ghost scores = string_views(score_texts@);
    let ghost fs = array_member(*body, "features"@);
    let mut out: Vec<String> = Vec::new();
    push_line(&mut out, feature_cells_exec("Feature", "Top Token", "Score", "Down outputs"));
    push_line(&mut out, dashes_exec(72));
    let ghost start = string_views(out@);
    match member(body, "features") {
        Some(JsonValue::Array(items)) => {
            let mut i: usize = 0;
            while i < items.len()
                invariant
                    i <= items@.len(),
                    items@ == fs,
                    ""@ == Seq::<char>::empty(),
                    score_texts@.len() == fs.len(),
                    scores == string_views(score_texts@),
                    string_views(out@) == start + Seq::new(
                        i as nat,
                        |k: int| remote_feature_line(fs[k], scores[k]),
                    ),
                decreases items.len() - i,
            {
                let f = &items[i];
                let feature = decimal_string(crate::experiment::count_field(f, "feature"));
                let top = text_or_exec(f, "top_token", "");
                let down = text_or_exec(f, "down_outputs", "");
                let line = feature_cells_exec(feature.as_str(), top.as_str(), score_texts[i].as_str(), down.as_str());
                assert(line@ == remote_feature_line(fs[i as int], scores[i as int]));
                push_line(&mut out, line);
                proof {
                    assert(string_views(out@) =~= start + Seq::new(
                        (i + 1) as nat,
                        |k: int| remote_feature_line(fs[k], scores[k]),
                    ));
                }
                i = i + 1;
            }
        },
        _ => {},
    }
    proof {
        assert(string_views(out@) =~= remote_features_lines(*body, scores));
    }
    Ok(out)
}

// ───────────────────────── entities ─────────────────────────

/// The query of a remote `SHOW ENTITIES`: the layer and the limit, when
/// given.
pub open spec fn entities_query(layer: Option<u32>, limit: Option<u32>) -> Seq<(Seq<char>, Seq<char>)> {
    let head = match layer {
        Some(l) => seq![("layer"@, decimal(l as nat))],
        None => Seq::empty(),
    };
    head + match limit {
        Some(l) => seq![("limit"@, decimal(l as nat))],
        None => Seq::empty(),
    }
}

/// The query of a remote `SHOW ENTITIES` (`entities_query`).
pub fn entities_query_params(layer: Option<u32>, limit: Option<u32>) -> (q: Vec<(String, String)>)
    ensures
        pair_views(q@) == entities_query(layer, limit),
{
    let mut q: Vec<(String, String)> = Vec::new();
    match layer {
        Some(l) => push_pair(&mut q, "layer", decimal_string(l as u64)),
        None => {},
    }
    let ghost s0 = pair_views(q@);
    assert(s0 =~= match layer {
        Some(l) => seq![("layer"@, decimal(l as nat))],
        None => Seq::<(Seq<char>, Seq<char>)>::empty(),
    });
    match limit {
        Some(l) => push_pair(&mut q, "limit", decimal_string(l as u64)),
        None => {},
    }
    q
}

/// The cells of an entity line: `{:<30} {:>10} {:>10}`.
pub open spec fn entity_cells(a: Seq<char>, b: Seq<char>, c: Seq<char>) -> Seq<char> {
    pad_right(a, 30) + " "@ + pad_left(b, 10) + " "@ + pad_left(c, 10)
}

/// What a remote `SHOW ENTITIES` prints: the header, a rule, and a line
/// per listed entity (its name, count, and the `i`th score).
pub open spec fn remote_entities_lines(body: JsonValue, scores: Seq<Seq<char>>) -> Seq<Seq<char>> {
    let es = array_member(body, "entities"@);
    seq![entity_cells("Entity"@, "Count"@, "Score"@), dashes(52)] + Seq::new(
        es.len(),
        |i: int| entity_cells(
            text_or(es[i], "entity"@, Seq::empty()),
            decimal(get_count(es[i], "count"@) as nat),
            scores[i],
        ),
    )
}

fn entity_cells_exec(a: &str, b: &str, c: &str) -> (r: String)
    ensures
        r@ == entity_cells(a@, b@, c@),
{
    let mut out = String::new();
    append_pad_right(&mut out, a, 30);
    out.append(" ");
    append_pad_left(&mut out, b, 10);
    out.append(" ");
    append_pad_left(&mut out, c, 10);
    out
}

/// The lines of a remote `SHOW ENTITIES` (`remote_entities_lines`), with
/// `score_texts` each entity's score written with one decimal.
pub fn remote_entities_lines_of(body: &JsonValue, score_texts: &Vec<String>) -> (out: Vec<String>)
    requires
        score_texts@.len() == array_member(*body, "entities"@).len(),
    ensures
        string_views(out@) == remote_entities_lines(*body, string_views(score_texts@)),
{
    proof {
        reveal_strlit("");
        assert(""@ =~= Seq::<char>::empty());
    }
    let ghost scores = string_views(score_texts@);
    let ghost es = array_member(*body, "entities"@);
    let mut out: Vec<String> = Vec::new();
    push_line(&mut out, entity_cells_exec("Entity", "Count", "Score"));
    push_line(&mut out, dashes_exec(52));
    let ghost start = string_views(out@);
    match member(body, "entities") {
        Some(JsonValue::Array(items)) => {
            let mut i: usize = 0;
            while i < items.len()
                invariant
                    i <= items@.len(),
                    items@ == es,
                    ""@ == Seq::<char>::empty(),
                    score_texts@.len() == es.len(),
                    scores == string_views(score_texts@),
                    string_views(out@) == start + Seq::new(
                        i as nat,
                        |k: int| entity_cells(
                            text_or(es[k], "entity"@, Seq::empty()),
                            decimal(get_count(es[k], "count"@) as nat),
                            scores[k],
                        ),
                    ),
                decreases items.len() - i,
            {
                let e = &items[i];
                let name = text_or_exec(e, "entity", "");
                let count = decimal_string(crate::experiment::count_field(e, "count"));
                let line = entity_cells_exec(name.as_str(), count.as_str(), score_texts[i].as_str());
                assert(line@ == entity_cells(
                    text_or(es[i as int], "entity"@, Seq::empty()),
                    decimal(get_count(es[i as int], "count"@) as nat),
                    scores[i as int],
                ));
                push_line(&mut out, line);
                proof {
                    assert(string_views(out@) =~= start + Seq::new(
                        (i + 1) as nat,
                        |k: int| entity_cells(
                            text_or(es[k], "entity"@, Seq::empty()),
                            decimal(get_count(es[k], "count"@) as nat),
                            scores[k],
                        ),
                    ));
                }
                i = i + 1;
            }
        },
        _ => {},
    }
    proof {
        assert(string_views(out@) =~= remote_entities_lines(*body, scores));
    }
    out
}

// ───────────────────────── insert ─────────────────────────

/// What a remote `INSERT` prints: the edge it inserted with the number of
/// layers and the mode the server reports (`unknown`), and the latency
/// (`ms` being it with no decimals).
pub open spec fn insert_lines(
    entity: Seq<char>,
    relation: Seq<char>,
    target: Seq<char>,
    body: JsonValue,
    ms: Seq<char>,
) -> Seq<Seq<char>> {
    seq![
        "Inserted: "@ + entity + " —["@ + relation + "]→ "@ + target + " ("@ + decimal(
            get_count(body, "inserted"@) as nat,
        ) + " layers, mode: "@ + text_or(body, "mode"@, "unknown"@) + ")"@,
        ms + "ms (remote)"@,
    ]
}

/// The lines of a remote `INSERT` from the server's reply (`insert_lines`).
pub fn remote_insert_lines(
    entity: &str,
    relation: &str,
    target: &str,
    body: &JsonValue,
    ms_text: &str,
) -> (out: Vec<String>)
    ensures
        string_views(out@) == insert_lines(entity@, relation@, target@, *body, ms_text@),
{
    let mut line = owned("Inserted: ");
    line.append(entity);
    line.append(" —[");
    line.append(relation);
    line.append("]→ ");
    line.append(target);
    line.append(" (");
    let n = decimal_string(crate::experiment::count_field(body, "inserted"));
    line.append(n.as_str());
    line.append(" layers, mode: ");
    let mode = text_or_exec(body, "mode", "unknown");
    line.append(mode.as_str());
    line.append(")");
    let mut out: Vec<String> = Vec::new();
    push_line(&mut out, line);
    push_line(&mut out, labelled(ms_text, "ms (remote)"));
    proof {
        assert(string_views(out@) =~= insert_lines(entity@, relation@, target@, *body, ms_text@));
    }
    out
}

/// The body of a remote `INSERT`: the edge, its layer when given, and
/// its confidence and alpha as the texts of their `f32` values, `0.9` and
/// `0.1` when the statement gives none.
#[derive(Debug, Clone)]
pub struct InsertRequest {
    pub entity: String,
    pub relation: String,
    pub target: String,
    pub layer: Option<u32>,
    pub confidence: String,
    pub alpha: String,
}

/// The text of an optional value, or `d`.
pub open spec fn text_or_default(v: Option<String>, d: Seq<char>) -> Seq<char> {
    match v {
        Some(t) => t@,
        None => d,
    }
}

/// The body a remote `INSERT` posts to `/v1/insert`.
pub fn insert_request(
    entity: &str,
    relation: &str,
    target: &str,
    layer: Option<u32>,
    confidence: Option<String>,
    alpha: Option<String>,
) -> (r: InsertRequest)
    ensures
        r.entity@ == entity@,
        r.relation@ == relation@,
        r.target@ == target@,
        r.layer == layer,
        r.confidence@ == text_or_default(confidence, "0.9"@),
        r.alpha@ == text_or_default(alpha, "0.1"@),
{
    InsertRequest {
        entity: owned(entity),
        relation: owned(relation),
        target: owned(target),
        layer,
        confidence: match confidence {
            Some(c) => c,
            None => owned("0.9"),
        },
        alpha: match alpha {
            Some(a) => a,
            None => owned("0.1"),
        },
    }
}

} // verus!

//! What the remote LQL client prints of an inference trace
//! (`/v1/explain-infer`, alone or as the follow-up of a `DESCRIBE`): the
//! prediction, a line per layer (or per feature), and the latency.

use vstd::prelude::*;
use crate::experiment::{array_member, get_count, member, string_items, string_list};
use crate::lql::{join, string_views, LayerBand};
use crate::remote::{json_get, JsonValue};
use crate::remote_text::{text_or, text_or_exec};
use crate::text::{debug_str, decimal, owned, str_debug, string_from_chars, u64_decimal};
use crate::token_summary::{append_pad_left, append_pad_right, join_strings, pad_left, pad_right, spaces};

verus! {

/// The floating-point values of a trace, written out: the first
/// prediction's probability as a percentage with two decimals; per layer
/// of the trace, each feature's gate score with a sign and one decimal,
/// the first attention weight as a percentage with no decimals, and the
/// lens probability as a percentage with one decimal; and the latency
/// with no decimals.
#[derive(Debug, Clone)]
pub struct TraceNumbers {
    pub prediction: String,
    pub gates: Vec<Vec<String>>,
    pub attention: Vec<String>,
    pub lens: Vec<String>,
    pub latency: String,
}

/// The band's label after the prompt.
pub open spec fn band_label(band: Option<LayerBand>) -> Seq<char> {
    match band {
        Some(LayerBand::Syntax) => " (syntax)"@,
        Some(LayerBand::Knowledge) => " (knowledge)"@,
        Some(LayerBand::Output) => " (output)"@,
        _ => Seq::empty(),
    }
}

/// The value is a JSON number.
pub open spec fn is_number(v: Option<JsonValue>) -> bool {
    v matches Some(JsonValue::Number(_))
}

/// The value is a JSON string.
pub open spec fn is_text(v: Option<JsonValue>) -> bool {
    v matches Some(JsonValue::String(_))
}

/// The line of a feature when the trace has no attention: layer, relation
/// (padded to fourteen), feature, gate, top token (`?`) and top tokens.
pub open spec fn feature_line(layer: u64, feat: JsonValue, gate: Seq<char>) -> Seq<char> {
    "  L"@ + pad_left(decimal(layer as nat), 2) + ": "@ + pad_right(text_or(feat, "relation"@, Seq::empty()), 14)
        + " F"@ + pad_right(decimal(get_count(feat, "feature"@) as nat), 5) + " gate="@ + gate + "  → "@
        + pad_right(text_or(feat, "top_token"@, "?"@), 15) + " ["@ + join(
        string_items(array_member(feat, "top_tokens"@)),
        ", "@,
    ) + "]"@
}

/// The lines of the first `n` features of a layer, those without a
/// relation left out when only relations are asked for.
pub open spec fn feature_lines(
    layer: u64,
    feats: Seq<JsonValue>,
    gates: Seq<Seq<char>>,
    relations_only: bool,
    n: int,
) -> Seq<Seq<char>>
    decreases n,
{
    if n <= 0 {
        Seq::empty()
    } else {
        let prev = feature_lines(layer, feats, gates, relations_only, n - 1);
        if relations_only && text_or(feats[n - 1], "relation"@, Seq::empty()).len() == 0 {
            prev
        } else {
            prev.push(feature_line(layer, feats[n - 1], gates[n - 1]))
        }
    }
}

/// The feature column of a layer with attention: the first feature's
/// relation (else its top token) and gate, unless it has no relation and
/// only relations are asked for; none without features.
pub open spec fn attention_feature(layer_obj: JsonValue, gates: Seq<Seq<char>>, relations_only: bool) -> Option<Seq<char>> {
    let feats = array_member(layer_obj, "features"@);
    if feats.len() == 0 {
        None
    } else {
        let relation = text_or(feats[0], "relation"@, Seq::empty());
        if relations_only && relation.len() == 0 {
            None
        } else {
            let name = if relation.len() > 0 {
                relation
            } else {
                text_or(feats[0], "top_token"@, "?"@)
            };
            Some(pad_right(name, 14) + " "@ + gates[0])
        }
    }
}

/// The attention column: the first attended token and its weight, when
/// both are there.
pub open spec fn attention_part(layer_obj: JsonValue, weight: Seq<char>) -> Seq<char> {
    let arr = array_member(layer_obj, "attention"@);
    if arr.len() > 0 && is_text(json_get(arr[0], "token"@)) && is_number(json_get(arr[0], "weight"@)) {
        text_or(arr[0], "token"@, Seq::empty()) + "("@ + weight + "%)"@
    } else {
        Seq::empty()
    }
}

/// The lens column: the token the layer's lens reads and its probability,
/// when both are there.
pub open spec fn lens_part(layer_obj: JsonValue, prob: Seq<char>) -> Seq<char> {
    match json_get(layer_obj, "lens"@) {
        Some(l) => if is_text(json_get(l, "token"@)) && is_number(json_get(l, "probability"@)) {
            text_or(l, "token"@, Seq::empty()) + " ("@ + prob + "%)"@
        } else {
            Seq::empty()
        },
        None => Seq::empty(),
    }
}

/// The lines of a layer of the trace.
pub open spec fn layer_lines(
    layer_obj: JsonValue,
    gates: Seq<Seq<char>>,
    weight: Seq<char>,
    prob: Seq<char>,
    relations_only: bool,
    with_attention: bool,
) -> Seq<Seq<char>> {
    let layer = get_count(layer_obj, "layer"@);
    if with_attention {
        let f = attention_feature(layer_obj, gates, relations_only);
        let lens = lens_part(layer_obj, prob);
        if f is Some || lens.len() > 0 {
            let fp = match f {
                Some(x) => x,
                None => spaces(19),
            };
            seq![
                "  L"@ + pad_left(decimal(layer as nat), 2) + "  "@ + pad_right(fp, 19) + "  "@ + pad_right(
                    attention_part(layer_obj, weight),
                    16,
                ) + " → "@ + lens,
            ]
        } else {
            Seq::empty()
        }
    } else {
        let feats = array_member(layer_obj, "features"@);
        feature_lines(layer, feats, gates, relations_only, feats.len() as int)
    }
}

/// The lines of the first `n` layers of the trace.
pub open spec fn trace_lines(
    layers: Seq<JsonValue>,
    nums: TraceNumbers,
    relations_only: bool,
    with_attention: bool,
    n: int,
) -> Seq<Seq<char>>
    decreases n,
{
    if n <= 0 {
        Seq::empty()
    } else {
        trace_lines(layers, nums, relations_only, with_attention, n - 1) + layer_lines(
            layers[n - 1],
            string_views(nums.gates@[n - 1]@),
            nums.attention@[n - 1]@,
            nums.lens@[n - 1]@,
            relations_only,
            with_attention,
        )
    }
}

/// What the client prints of a trace of `prompt`: the heading, the first
/// prediction, a blank line, the layers, and the latency.
pub open spec fn explain_lines(
    result: JsonValue,
    prompt: Seq<char>,
    band: Option<LayerBand>,
    relations_only: bool,
    with_attention: bool,
    nums: TraceNumbers,
) -> Seq<Seq<char>> {
    let preds = array_member(result, "predictions"@);
    let layers = array_member(result, "trace"@);
    seq!["Inference trace for "@ + str_debug(prompt) + band_label(band) + ":"@] + (if preds.len() > 0 {
        seq!["Prediction: "@ + text_or(preds[0], "token"@, "?"@) + " ("@ + nums.prediction@ + "%)"@]
    } else {
        Seq::empty()
    }) + seq![Seq::<char>::empty()] + trace_lines(layers, nums, relations_only, with_attention, layers.len() as int)
        + (if is_number(json_get(result, "latency_ms"@)) {
        seq!["\n"@ + nums.latency@ + "ms (remote)"@]
    } else {
        Seq::empty()
    })
}

/// The numbers are laid out as the trace is.
pub open spec fn numbers_fit(result: JsonValue, nums: TraceNumbers) -> bool {
    let layers = array_member(result, "trace"@);
    &&& nums.gates@.len() == layers.len()
    &&& nums.attention@.len() == layers.len()
    &&& nums.lens@.len() == layers.len()
    &&& forall|i: int|
        0 <= i < layers.len() ==> (#[trigger] nums.gates@[i])@.len() == array_member(layers[i], "features"@).len()
}

fn decimal_string(n: u64) -> (r: String)
    ensures
        r@ == decimal(n as nat),
{
    string_from_chars(u64_decimal(n).as_slice())
}

fn push_line(out: &mut Vec<String>, line: String)
    ensures
        string_views(final(out)@) == string_views(old(out)@).push(line@),
{
    let ghost prev = out@;
    let ghost l = line@;
    out.push(line);
    assert(string_views(out@) =~= string_views(prev).push(l));
}

fn text_member(v: &JsonValue, key: &str) -> (r: bool)
    ensures
        r == is_text(json_get(*v, key@)),
{
    match member(v, key) {
        Some(JsonValue::String(_)) => true,
        _ => false,
    }
}

fn number_member(v: &JsonValue, key: &str) -> (r: bool)
    ensures
        r == is_number(json_get(*v, key@)),
{
    match member(v, key) {
        Some(JsonValue::Number(_)) => true,
        _ => false,
    }
}

fn feature_line_exec(layer: u64, feat: &JsonValue, gate: &str) -> (r: String)
    ensures
        r@ == feature_line(layer, *feat, gate@),
{
    proof {
        reveal_strlit("");
        assert(""@ =~= Seq::<char>::empty());
    }
    let mut out = owned("  L");
    let l = decimal_string(layer);
    append_pad_left(&mut out, l.as_str(), 2);
    out.append(": ");
    let relation = text_or_exec(feat, "relation", "");
    append_pad_right(&mut out, relation.as_str(), 14);
    out.append(" F");
    let f = decimal_string(crate::experiment::count_field(feat, "feature"));
    append_pad_right(&mut out, f.as_str(), 5);
    out.append(" gate=");
    out.append(gate);
    out.append("  → ");
    let top = text_or_exec(feat, "top_token", "?");
    append_pad_right(&mut out, top.as_str(), 15);
    out.append(" [");
    let tops = string_list(feat, "top_tokens");
    let j = join_strings(&tops, ", ");
    out.append(j.as_str());
    out.append("]");
    out
}

fn attention_line_exec(
    layer_obj: &JsonValue,
    gates: &Vec<String>,
    weight: &str,
    prob: &str,
    relations_only: bool,
) -> (r: Vec<String>)
    requires
        gates@.len() == array_member(*layer_obj, "features"@).len(),
    ensures
        string_views(r@) == layer_lines(*layer_obj, string_views(gates@), weight@, prob@, relations_only, true),
{
    proof {
        reveal_strlit("");
        assert(""@ =~= Seq::<char>::empty());
    }
    let ghost gs = string_views(gates@);
    let feature: Option<String> = match member(layer_obj, "features") {
        Some(JsonValue::Array(feats)) => {
            if feats.len() == 0 {
                None
            } else {
                let relation = text_or_exec(&feats[0], "relation", "");
                if relations_only && relation.as_str().unicode_len() == 0 {
                    None
                } else {
                    let name = if relation.as_str().unicode_len() > 0 {
                        relation
                    } else {
                        text_or_exec(&feats[0], "top_token", "?")
                    };
                    let mut x = String::new();
                    append_pad_right(&mut x, name.as_str(), 14);
                    x.append(" ");
                    x.append(gates[0].as_str());
                    Some(x)
                }
            }
        },
        _ => None,
    };
    assert(match feature {
        Some(x) => attention_feature(*layer_obj, gs, relations_only) == Some(x@),
        None => attention_feature(*layer_obj, gs, relations_only) is None,
    });
    let attn: String = match member(layer_obj, "attention") {
        Some(JsonValue::Array(arr)) => {
            if arr.len() > 0 && text_member(&arr[0], "token") && number_member(&arr[0], "weight") {
                let mut a = text_or_exec(&arr[0], "token", "");
                a.append("(");
                a.append(weight);
                a.append("%)");
                a
            } else {
                String::new()
            }
        },
        _ => String::new(),
    };
    assert(attn@ == attention_part(*layer_obj, weight@));
    let lens: String = match member(layer_obj, "lens") {
        Some(l) => {
            if text_member(l, "token") && number_member(l, "probability") {
                let mut a = text_or_exec(l, "token", "");
                a.append(" (");
                a.append(prob);
                a.append("%)");
                a
            } else {
                String::new()
            }
        },
        None => String::new(),
    };
    assert(lens@ == lens_part(*layer_obj, prob@));
    let mut out: Vec<String> = Vec::new();
    if feature.is_some() || lens.as_str().unicode_len() > 0 {
        let mut line = owned("  L");
        let l = decimal_string(crate::experiment::count_field(layer_obj, "layer"));
        append_pad_left(&mut line, l.as_str(), 2);
        line.append("  ");
        match &feature {
            Some(x) => append_pad_right(&mut line, x.as_str(), 19),
            None => append_pad_right(&mut line, "", 19),
        }
        line.append("  ");
        append_pad_right(&mut line, attn.as_str(), 16);
        line.append(" → ");
        line.append(lens.as_str());
        push_line(&mut out, line);
        proof {
            assert(pad_right(Seq::<char>::empty(), 19) =~= spaces(19));
        }
    }
    proof {
        assert(string_views(out@) =~= layer_lines(*layer_obj, gs, weight@, prob@, relations_only, true));
    }
    out
}

fn feature_lines_exec(layer_obj: &JsonValue, gates: &Vec<String>, relations_only: bool) -> (r: Vec<String>)
    requires
        gates@.len() == array_member(*layer_obj, "features"@).len(),
    ensures
        string_views(r@) == layer_lines(*layer_obj, string_views(gates@), Seq::empty(), Seq::empty(), relations_only, false),
{
    proof {
        reveal_strlit("");
        assert(""@ =~= Seq::<char>::empty());
    }
    let ghost gs = string_views(gates@);
    let ghost feats = array_member(*layer_obj, "features"@);
    let layer = crate::experiment::count_field(layer_obj, "layer");
    let mut out: Vec<String> = Vec::new();
    match member(layer_obj, "features") {
        Some(JsonValue::Array(items)) => {
            let mut i: usize = 0;
            while i < items.len()
                invariant
                    i <= items@.len(),
                    items@ == feats,
                    gates@.len() == feats.len(),
                    gs == string_views(gates@),
                    ""@ == Seq::<char>::empty(),
                    string_views(out@) == feature_lines(layer, feats, gs, relations_only, i as int),
                decreases items.len() - i,
            {
                let relation = text_or_exec(&items[i], "relation", "");
                if !(relations_only && relation.as_str().unicode_len() == 0) {
                    let line = feature_line_exec(layer, &items[i], gates[i].as_str());
                    push_line(&mut out, line);
                }
                i = i + 1;
            }
        },
        _ => {},
    }
    out
}

/// The lines the client prints of a trace of `prompt` from the reply
/// `result` (`explain_lines`), with its floating-point values written out
/// in `nums`.
pub fn explain_infer_lines(
    result: &JsonValue,
    prompt: &str,
    band: Option<LayerBand>,
    relations_only: bool,
    with_attention: bool,
    nums: &TraceNumbers,
) -> (out: Vec<String>)
    requires
        numbers_fit(*result, *nums),
    ensures
        string_views(out@) == explain_lines(*result, prompt@, band, relations_only, with_attention, *nums),
{
    let mut out: Vec<String> = Vec::new();
    let mut head = owned("Inference trace for ");
    let p = debug_str(prompt);
    head.append(p.as_str());
    let label: &str = match band {
        Some(LayerBand::Syntax) => " (syntax)",
        Some(LayerBand::Knowledge) => " (knowledge)",
        Some(LayerBand::Output) => " (output)",
        _ => "",
    };
    proof {
        reveal_strlit("");
        assert(""@ =~= Seq::<char>::empty());
    }
    head.append(label);
    head.append(":");
    push_line(&mut out, head);
    match member(result, "predictions") {
        Some(JsonValue::Array(preds)) => {
            if preds.len() > 0 {
                let mut line = owned("Prediction: ");
                let t = text_or_exec(&preds[0], "token", "?");
                line.append(t.as_str());
                line.append(" (");
                line.append(nums.prediction.as_str());
                line.append("%)");
                push_line(&mut out, line);
            }
        },
        _ => {},
    }
    push_line(&mut out, String::new());
    let ghost head_lines = string_views(out@);
    let ghost layers = array_member(*result, "trace"@);
    match member(result, "trace") {
        Some(JsonValue::Array(items)) => {
            let mut i: usize = 0;
            while i < items.len()
                invariant
                    i <= items@.len(),
                    items@ == layers,
                    numbers_fit(*result, *nums),
                    layers == array_member(*result, "trace"@),
                    string_views(out@) == head_lines + trace_lines(layers, *nums, relations_only, with_attention, i as int),
                decreases items.len() - i,
            {
                assert(nums.gates@[i as int]@.len() == array_member(layers[i as int], "features"@).len());
                let more = if with_attention {
                    attention_line_exec(&items[i], &nums.gates[i], nums.attention[i].as_str(), nums.lens[i].as_str(), relations_only)
                } else {
                    feature_lines_exec(&items[i], &nums.gates[i], relations_only)
                };
                let ghost prev = string_views(out@);
                let ghost mv = string_views(more@);
                let mut i2: usize = 0;
                while i2 < more.len()
                    invariant
                        i2 <= more@.len(),
                        mv == string_views(more@),
                        string_views(out@) == prev + mv.take(i2 as int),
                    decreases more.len() - i2,
                {
                    push_line(&mut out, more[i2].clone());
                    assert(mv.take(i2 + 1) =~= mv.take(i2 as int).push(mv[i2 as int]));
                    i2 = i2 + 1;
                }
                proof {
                    assert(mv.take(more.len() as int) =~= mv);
                    assert(string_views(out@) =~= head_lines + trace_lines(layers, *nums, relations_only, with_attention, i + 1));
                }
                i = i + 1;
            }
        },
        _ => {},
    }
    if number_member(result, "latency_ms") {
        let mut line = owned("\n");
        line.append(nums.latency.as_str());
        line.append("ms (remote)");
        push_line(&mut out, line);
    }
    proof {
        assert(string_views(out@) =~= explain_lines(*result, prompt@, band, relations_only, with_attention, *nums));
    }
    out
}

} // verus!

//! A `WALK` on a remote server: the query the client sends, and the lines
//! it prints of the features the server's scan hit, a few per layer.

use vstd::prelude::*;
use crate::experiment::{array_member, get_count, member, string_items, string_list};
use crate::lql::{join, string_views, Range, WalkMode};
use crate::remote::{json_get, JsonValue};
use crate::remote_text::{text_or, text_or_exec};
use crate::text::{debug_str, decimal, owned, str_debug, string_from_chars, u64_decimal};
use crate::token_summary::{
    append_pad_left, append_pad_right, join_strings, pad_left, pad_right, pair_views, push_pair,
};

verus! {

/// The walk mode on the wire.
pub open spec fn walk_mode_wire(m: WalkMode) -> Seq<char> {
    match m {
        WalkMode::Hybrid => "hybrid"@,
        WalkMode::Pure => "pure"@,
        WalkMode::Dense => "dense"@,
    }
}

/// The query of a remote `WALK`: the prompt, how many features (ten when
/// unsaid), whether to compare, then the layer range `start-end` and the
/// mode when given.
pub open spec fn walk_query(
    prompt: Seq<char>,
    top: Option<u32>,
    layers: Option<Range>,
    mode: Option<WalkMode>,
    compare: bool,
) -> Seq<(Seq<char>, Seq<char>)> {
    seq![
        ("prompt"@, prompt),
        (
            "top"@,
            decimal(
                match top {
                    Some(t) => t as nat,
                    None => 10,
                },
            ),
        ),
        (
            "compare"@,
            if compare {
                "true"@
            } else {
                "false"@
            },
        ),
    ] + match layers {
        Some(r) => seq![("layers"@, decimal(r.start as nat) + "-"@ + decimal(r.end as nat))],
        None => Seq::empty(),
    } + match mode {
        Some(m) => seq![("mode"@, walk_mode_wire(m))],
        None => Seq::empty(),
    }
}

fn decimal_string(n: u64) -> (r: String)
    ensures
        r@ == decimal(n as nat),
{
    string_from_chars(u64_decimal(n).as_slice())
}

/// The query a remote `WALK` sends (`walk_query`).
pub fn walk_query_params(
    prompt: &str,
    top: Option<u32>,
    layers: Option<&Range>,
    mode: Option<WalkMode>,
    compare: bool,
) -> (q: Vec<(String, String)>)
    ensures
        pair_views(q@) == walk_query(
            prompt@,
            top,
            match layers {
                Some(r) => Some(*r),
                None => None,
            },
            mode,
            compare,
        ),
{
    let mut q: Vec<(String, String)> = Vec::new();
    push_pair(&mut q, "prompt", owned(prompt));
    let t: u32 = match top {
        Some(t) => t,
        None => 10,
    };
    push_pair(&mut q, "top", decimal_string(t as u64));
    push_pair(
        &mut q,
        "compare",
        owned(
            if compare {
                "true"
            } else {
                "false"
            },
        ),
    );
    let ghost head = pair_views(q@);
    match layers {
        Some(r) => {
            let mut s = decimal_string(r.start as u64);
            s.append("-");
            let e = decimal_string(r.end as u64);
            s.append(e.as_str());
            push_pair(&mut q, "layers", s);
        },
        None => {},
    }
    let ghost mid = pair_views(q@);
    assert(mid == head + match layers {
        Some(r) => seq![("layers"@, decimal(r.start as nat) + "-"@ + decimal(r.end as nat))],
        None => Seq::<(Seq<char>, Seq<char>)>::empty(),
    });
    match mode {
        Some(m) => {
            let w: &str = match m {
                WalkMode::Hybrid => "hybrid",
                WalkMode::Pure => "pure",
                WalkMode::Dense => "dense",
            };
            push_pair(&mut q, "mode", owned(w));
        },
        None => {},
    }
    q
}

// ───────────────────────── the reply ─────────────────────────

/// How the reply's mode reads: `pure` and `dense` by name, anything else
/// (or none) as the default hybrid walk.
pub open spec fn walk_mode_name(body: JsonValue) -> Seq<char> {
    match json_get(body, "mode"@) {
        Some(JsonValue::String(m)) => if m@ == "pure"@ {
            "pure (sparse KNN only)"@
        } else if m@ == "dense"@ {
            "dense (full matmul)"@
        } else {
            "hybrid (default)"@
        },
        _ => "hybrid (default)"@,
    }
}

/// The heading of the scan: the prompt and the token it ended on, each as
/// `{:?}` writes it, the number of layers, and the mode.
pub open spec fn walk_heading(prompt: Seq<char>, body: JsonValue) -> Seq<char> {
    "Feature scan for "@ + str_debug(prompt) + " (token "@ + str_debug(text_or(body, "token"@, "?"@))
        + ", "@ + decimal(get_count(body, "layers_count"@) as nat) + " layers, mode="@
        + walk_mode_name(body) + ")"@
}

/// After the first `n` hits: the layer the last of them was on, and how
/// many hits of that layer are shown, counting up to `max`.
pub open spec fn walk_state(hits: Seq<JsonValue>, max: nat) -> (Option<u64>, nat)
    decreases hits.len(),
{
    if hits.len() == 0 {
        (None, 0)
    } else {
        let (cur, n) = walk_state(hits.drop_last(), max);
        let layer = get_count(hits.last(), "layer"@);
        let count = if cur == Some(layer) {
            n
        } else {
            0
        };
        (Some(layer), if count < max {
            count + 1
        } else {
            count
        })
    }
}

/// The hit at `i` is shown: fewer than `max` hits of its layer, in the run
/// of hits on that layer it belongs to, come before it.
pub open spec fn walk_hit_shown(hits: Seq<JsonValue>, i: int, max: nat) -> bool {
    let (cur, n) = walk_state(hits.take(i), max);
    let layer = get_count(hits[i], "layer"@);
    let count = if cur == Some(layer) {
        n
    } else {
        0
    };
    count < max
}

/// The line of a hit, with its gate score written with a sign and one
/// decimal: layer, feature, gate, the top token as `{:?}` writes it, and
/// the tokens the feature writes down.
pub open spec fn walk_hit_line(hit: JsonValue, gate: Seq<char>) -> Seq<char> {
    "  L"@ + pad_left(decimal(get_count(hit, "layer"@) as nat), 2) + ": F"@ + pad_right(
        decimal(get_count(hit, "feature"@) as nat),
        5,
    ) + " gate="@ + gate + "  top="@ + pad_right(str_debug(text_or(hit, "target"@, "?"@)), 15)
        + "  down=["@ + join(string_items(array_member(hit, "down"@)), ", "@) + "]"@
}

/// The lines of the shown hits among the first `n`.
pub open spec fn walk_hit_lines(hits: Seq<JsonValue>, gates: Seq<Seq<char>>, max: nat, n: int) -> Seq<
    Seq<char>,
>
    decreases n,
{
    if n <= 0 {
        Seq::empty()
    } else if walk_hit_shown(hits, n - 1, max) {
        walk_hit_lines(hits, gates, max, n - 1).push(walk_hit_line(hits[n - 1], gates[n - 1]))
    } else {
        walk_hit_lines(hits, gates, max, n - 1)
    }
}

/// What a remote `WALK` of `prompt` prints: the heading, a blank line,
/// up to three hits per layer (five when comparing), the latency when the
/// reply gives one, and a closing note.
pub open spec fn walk_lines(
    prompt: Seq<char>,
    compare: bool,
    body: JsonValue,
    gates: Seq<Seq<char>>,
    latency: Seq<char>,
) -> Seq<Seq<char>> {
    let hits = array_member(body, "hits"@);
    let max: nat = if compare {
        5
    } else {
        3
    };
    seq![walk_heading(prompt, body), Seq::empty()] + walk_hit_lines(hits, gates, max, hits.len() as int)
        + match json_get(body, "latency_ms"@) {
        Some(JsonValue::Number(_)) => seq!["\n"@ + latency + "ms (remote)"@],
        _ => Seq::empty(),
    } + seq![
        Seq::empty(),
        if compare {
            "Note: COMPARE shows more features per layer. For inference use INFER."@
        } else {
            "Note: pure vindex scan (no attention). For inference use INFER."@
        },
    ]
}

fn walk_mode_name_exec(body: &JsonValue) -> (r: &'static str)
    ensures
        r@ == walk_mode_name(*body),
{
    match member(body, "mode") {
        Some(JsonValue::String(m)) => if crate::lql::str_eq(m.as_str(), "pure") {
            "pure (sparse KNN only)"
        } else if crate::lql::str_eq(m.as_str(), "dense") {
            "dense (full matmul)"
        } else {
            "hybrid (default)"
        },
        _ => "hybrid (default)",
    }
}

fn walk_heading_exec(prompt: &str, body: &JsonValue) -> (r: String)
    ensures
        r@ == walk_heading(prompt@, *body),
{
    let mut out = owned("Feature scan for ");
    let p = debug_str(prompt);
    out.append(p.as_str());
    out.append(" (token ");
    let token = text_or_exec(body, "token", "?");
    let t = debug_str(token.as_str());
    out.append(t.as_str());
    out.append(", ");
    let count = decimal_string(crate::experiment::count_field(body, "layers_count"));
    out.append(count.as_str());
    out.append(" layers, mode=");
    out.append(walk_mode_name_exec(body));
    out.append(")");
    out
}

fn walk_hit_line_exec(hit: &JsonValue, gate: &str) -> (r: String)
    ensures
        r@ == walk_hit_line(*hit, gate@),
{
    let mut out = owned("  L");
    let layer = decimal_string(crate::experiment::count_field(hit, "layer"));
    append_pad_left(&mut out, layer.as_str(), 2);
    out.append(": F");
    let feature = decimal_string(crate::experiment::count_field(hit, "feature"));
    append_pad_right(&mut out, feature.as_str(), 5);
    out.append(" gate=");
    out.append(gate);
    out.append("  top=");
    let target = text_or_exec(hit, "target", "?");
    let t = debug_str(target.as_str());
    append_pad_right(&mut out, t.as_str(), 15);
    out.append("  down=[");
    let down = string_list(hit, "down");
    let joined = join_strings(&down, ", ");
    out.append(joined.as_str());
    out.append("]");
    out
}

/// The lines a remote `WALK` of `prompt` prints from the server's reply
/// `body` (`walk_lines`). The floating-point values come written out:
/// `gate_texts` holds each hit's gate score with a sign and one decimal,
/// in the order of the hits, and `latency_text` the latency with one
/// decimal.
pub fn remote_walk_lines(
    prompt: &str,
    compare: bool,
    body: &JsonValue,
    gate_texts: &Vec<String>,
    latency_text: &str,
) -> (out: Vec<String>)
    requires
        gate_texts@.len() == array_member(*body, "hits"@).len(),
    ensures
        string_views(out@) == walk_lines(prompt@, compare, *body, string_views(gate_texts@), latency_text@),
{
    let ghost gates = string_views(gate_texts@);
    let ghost hits = array_member(*body, "hits"@);
    let max: usize = if compare {
        5
    } else {
        3
    };
    let mut out: Vec<String> = Vec::new();
    out.push(walk_heading_exec(prompt, body));
    out.push(String::new());
    let ghost head = string_views(out@);
    proof {
        assert(head =~= seq![walk_heading(prompt@, *body), Seq::<char>::empty()]);
    }
    match member(body, "hits") {
        Some(JsonValue::Array(items)) => {
            let mut cur: Option<u64> = None;
            let mut n: usize = 0;
            let mut i: usize = 0;
            while i < items.len()
                invariant
                    i <= items@.len(),
                    hits == items@,
                    gates.len() == hits.len(),
                    gates == string_views(gate_texts@),
                    max <= 5,
                    (cur, n as nat) == walk_state(hits.take(i as int), max as nat),
                    string_views(out@) == head + walk_hit_lines(hits, gates, max as nat, i as int),
                decreases items.len() - i,
            {
                proof {
                    assert(hits.take(i + 1).drop_last() =~= hits.take(i as int));
                    assert(hits.take(i + 1).last() == hits[i as int]);
                }
                let layer = crate::experiment::count_field(&items[i], "layer");
                let same = match cur {
                    Some(c) => c == layer,
                    None => false,
                };
                let count: usize = if same {
                    n
                } else {
                    0
                };
                if count < max {
                    let line = walk_hit_line_exec(&items[i], gate_texts[i].as_str());
                    let ghost prev = out@;
                    out.push(line);
                    proof {
                        assert(string_views(out@) =~= string_views(prev).push(
                            walk_hit_line(hits[i as int], gates[i as int]),
                        ));
                    }
                    n = count + 1;
                } else {
                    n = count;
                }
                cur = Some(layer);
                i = i + 1;
            }
            proof {
                assert(hits.take(items.len() as int) =~= hits);
            }
        },
        _ => {},
    }
    let ghost s1 = string_views(out@);
    match member(body, "latency_ms") {
        Some(JsonValue::Number(_)) => {
            let mut line = owned("\n");
            line.append(latency_text);
            line.append("ms (remote)");
            out.push(line);
        },
        _ => {},
    }
    out.push(String::new());
    if compare {
        out.push(owned("Note: COMPARE shows more features per layer. For inference use INFER."));
    } else {
        out.push(owned("Note: pure vindex scan (no attention). For inference use INFER."));
    }
    proof {
        let hl = walk_hit_lines(hits, gates, max as nat, hits.len() as int);
        assert(s1 == head + hl);
        assert(string_views(out@) =~= walk_lines(prompt@, compare, *body, gates, latency_text@));
    }
    out
}

} // verus!

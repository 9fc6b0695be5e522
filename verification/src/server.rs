//! Request models and decisions of the larql HTTP server's introspection
//! and tool routes: defaults, which layers a request scans, which tokens
//! count as entities, and how a tool call's arguments are read.

use vstd::prelude::*;
use crate::remote::{json_as_u64, member_value, JsonNumber, JsonValue};
use crate::lql::{str_eq, string_views};
use crate::text::{
    chars_of, decimal, owned, push_chars, string_from_chars, trim, trim_str, u64_decimal,
};

verus! {

/// Query of `GET /v1/entities`.
#[derive(Debug, Clone, Copy)]
pub struct EntitiesRequest {
    pub layer: Option<u32>,
    pub limit: Option<u32>,
}

/// Query of `GET /v1/layers`.
#[derive(Debug, Clone, Copy)]
pub struct LayersRequest {
    pub start: Option<u32>,
    pub end: Option<u32>,
}

/// The `nearest` clause of `POST /v1/select`.
#[derive(Debug, Clone)]
pub struct NearestRequest {
    pub entity: String,
    pub layer: u32,
}

/// Query of `GET /v1/tokens`.
#[derive(Debug, Clone)]
pub struct TokensParams {
    pub layer: Option<u32>,
    pub group_by: Option<String>,
    pub token_filter: Option<String>,
    pub shape_filter: Option<String>,
    pub type_filter: Option<String>,
    pub band_filter: Option<String>,
}

/// Body of `POST /tools/call`.
#[derive(Debug)]
pub struct ToolCallRequest {
    pub name: String,
    pub arguments: JsonValue,
}

/// Answer of `POST /tools/call`.
#[derive(Debug)]
pub struct ToolCallResponse {
    pub result: JsonValue,
}

/// What the `get_model_info` tool reports of a model.
#[derive(Debug, Clone)]
pub struct ModelConfig {
    pub model_id: String,
    pub num_layers: usize,
    pub hidden_dim: usize,
    pub num_attention_heads: usize,
    pub num_kv_heads: usize,
    pub head_dim: usize,
    pub vocab_size: usize,
    pub max_position_embeddings: usize,
    pub architecture: String,
    pub family: String,
}

/// The band `DESCRIBE` scans by default.
pub fn default_band() -> (r: String)
    ensures
        r@ == "knowledge"@,
{
    owned("knowledge")
}

/// The default number of rows of `DESCRIBE` and `SELECT`.
pub fn default_limit() -> (r: usize)
    ensures
        r == 20,
{
    20
}

/// The default sort order of `SELECT`.
pub fn default_order() -> (r: String)
    ensures
        r@ == "desc"@,
{
    owned("desc")
}

/// The default number of entities listed.
pub fn entities_limit(req: &EntitiesRequest) -> (r: usize)
    ensures
        r == match req.limit {
            Some(l) => l as usize,
            None => 50usize,
        },
{
    match req.limit {
        Some(l) => l as usize,
        None => 50,
    }
}

/// `0, 1, ..., n - 1`.
pub open spec fn upto(n: nat) -> Seq<usize> {
    Seq::new(n, |i: int| i as usize)
}

/// The layers a request restricted to `layer` (or else all `num_layers`
/// layers) scans.
pub fn scan_layers(layer: Option<u32>, num_layers: usize) -> (r: Vec<usize>)
    ensures
        r@ == match layer {
            Some(l) => seq![l as usize],
            None => upto(num_layers as nat),
        },
{
    let mut r: Vec<usize> = Vec::new();
    match layer {
        Some(l) => {
            r.push(l as usize);
        },
        None => {
            let mut i: usize = 0;
            while i < num_layers
                invariant
                    i <= num_layers,
                    r@ == upto(i as nat),
                decreases num_layers - i,
            {
                r.push(i);
                assert(r@ =~= upto((i + 1) as nat));
                i = i + 1;
            }
        },
    }
    r
}

/// `c` is an ASCII letter.
pub open spec fn ascii_alpha(c: char) -> bool {
    ('a' <= c && c <= 'z') || ('A' <= c && c <= 'Z')
}

/// A trimmed feature token counts as an entity name: at least three
/// characters, all ASCII letters, the first upper-case.
pub open spec fn is_entity_name(t: Seq<char>) -> bool {
    &&& t.len() >= 3
    &&& 'A' <= t[0] && t[0] <= 'Z'
    &&& forall|i: int| 0 <= i < t.len() ==> ascii_alpha(#[trigger] t[i])
}

/// The entity a feature's top token names, if it names one: the token
/// trimmed, when that is at least three bytes long, starts with an ASCII
/// upper-case letter and holds only ASCII letters (all ASCII, so bytes and
/// characters count the same).
pub fn entity_token(top_token: &str) -> (r: Option<String>)
    ensures
        is_entity_name(trim(top_token@)) ==> (r matches Some(t) && t@ == trim(top_token@)),
        !is_entity_name(trim(top_token@)) ==> r is None,
{
    let t = trim_str(top_token);
    let cs = chars_of(t.as_str());
    if cs.len() < 3 {
        return None;
    }
    if !('A' <= cs[0] && cs[0] <= 'Z') {
        return None;
    }
    let mut i: usize = 0;
    while i < cs.len()
        invariant
            i <= cs.len(),
            cs@ == trim(top_token@),
            forall|j: int| 0 <= j < i ==> ascii_alpha(#[trigger] cs@[j]),
        decreases cs.len() - i,
    {
        let c = cs[i];
        if !(('a' <= c && c <= 'z') || ('A' <= c && c <= 'Z')) {
            return None;
        }
        i = i + 1;
    }
    Some(t)
}

/// The layers `GET /v1/layers` shows: with both bounds, the loaded layers
/// from `start` to `end` inclusive, ascending; else all loaded layers.
pub open spec fn shown_layers(start: Option<u32>, end: Option<u32>, all: Seq<usize>) -> Seq<usize> {
    match (start, end) {
        (Some(s), Some(e)) => if s <= e {
            Seq::new((e - s + 1) as nat, |i: int| (s + i) as usize).filter(
                |l: usize| all.contains(l),
            )
        } else {
            Seq::empty()
        },
        _ => all,
    }
}

/// Whether `all` holds `l`.
fn contains_layer(all: &[usize], l: usize) -> (r: bool)
    ensures
        r == all@.contains(l),
{
    let mut i: usize = 0;
    while i < all.len()
        invariant
            i <= all.len(),
            forall|j: int| 0 <= j < i ==> all@[j] != l,
        decreases all.len() - i,
    {
        if all[i] == l {
            return true;
        }
        i = i + 1;
    }
    false
}

/// The layers a layers request shows (`shown_layers`).
pub fn layers_to_show(req: &LayersRequest, all_layers: &Vec<usize>) -> (r: Vec<usize>)
    ensures
        r@ == shown_layers(req.start, req.end, all_layers@),
{
    match (req.start, req.end) {
        (Some(s), Some(e)) => {
            if s > e {
                return Vec::new();
            }
            let ghost range = Seq::new((e - s + 1) as nat, |i: int| (s + i) as usize);
            let mut r: Vec<usize> = Vec::new();
            let mut l: u64 = s as u64;
            while l <= e as u64
                invariant
                    s <= l <= e as u64 + 1,
                    s <= e,
                    range == Seq::new((e - s + 1) as nat, |i: int| (s + i) as usize),
                    r@ == range.take((l - s) as int).filter(|x: usize| all_layers@.contains(x)),
                decreases e as u64 + 1 - l,
            {
                let ghost k = (l - s) as int;
                assert(range.take(k + 1) == range.take(k).push(l as usize));
                proof {
            range.take(k).lemma_filter_push(l as usize, |x: usize| all_layers@.contains(x));
        }
                if contains_layer(all_layers.as_slice(), l as usize) {
                    r.push(l as usize);
                }
                l = l + 1;
            }
            assert(range.take((l - s) as int) == range);
            r
        },
        _ => {
            let mut r: Vec<usize> = Vec::new();
            let mut i: usize = 0;
            while i < all_layers.len()
                invariant
                    i <= all_layers@.len(),
                    r@ == all_layers@.take(i as int),
                decreases all_layers.len() - i,
            {
                r.push(all_layers[i]);
                assert(all_layers@.take(i + 1) == all_layers@.take(i as int).push(
                    all_layers@[i as int],
                ));
                i = i + 1;
            }
            assert(all_layers@.take(all_layers.len() as int) == all_layers@);
            r
        },
    }
}

/// How many of a layer's features carry metadata.
pub fn meta_count<T>(metas: &Vec<Option<T>>) -> (r: usize)
    ensures
        r == metas@.filter(|m: Option<T>| m is Some).len(),
{
    let mut n: usize = 0;
    let mut i: usize = 0;
    while i < metas.len()
        invariant
            i <= metas@.len(),
            n == metas@.take(i as int).filter(|m: Option<T>| m is Some).len(),
            n <= i,
        decreases metas.len() - i,
    {
        assert(metas@.take(i + 1) == metas@.take(i as int).push(metas@[i as int]));
        proof {
            metas@.take(i as int).lemma_filter_push(metas@[i as int], |m: Option<T>| m is Some);
        }
        if metas[i].is_some() {
            n = n + 1;
        }
        i = i + 1;
    }
    assert(metas@.take(metas.len() as int) == metas@);
    n
}

/// How often `t` occurs in `s`.
pub open spec fn occurrences(s: Seq<Seq<char>>, t: Seq<char>) -> nat {
    s.filter(|x: Seq<char>| x == t).len()
}

/// The number of occurrences of `t` in `v`.
fn count_of(v: &Vec<String>, t: &str) -> (r: usize)
    ensures
        r == occurrences(crate::lql::string_views(v@), t@),
{
    let ghost sv = crate::lql::string_views(v@);
    let mut n: usize = 0;
    let mut i: usize = 0;
    while i < v.len()
        invariant
            i <= v@.len(),
            sv == crate::lql::string_views(v@),
            n == occurrences(sv.take(i as int), t@),
            n <= i,
        decreases v.len() - i,
    {
        assert(sv.take(i + 1) == sv.take(i as int).push(sv[i as int]));
        proof {
            sv.take(i as int).lemma_filter_push(sv[i as int], |x: Seq<char>| x == t@);
        }
        if str_eq(v[i].as_str(), t) {
            n = n + 1;
        }
        i = i + 1;
    }
    assert(sv.take(v.len() as int) == sv);
    n
}

/// A most frequent top token of a layer's features, or `""` for a layer
/// without any. Which of several equally frequent tokens is named is left
/// open, as the server's hash-map walk leaves it.
pub fn top_token_by_frequency(tokens: &Vec<String>) -> (r: String)
    ensures
        tokens@.len() == 0 ==> r@.len() == 0,
        tokens@.len() > 0 ==> crate::lql::string_views(tokens@).contains(r@),
        forall|i: int|
            0 <= i < tokens@.len() ==> occurrences(crate::lql::string_views(tokens@), r@)
                >= occurrences(crate::lql::string_views(tokens@), #[trigger] tokens@[i]@),
{
    let ghost sv = crate::lql::string_views(tokens@);
    if tokens.len() == 0 {
        return String::new();
    }
    let mut best: usize = 0;
    let mut best_count = count_of(tokens, tokens[0].as_str());
    let mut i: usize = 1;
    while i < tokens.len()
        invariant
            1 <= i <= tokens@.len(),
            best < tokens@.len(),
            sv == crate::lql::string_views(tokens@),
            best_count == occurrences(sv, tokens@[best as int]@),
            forall|j: int| 0 <= j < i ==> best_count >= occurrences(sv, #[trigger] tokens@[j]@),
        decreases tokens.len() - i,
    {
        let c = count_of(tokens, tokens[i].as_str());
        if c > best_count {
            best = i;
            best_count = c;
        }
        i = i + 1;
    }
    assert(sv[best as int] == tokens@[best as int]@);
    tokens[best].clone()
}

/// The layer range of each band.
#[derive(Debug, Clone, Copy)]
pub struct LayerBandRanges {
    pub syntax: (usize, usize),
    pub knowledge: (usize, usize),
    pub output: (usize, usize),
}

/// Bands for a model without its own: every band spans all layers.
pub fn whole_model_bands(num_layers: usize) -> (r: LayerBandRanges)
    ensures
        ({
            let last = if num_layers == 0 {
                0
            } else {
                num_layers - 1
            };
            &&& r.syntax == (0usize, last as usize)
            &&& r.knowledge == (0usize, last as usize)
            &&& r.output == (0usize, last as usize)
        }),
{
    let last = num_layers.saturating_sub(1);
    LayerBandRanges { syntax: (0, last), knowledge: (0, last), output: (0, last) }
}

/// The loaded layers inside `range`, in order.
pub open spec fn within(all: Seq<usize>, range: (usize, usize)) -> Seq<usize> {
    all.filter(|l: usize| range.0 <= l && l <= range.1)
}

/// The layers `DESCRIBE` scans: the one layer asked for if it is loaded
/// (else none), or the loaded layers of the band asked for (`syntax`,
/// `knowledge`, `output`), or all loaded layers for another band name.
pub open spec fn describe_layers(
    layer: Option<u32>,
    band: Seq<char>,
    bands: LayerBandRanges,
    all: Seq<usize>,
) -> Seq<usize> {
    match layer {
        Some(l) => if all.contains(l as usize) {
            seq![l as usize]
        } else {
            Seq::empty()
        },
        None => if band == "syntax"@ {
            within(all, bands.syntax)
        } else if band == "knowledge"@ {
            within(all, bands.knowledge)
        } else if band == "output"@ {
            within(all, bands.output)
        } else {
            all
        },
    }
}

/// The loaded layers inside `range`, in order.
pub fn layers_within(all: &Vec<usize>, range: (usize, usize)) -> (r: Vec<usize>)
    ensures
        r@ == within(all@, range),
{
    let mut r: Vec<usize> = Vec::new();
    let mut i: usize = 0;
    while i < all.len()
        invariant
            i <= all@.len(),
            r@ == within(all@.take(i as int), range),
        decreases all.len() - i,
    {
        assert(all@.take(i + 1) == all@.take(i as int).push(all@[i as int]));
        proof {
            all@.take(i as int).lemma_filter_push(all@[i as int], |l: usize| range.0 <= l && l <= range.1);
        }
        if range.0 <= all[i] && all[i] <= range.1 {
            r.push(all[i]);
        }
        i = i + 1;
    }
    assert(all@.take(all.len() as int) == all@);
    r
}

/// A copy of the layer list.
fn copy_layers(all: &Vec<usize>) -> (r: Vec<usize>)
    ensures
        r@ == all@,
{
    let mut r: Vec<usize> = Vec::new();
    let mut i: usize = 0;
    while i < all.len()
        invariant
            i <= all@.len(),
            r@ == all@.take(i as int),
        decreases all.len() - i,
    {
        r.push(all[i]);
        assert(all@.take(i + 1) == all@.take(i as int).push(all@[i as int]));
        i = i + 1;
    }
    assert(all@.take(all.len() as int) == all@);
    r
}

/// The layers `DESCRIBE` scans (`describe_layers`).
pub fn describe_scan_layers(
    layer: Option<u32>,
    band: &str,
    bands: LayerBandRanges,
    all_layers: &Vec<usize>,
) -> (r: Vec<usize>)
    ensures
        r@ == describe_layers(layer, band@, bands, all_layers@),
{
    match layer {
        Some(l) => {
            let mut r: Vec<usize> = Vec::new();
            if contains_layer(all_layers.as_slice(), l as usize) {
                r.push(l as usize);
            }
            r
        },
        None => {
            if str_eq(band, "syntax") {
                layers_within(all_layers, bands.syntax)
            } else if str_eq(band, "knowledge") {
                layers_within(all_layers, bands.knowledge)
            } else if str_eq(band, "output") {
                layers_within(all_layers, bands.output)
            } else {
                copy_layers(all_layers)
            }
        },
    }
}

/// The tools `POST /tools/call` knows.
#[derive(Debug, Clone, Copy, PartialEq, Eq, Structural)]
pub enum Tool {
    GetModelInfo,
    ContextMap,
    ContextMapWithQuery,
    LoadModel,
}

/// The tool named `name`, or the message for an unknown one.
pub fn tool_named(name: &str) -> (r: Result<Tool, String>)
    ensures
        name@ == "get_model_info"@ ==> r == Ok::<Tool, String>(Tool::GetModelInfo),
        name@ == "context_map"@ ==> r == Ok::<Tool, String>(Tool::ContextMap),
        name@ == "context_map_with_query"@ ==> r == Ok::<Tool, String>(Tool::ContextMapWithQuery),
        name@ == "load_model"@ ==> r == Ok::<Tool, String>(Tool::LoadModel),
        name@ != "get_model_info"@ && name@ != "context_map"@ && name@ != "context_map_with_query"@
            && name@ != "load_model"@ ==> (r matches Err(m) && m@ == "Unknown tool: "@ + name@),
{
    proof {
        reveal_strlit("get_model_info");
        reveal_strlit("context_map");
        reveal_strlit("context_map_with_query");
        reveal_strlit("load_model");
        assert("get_model_info"@.len() == 14);
        assert("context_map"@.len() == 11);
        assert("context_map_with_query"@.len() == 22);
        assert("load_model"@.len() == 10);
    }
    if str_eq(name, "get_model_info") {
        Ok(Tool::GetModelInfo)
    } else if str_eq(name, "context_map") {
        Ok(Tool::ContextMap)
    } else if str_eq(name, "context_map_with_query") {
        Ok(Tool::ContextMapWithQuery)
    } else if str_eq(name, "load_model") {
        Ok(Tool::LoadModel)
    } else {
        let mut m = owned("Unknown tool: ");
        m.append(name);
        Err(m)
    }
}

/// The model information `get_model_info` reports: the model's own sizes,
/// 32 attention heads and 4 key/value heads assumed, the head size derived
/// from them, a context of 8192 positions, and the family as architecture
/// and the model name as family.
pub fn model_info(
    model_id: &str,
    num_layers: usize,
    hidden_size: usize,
    vocab_size: usize,
    family: &str,
    model: &str,
) -> (r: ModelConfig)
    ensures
        r.model_id@ == model_id@,
        r.num_layers == num_layers,
        r.hidden_dim == hidden_size,
        r.num_attention_heads == 32,
        r.num_kv_heads == 4,
        r.head_dim == hidden_size / 32,
        r.vocab_size == vocab_size,
        r.max_position_embeddings == 8192,
        r.architecture@ == family@,
        r.family@ == model@,
{
    ModelConfig {
        model_id: owned(model_id),
        num_layers,
        hidden_dim: hidden_size,
        num_attention_heads: 32,
        num_kv_heads: 4,
        head_dim: hidden_size / 32,
        vocab_size,
        max_position_embeddings: 8192,
        architecture: owned(family),
        family: owned(model),
    }
}

/// The string member `key`, if there is one.
pub open spec fn member_str(members: Seq<(String, JsonValue)>, key: Seq<char>) -> Option<Seq<char>> {
    match member_value(members, key) {
        Some(JsonValue::String(s)) => Some(s@),
        _ => None,
    }
}

/// The non-negative integer member `key`, if there is one.
pub open spec fn member_u64(members: Seq<(String, JsonValue)>, key: Seq<char>) -> Option<u64> {
    match member_value(members, key) {
        Some(v) => json_as_u64(v),
        None => None,
    }
}

/// The index of the first member named `key`.
fn find_member(members: &Vec<(String, JsonValue)>, key: &str) -> (r: Option<usize>)
    ensures
        match r {
            None => member_value(members@, key@) is None,
            Some(i) => i < members@.len() && member_value(members@, key@) == Some(
                members@[i as int].1,
            ),
        },
{
    let mut i: usize = 0;
    while i < members.len()
        invariant
            i <= members@.len(),
            forall|j: int| 0 <= j < i ==> (#[trigger] members@[j]).0@ != key@,
        decreases members.len() - i,
    {
        if str_eq(members[i].0.as_str(), key) {
            proof {
                crate::remote::lemma_member_value_skip(members@, key@, i as int);
                assert(members@.skip(i as int)[0] == members@[i as int]);
            }
            return Some(i);
        }
        i = i + 1;
    }
    proof {
        crate::remote::lemma_member_value_skip(members@, key@, i as int);
        assert(members@.skip(i as int).len() == 0);
    }
    None
}

/// The arguments of `context_map`: the prompt, the layer, and how many
/// tokens to list (5 unless `top_k` says otherwise), read from the
/// arguments object's members; a missing or mistyped prompt or layer is
/// refused.
pub fn context_map_args(members: &Vec<(String, JsonValue)>) -> (r: Result<
    (String, usize, usize),
    String,
>)
    ensures
        match member_str(members@, "prompt"@) {
            None => (r matches Err(m) && m@ == "Missing prompt argument"@),
            Some(p) => match member_u64(members@, "layer"@) {
                None => (r matches Err(m) && m@ == "Missing layer argument"@),
                Some(l) => (r matches Ok(a) && a.0@ == p && a.1 == l as usize && a.2 == (
                match member_u64(members@, "top_k"@) {
                    Some(k) => k as usize,
                    None => 5usize,
                })),
            },
        },
{
    let prompt = match find_member(members, "prompt") {
        Some(i) => match &members[i].1 {
            JsonValue::String(s) => s.clone(),
            _ => {
                return Err(owned("Missing prompt argument"));
            },
        },
        None => {
            return Err(owned("Missing prompt argument"));
        },
    };
    let layer = match find_member(members, "layer") {
        Some(i) => match &members[i].1 {
            JsonValue::Number(JsonNumber::PosInt(n)) => *n,
            _ => {
                return Err(owned("Missing layer argument"));
            },
        },
        None => {
            return Err(owned("Missing layer argument"));
        },
    };
    let top_k: u64 = match find_member(members, "top_k") {
        Some(i) => match &members[i].1 {
            JsonValue::Number(JsonNumber::PosInt(n)) => *n,
            _ => 5,
        },
        None => 5,
    };
    Ok((prompt, #[verifier::truncate] (layer as usize), #[verifier::truncate] (top_k as usize)))
}

/// Which loaded model `load_model` answers for: the index of the first
/// loaded model whose id is the `model_id` argument, or the message for a
/// missing argument or a model not loaded.
pub fn load_model_target(members: &Vec<(String, JsonValue)>, loaded_ids: &Vec<String>) -> (r: Result<
    usize,
    String,
>)
    ensures
        match member_str(members@, "model_id"@) {
            None => (r matches Err(m) && m@ == "Missing model_id argument"@),
            Some(id) => match r {
                Ok(i) => i < loaded_ids@.len() && loaded_ids@[i as int]@ == id && forall|j: int|
                    0 <= j < i ==> (#[trigger] loaded_ids@[j])@ != id,
                Err(m) => m@ == "Model not loaded: "@ + id && forall|j: int|
                    0 <= j < loaded_ids@.len() ==> (#[trigger] loaded_ids@[j])@ != id,
            },
        },
{
    let id = match find_member(members, "model_id") {
        Some(i) => match &members[i].1 {
            JsonValue::String(s) => s.clone(),
            _ => {
                return Err(owned("Missing model_id argument"));
            },
        },
        None => {
            return Err(owned("Missing model_id argument"));
        },
    };
    let mut k: usize = 0;
    while k < loaded_ids.len()
        invariant
            k <= loaded_ids@.len(),
            member_str(members@, "model_id"@) == Some(id@),
            forall|j: int| 0 <= j < k ==> (#[trigger] loaded_ids@[j])@ != id@,
        decreases loaded_ids.len() - k,
    {
        if str_eq(loaded_ids[k].as_str(), id.as_str()) {
            return Ok(k);
        }
        k = k + 1;
    }
    let mut m = owned("Model not loaded: ");
    m.append(id.as_str());
    Err(m)
}

/// The label of a token summary group of one layer.
pub fn layer_group_label(layer: usize) -> (r: String)
    ensures
        r@ == "at layer "@ + decimal(layer as nat),
{
    let mut r = owned("at layer ");
    let d = u64_decimal(layer as u64);
    push_chars(&mut r, d.as_slice());
    r
}

/// The label of a token summary group of one band.
pub fn band_group_label(name: &str, start: usize, end: usize) -> (r: String)
    ensures
        r@ == "for "@ + name@ + " band (L"@ + decimal(start as nat) + "-"@ + decimal(end as nat)
            + ")"@,
{
    let mut r = owned("for ");
    r.append(name);
    r.append(" band (L");
    let a = u64_decimal(start as u64);
    push_chars(&mut r, a.as_slice());
    r.append("-");
    let b = u64_decimal(end as u64);
    push_chars(&mut r, b.as_slice());
    r.append(")");
    r
}

/// The label of a flat token summary: the one layer asked for, else the
/// number of layers scanned.
pub fn flat_group_label(layer: Option<u32>, scanned: usize) -> (r: String)
    ensures
        r@ == match layer {
            Some(l) => "at layer "@ + decimal(l as nat),
            None => "across "@ + decimal(scanned as nat) + " layers"@,
        },
{
    match layer {
        Some(l) => {
            let mut r = owned("at layer ");
            let d = u64_decimal(l as u64);
            push_chars(&mut r, d.as_slice());
            r
        },
        None => {
            let mut r = owned("across ");
            let d = u64_decimal(scanned as u64);
            push_chars(&mut r, d.as_slice());
            r.append(" layers");
            r
        },
    }
}

// ───────────────────────── entities ─────────────────────────

/// One entity of an entity listing: its name, how many scanned features
/// have it as top token, and the highest of their scores (`f32` bits; from
/// `0.0`, a NaN score passed over).
#[derive(Debug, Clone)]
pub struct EntityCount {
    pub entity: String,
    pub count: usize,
    pub score: u32,
}

/// What an entity row says.
pub type EntityView = (Seq<char>, nat, u32);

/// The views of a list of entity rows.
pub open spec fn entity_views(v: Seq<EntityCount>) -> Seq<EntityView> {
    v.map_values(|e: EntityCount| (e.entity@, e.count as nat, e.score))
}

/// The bytes of a character in UTF-8.
pub open spec fn utf8_width(c: char) -> nat {
    if (c as u32) < 0x80 {
        1
    } else if (c as u32) < 0x800 {
        2
    } else if (c as u32) < 0x1_0000 {
        3
    } else {
        4
    }
}

/// The bytes of a string in UTF-8 (`str::len`).
pub open spec fn utf8_len(s: Seq<char>) -> nat
    decreases s.len(),
{
    if s.len() == 0 {
        0
    } else {
        utf8_len(s.drop_last()) + utf8_width(s.last())
    }
}

/// Whether a character is alphabetic, as `char::is_alphabetic` says.
pub uninterp spec fn alphabetic(c: char) -> bool;

/// `char::is_alphabetic`: whether the character has Unicode's
/// `Alphabetic` property. The contract names the answer; the property's
/// table is left to `std`.
#[verifier::external_body]
fn is_alphabetic(c: char) -> (r: bool)
    ensures
        r == alphabetic(c),
{
    c.is_alphabetic()
}

/// A trimmed token counts as an entity in a local `SHOW ENTITIES`: at
/// least three bytes, an ASCII upper-case first letter, all alphabetic.
pub open spec fn is_local_entity_name(t: Seq<char>) -> bool {
    &&& utf8_len(t) >= 3
    &&& 'A' <= t[0] && t[0] <= 'Z'
    &&& forall|i: int| 0 <= i < t.len() ==> alphabetic(#[trigger] t[i])
}

/// Whether a trimmed token counts as an entity: by the local rule, or by
/// the server's (`is_entity_name`).
pub open spec fn entity_name_ok(t: Seq<char>, local: bool) -> bool {
    if local {
        is_local_entity_name(t)
    } else {
        is_entity_name(t)
    }
}

proof fn lemma_utf8_len_prefix(s: Seq<char>, k: int)
    requires
        0 <= k <= s.len(),
    ensures
        utf8_len(s.take(k)) <= utf8_len(s),
    decreases s.len() - k,
{
    if k < s.len() {
        lemma_utf8_len_prefix(s.drop_last(), k);
        assert(s.drop_last().take(k) == s.take(k));
    } else {
        assert(s.take(k) == s);
    }
}

/// The entity a feature's top token names under the local rule, if any.
fn local_entity_token(top_token: &str) -> (r: Option<String>)
    ensures
        is_local_entity_name(trim(top_token@)) ==> (r matches Some(t) && t@ == trim(top_token@)),
        !is_local_entity_name(trim(top_token@)) ==> r is None,
{
    let t = trim_str(top_token);
    let cs = chars_of(t.as_str());
    let mut bytes: u64 = 0;
    let mut i: usize = 0;
    while i < cs.len() && bytes < 3
        invariant
            i <= cs.len(),
            cs@ == trim(top_token@),
            bytes == utf8_len(cs@.take(i as int)),
            bytes <= 6,
        decreases cs.len() - i,
    {
        assert(cs@.take(i + 1).drop_last() == cs@.take(i as int));
        assert(cs@.take(i + 1).last() == cs@[i as int]);
        let c = cs[i];
        let w: u64 = if (c as u32) < 0x80 {
            1
        } else if (c as u32) < 0x800 {
            2
        } else if (c as u32) < 0x1_0000 {
            3
        } else {
            4
        };
        bytes = bytes + w;
        i = i + 1;
    }
    proof {
        lemma_utf8_len_prefix(cs@, i as int);
        if i == cs.len() {
            assert(cs@.take(i as int) == cs@);
        }
    }
    if bytes < 3 {
        return None;
    }
    if !('A' <= cs[0] && cs[0] <= 'Z') {
        return None;
    }
    let mut k: usize = 0;
    while k < cs.len()
        invariant
            k <= cs.len(),
            cs@ == trim(top_token@),
            forall|j: int| 0 <= j < k ==> alphabetic(#[trigger] cs@[j]),
        decreases cs.len() - k,
    {
        if !is_alphabetic(cs[k]) {
            return None;
        }
        k = k + 1;
    }
    Some(t)
}

/// The position of the row named `name`.
pub open spec fn entity_index(rows: Seq<EntityView>, name: Seq<char>) -> Option<int>
    decreases rows.len(),
{
    if rows.len() == 0 {
        None
    } else if rows.last().0 == name {
        Some(rows.len() - 1)
    } else {
        entity_index(rows.drop_last(), name)
    }
}

/// The higher of two scores (`f32` bits), as a comparison of floats takes
/// it: a NaN new score is passed over, and the old one stays unless the
/// new is strictly higher.
pub open spec fn max_score(cur: u32, new: u32) -> u32 {
    if !crate::token_summary::is_nan_bits(new) && crate::token_summary::score_key(new)
        > crate::token_summary::score_key(cur) {
        new
    } else {
        cur
    }
}

/// The entity rows of the scanned features (top token, score), in the
/// order the entities are first met, by the local or the server's rule.
pub open spec fn entity_rows(metas: Seq<(String, u32)>, local: bool) -> Seq<EntityView>
    decreases metas.len(),
{
    if metas.len() == 0 {
        Seq::empty()
    } else {
        let rows = entity_rows(metas.drop_last(), local);
        let t = trim(metas.last().0@);
        let sc = metas.last().1;
        if !entity_name_ok(t, local) {
            rows
        } else {
            match entity_index(rows, t) {
                Some(j) => rows.update(j, (rows[j].0, rows[j].1 + 1, max_score(rows[j].2, sc))),
                None => rows.push((t, 1nat, max_score(0, sc))),
            }
        }
    }
}

/// Row `a` comes strictly before row `b`: more features, or (when scores
/// count) as many and a higher score.
pub open spec fn entity_before(a: EntityView, b: EntityView, by_score: bool) -> bool {
    a.1 > b.1 || (by_score && a.1 == b.1 && crate::token_summary::score_key(a.2)
        > crate::token_summary::score_key(b.2))
}

/// `x` inserted into `s` before the first row it comes strictly before.
pub open spec fn insert_entity(s: Seq<EntityView>, x: EntityView, by_score: bool) -> Seq<EntityView>
    decreases s.len(),
{
    if s.len() == 0 {
        seq![x]
    } else if entity_before(x, s[0], by_score) {
        seq![x] + s
    } else {
        seq![s[0]] + insert_entity(s.drop_first(), x, by_score)
    }
}

/// The rows by features (then, when scores count, by score), highest
/// first; rows alike keep the order they were met in.
pub open spec fn sort_entities(s: Seq<EntityView>, by_score: bool) -> Seq<EntityView>
    decreases s.len(),
{
    if s.len() == 0 {
        Seq::empty()
    } else {
        insert_entity(sort_entities(s.drop_last(), by_score), s.last(), by_score)
    }
}

proof fn lemma_entity_counts_bounded(metas: Seq<(String, u32)>, local: bool)
    ensures
        forall|j: int|
            0 <= j < entity_rows(metas, local).len() ==> (#[trigger] entity_rows(metas, local)[j]).1
                <= metas.len(),
    decreases metas.len(),
{
    if metas.len() > 0 {
        let p = metas.drop_last();
        lemma_entity_counts_bounded(p, local);
        let rows = entity_rows(p, local);
        let t = trim(metas.last().0@);
        if entity_name_ok(t, local) {
            lemma_entity_index(rows, t);
            match entity_index(rows, t) {
                Some(k) => {
                    let r = rows.update(
                        k,
                        (rows[k].0, rows[k].1 + 1, max_score(rows[k].2, metas.last().1)),
                    );
                    assert forall|j: int| 0 <= j < r.len() implies (#[trigger] r[j]).1
                        <= metas.len() by {
                        assert(rows[j].1 <= p.len());
                    }
                },
                None => {
                    let r = rows.push((t, 1nat, max_score(0, metas.last().1)));
                    assert forall|j: int| 0 <= j < r.len() implies (#[trigger] r[j]).1
                        <= metas.len() by {
                        if j < rows.len() {
                            assert(rows[j].1 <= p.len());
                        }
                    }
                },
            }
        }
    }
}

proof fn lemma_entity_index(rows: Seq<EntityView>, name: Seq<char>)
    ensures
        match entity_index(rows, name) {
            Some(j) => 0 <= j < rows.len() && rows[j].0 == name,
            None => forall|j: int| 0 <= j < rows.len() ==> (#[trigger] rows[j]).0 != name,
        },
    decreases rows.len(),
{
    if rows.len() > 0 {
        lemma_entity_index(rows.drop_last(), name);
        if rows.last().0 != name {
            assert forall|j: int| 0 <= j < rows.len() - 1 implies (#[trigger] rows[j]).0
                == rows.drop_last()[j].0 by {}
        }
    }
}

pub(crate) fn max_score_exec(cur: u32, new: u32) -> (r: u32)
    ensures
        r == max_score(cur, new),
{
    let nan = (new / 0x80_0000) % 0x100 == 0xFF && new % 0x80_0000 != 0;
    let kn: u64 = if new < 0x8000_0000 {
        0x8000_0000 + new as u64
    } else {
        0x8000_0000 - (new - 0x8000_0000) as u64
    };
    let kc: u64 = if cur < 0x8000_0000 {
        0x8000_0000 + cur as u64
    } else {
        0x8000_0000 - (cur - 0x8000_0000) as u64
    };
    if !nan && kn > kc {
        new
    } else {
        cur
    }
}

/// Counts the entities the scanned features' top tokens name
/// (`entity_rows`), by the local or the server's rule.
pub fn count_entities(metas: &Vec<(String, u32)>, local: bool) -> (r: Vec<EntityCount>)
    ensures
        entity_views(r@) == entity_rows(metas@, local),
{
    let mut rows: Vec<EntityCount> = Vec::new();
    let mut i: usize = 0;
    while i < metas.len()
        invariant
            i <= metas@.len(),
            entity_views(rows@) == entity_rows(metas@.take(i as int), local),
        decreases metas.len() - i,
    {
        let ghost pre = metas@.take(i as int);
        proof {
            assert(metas@.take(i + 1).drop_last() == pre);
            assert(metas@.take(i + 1).last() == metas@[i as int]);
            lemma_entity_counts_bounded(pre, local);
            lemma_entity_index(entity_rows(pre, local), trim(metas@[i as int].0@));
        }
        let name = if local {
            local_entity_token(metas[i].0.as_str())
        } else {
            entity_token(metas[i].0.as_str())
        };
        match name {
            None => {},
            Some(t) => {
                let sc = metas[i].1;
                let mut j: usize = rows.len();
                assert(entity_views(rows@).take(j as int) == entity_views(rows@));
                while j > 0 && !str_eq(rows[j - 1].entity.as_str(), t.as_str())
                    invariant
                        j <= rows@.len(),
                        entity_index(entity_views(rows@), t@) == entity_index(
                            entity_views(rows@).take(j as int),
                            t@,
                        ),
                    decreases j,
                {
                    let ghost v = entity_views(rows@);
                    assert(v.take(j as int).drop_last() == v.take(j - 1));
                    assert(v.take(j as int).last() == v[j - 1]);
                    j = j - 1;
                }
                let ghost v = entity_views(rows@);
                if j == 0 {
                    assert(v.take(0) =~= Seq::<EntityView>::empty());
                    let row = EntityCount { entity: t, count: 1, score: max_score_exec(0, sc) };
                    rows.push(row);
                    assert(entity_views(rows@) =~= v.push(
                        (trim(metas@[i as int].0@), 1nat, max_score(0, sc)),
                    ));
                } else {
                    assert(v.take(j as int).last() == v[j - 1]);
                    assert(entity_index(v, t@) == Some((j - 1) as int));
                    assert(rows@[j - 1].count <= i);
                    let old = rows[j - 1].score;
                    let cnt = rows[j - 1].count;
                    let name = rows[j - 1].entity.clone();
                    rows.set(
                        j - 1,
                        EntityCount { entity: name, count: cnt + 1, score: max_score_exec(old, sc) },
                    );
                    assert(entity_views(rows@) =~= v.update(
                        (j - 1) as int,
                        (v[j - 1].0, v[j - 1].1 + 1, max_score(v[j - 1].2, sc)),
                    ));
                }
            },
        }
        i = i + 1;
    }
    assert(metas@.take(metas.len() as int) == metas@);
    rows
}

fn entity_before_exec(a: &EntityCount, b: &EntityCount, by_score: bool) -> (r: bool)
    ensures
        r == entity_before(
            (a.entity@, a.count as nat, a.score),
            (b.entity@, b.count as nat, b.score),
            by_score,
        ),
{
    if a.count != b.count {
        return a.count > b.count;
    }
    if !by_score {
        return false;
    }
    let ka: u64 = if a.score < 0x8000_0000 {
        0x8000_0000 + a.score as u64
    } else {
        0x8000_0000 - (a.score - 0x8000_0000) as u64
    };
    let kb: u64 = if b.score < 0x8000_0000 {
        0x8000_0000 + b.score as u64
    } else {
        0x8000_0000 - (b.score - 0x8000_0000) as u64
    };
    ka > kb
}

fn insert_entity_exec(v: &mut Vec<EntityCount>, x: EntityCount, by_score: bool)
    ensures
        entity_views(final(v)@) == insert_entity(
            entity_views(old(v)@),
            (x.entity@, x.count as nat, x.score),
            by_score,
        ),
{
    let ghost sv = entity_views(v@);
    let ghost xv = (x.entity@, x.count as nat, x.score);
    let mut p: usize = 0;
    assert(sv.skip(0) == sv);
    assert(sv.take(0) + insert_entity(sv, xv, by_score) == insert_entity(sv, xv, by_score));
    while p < v.len() && !entity_before_exec(&x, &v[p], by_score)
        invariant
            p <= v@.len(),
            sv == entity_views(v@),
            xv == (x.entity@, x.count as nat, x.score),
            insert_entity(sv, xv, by_score) == sv.take(p as int) + insert_entity(
                sv.skip(p as int),
                xv,
                by_score,
            ),
        decreases v.len() - p,
    {
        proof {
            let t = sv.skip(p as int);
            assert(t[0] == sv[p as int]);
            assert(t.drop_first() == sv.skip(p + 1));
            assert(sv.take(p + 1) == sv.take(p as int).push(sv[p as int]));
            assert(insert_entity(t, xv, by_score) == seq![t[0]] + insert_entity(
                sv.skip(p + 1),
                xv,
                by_score,
            ));
            assert(sv.take(p as int) + (seq![t[0]] + insert_entity(sv.skip(p + 1), xv, by_score))
                == sv.take(p + 1) + insert_entity(sv.skip(p + 1), xv, by_score));
        }
        p = p + 1;
    }
    proof {
        let t = sv.skip(p as int);
        if p < v.len() {
            assert(t[0] == sv[p as int]);
            assert(insert_entity(t, xv, by_score) == seq![xv] + t);
        } else {
            assert(t.len() == 0);
        }
        assert(sv.take(p as int) + (seq![xv] + t) == sv.insert(p as int, xv));
    }
    v.insert(p, x);
    assert(entity_views(v@) =~= sv.insert(p as int, xv));
}

proof fn lemma_first_entities_len(s: Seq<EntityView>, limit: usize)
    ensures
        first_entities(sort_entities(s, false), limit).len() <= limit,
{
}

/// The first `limit` of the rows in order, or all of them.
pub open spec fn first_entities(s: Seq<EntityView>, limit: usize) -> Seq<EntityView> {
    s.take(
        if (limit as int) < s.len() {
            limit as int
        } else {
            s.len() as int
        },
    )
}

/// The entities ranked (`sort_entities`) and cut at `limit`.
fn ranked_entities(metas: &Vec<(String, u32)>, limit: usize, local: bool, by_score: bool) -> (r: Vec<
    EntityCount,
>)
    ensures
        entity_views(r@) == first_entities(sort_entities(entity_rows(metas@, local), by_score), limit),
{
    let rows = count_entities(metas, local);
    let ghost all = entity_views(rows@);
    let mut rest = rows;
    let mut out: Vec<EntityCount> = Vec::new();
    let mut i: usize = 0;
    let n = rest.len();
    assert(all.take(0) =~= Seq::<EntityView>::empty());
    while rest.len() > 0
        invariant
            n == all.len(),
            i + rest@.len() == n,
            entity_views(rest@) == all.skip(i as int),
            entity_views(out@) == sort_entities(all.take(i as int), by_score),
        decreases rest.len(),
    {
        let ghost before = rest@;
        let x = rest.remove(0);
        proof {
            assert(all.take(i + 1).drop_last() == all.take(i as int));
            assert(all.take(i + 1).last() == all[i as int]);
            assert(entity_views(before)[0] == all.skip(i as int)[0]);
            assert(rest@ == before.drop_first());
            assert forall|k: int| 0 <= k < rest@.len() implies entity_views(rest@)[k] == all.skip(
                i + 1,
            )[k] by {
                assert(rest@[k] == before[k + 1]);
                assert(entity_views(before)[k + 1] == all.skip(i as int)[k + 1]);
            }
            assert(entity_views(rest@) =~= all.skip(i + 1));
        }
        insert_entity_exec(&mut out, x, by_score);
        i = i + 1;
    }
    assert(all.take(n as int) == all);
    proof {
        lemma_sort_entities_len(all, by_score);
    }
    if out.len() > limit {
        let ghost before = entity_views(out@);
        out.truncate(limit);
        assert(entity_views(out@) =~= before.take(limit as int));
    } else {
        assert(entity_views(out@).take(out.len() as int) == entity_views(out@));
    }
    out
}

/// The entities `GET /v1/entities` lists: those the scanned features' top
/// tokens name by the server's rule, by features then score, highest
/// first, the first `limit` of them.
pub fn top_entities(metas: &Vec<(String, u32)>, limit: usize) -> (r: Vec<EntityCount>)
    ensures
        entity_views(r@) == first_entities(sort_entities(entity_rows(metas@, false), true), limit),
{
    ranked_entities(metas, limit, false, true)
}

/// The entities a local `SHOW ENTITIES` lists: those the scanned
/// features' top tokens name by the local rule, by features, highest
/// first, the first `limit` of them.
pub fn top_local_entities(metas: &Vec<(String, u32)>, limit: usize) -> (r: Vec<EntityCount>)
    ensures
        entity_views(r@) == first_entities(sort_entities(entity_rows(metas@, true), false), limit),
{
    ranked_entities(metas, limit, true, false)
}

proof fn lemma_insert_entity_len(s: Seq<EntityView>, x: EntityView, by_score: bool)
    ensures
        insert_entity(s, x, by_score).len() == s.len() + 1,
    decreases s.len(),
{
    if s.len() > 0 && !entity_before(x, s[0], by_score) {
        lemma_insert_entity_len(s.drop_first(), x, by_score);
    }
}

proof fn lemma_sort_entities_len(s: Seq<EntityView>, by_score: bool)
    ensures
        sort_entities(s, by_score).len() == s.len(),
    decreases s.len(),
{
    if s.len() > 0 {
        lemma_sort_entities_len(s.drop_last(), by_score);
        lemma_insert_entity_len(sort_entities(s.drop_last(), by_score), s.last(), by_score);
    }
}

/// No row comes strictly before one listed ahead of it.
pub open spec fn entities_sorted(s: Seq<EntityView>, by_score: bool) -> bool {
    forall|i: int, j: int|
        0 <= i < j < s.len() ==> !entity_before(#[trigger] s[j], #[trigger] s[i], by_score)
}

proof fn lemma_insert_entity_sorted(s: Seq<EntityView>, x: EntityView, by_score: bool)
    requires
        entities_sorted(s, by_score),
    ensures
        entities_sorted(insert_entity(s, x, by_score), by_score),
        insert_entity(s, x, by_score).to_multiset() == s.to_multiset().insert(x),
    decreases s.len(),
{
    broadcast use vstd::seq_lib::group_to_multiset_ensures;
    broadcast use vstd::multiset::group_multiset_axioms;

    let r = insert_entity(s, x, by_score);
    if s.len() == 0 {
        assert(r == seq![x]);
        assert(seq![x] == Seq::<EntityView>::empty().push(x));
        vstd::seq_lib::to_multiset_build(Seq::<EntityView>::empty(), x);
    } else if entity_before(x, s[0], by_score) {
        assert(r == s.insert(0, x));
        vstd::seq_lib::to_multiset_insert(s, 0, x);
        assert forall|i: int, j: int| 0 <= i < j < r.len() implies !entity_before(
            #[trigger] r[j],
            #[trigger] r[i],
            by_score,
        ) by {
            if i == 0 {
                assert(r[j] == s[j - 1]);
                if j - 1 > 0 {
                    assert(!entity_before(s[j - 1], s[0], by_score));
                }
            } else {
                assert(r[i] == s[i - 1] && r[j] == s[j - 1]);
            }
        }
    } else {
        let t = s.drop_first();
        assert forall|i: int, j: int| 0 <= i < j < t.len() implies !entity_before(
            #[trigger] t[j],
            #[trigger] t[i],
            by_score,
        ) by {
            assert(t[i] == s[i + 1] && t[j] == s[j + 1]);
        }
        lemma_insert_entity_sorted(t, x, by_score);
        let rt = insert_entity(t, x, by_score);
        assert(r == seq![s[0]] + rt);
        assert forall|i: int, j: int| 0 <= i < j < r.len() implies !entity_before(
            #[trigger] r[j],
            #[trigger] r[i],
            by_score,
        ) by {
            if i == 0 {
                assert(r[j] == rt[j - 1]);
                assert(rt.to_multiset().count(rt[j - 1]) > 0);
                assert((t.to_multiset().insert(x)).count(rt[j - 1]) > 0);
                if rt[j - 1] != x {
                    assert(t.to_multiset().count(rt[j - 1]) > 0);
                    assert(t.contains(rt[j - 1]));
                    let k = choose|k: int| 0 <= k < t.len() && t[k] == rt[j - 1];
                    assert(s[k + 1] == t[k]);
                }
            } else {
                assert(r[i] == rt[i - 1] && r[j] == rt[j - 1]);
            }
        }
        assert(s == seq![s[0]] + t);
        vstd::seq_lib::lemma_multiset_commutative(seq![s[0]], rt);
        vstd::seq_lib::lemma_multiset_commutative(seq![s[0]], t);
        assert(r.to_multiset() == seq![s[0]].to_multiset().add(rt.to_multiset()));
        assert(s.to_multiset() == seq![s[0]].to_multiset().add(t.to_multiset()));
        assert(r.to_multiset() =~= s.to_multiset().insert(x));
    }
}

/// Law: an entity listing is ordered by features (then, when scores
/// count, by score), highest first, and lists every entity once.
pub proof fn lemma_sort_entities(s: Seq<EntityView>, by_score: bool)
    ensures
        entities_sorted(sort_entities(s, by_score), by_score),
        sort_entities(s, by_score).to_multiset() == s.to_multiset(),
    decreases s.len(),
{
    broadcast use vstd::seq_lib::group_to_multiset_ensures;

    if s.len() == 0 {
        assert(sort_entities(s, by_score) == Seq::<EntityView>::empty());
        assert(s == Seq::<EntityView>::empty());
    } else {
        lemma_sort_entities(s.drop_last(), by_score);
        lemma_insert_entity_sorted(sort_entities(s.drop_last(), by_score), s.last(), by_score);
        assert(s == s.drop_last().push(s.last()));
        vstd::seq_lib::to_multiset_build(s.drop_last(), s.last());
    }
}

// ───────────────────────── a local SHOW ENTITIES ─────────────────────────

/// The cells of an entity line: `{:<24} {:>10} {:>10}`.
pub open spec fn entity_cells(a: Seq<char>, b: Seq<char>, c: Seq<char>) -> Seq<char> {
    crate::token_summary::pad_right(a, 24) + " "@ + crate::token_summary::pad_left(b, 10) + " "@
        + crate::token_summary::pad_left(c, 10)
}

/// The line of an entity: its name, features, and highest score to four
/// places.
pub open spec fn entity_line(e: EntityView) -> Seq<char> {
    entity_cells(e.0, decimal(e.1), crate::token_summary::score_text(e.2))
}

/// The lines of a local `SHOW ENTITIES`: the title (the layer scanned, or
/// how many layers; the larger of the count and the limit as the total),
/// the header, a rule, the entities, or a note that there are none.
pub open spec fn local_entities_lines(
    rows: Seq<EntityView>,
    layer: Option<u32>,
    scanned: nat,
    limit: nat,
) -> Seq<Seq<char>> {
    let note = match layer {
        Some(l) => " at layer "@ + decimal(l as nat),
        None => " across "@ + decimal(scanned) + " layers"@,
    };
    let total: nat = if rows.len() > limit {
        rows.len()
    } else {
        limit
    };
    seq![
        "Distinct entities"@ + note + " ("@ + decimal(total) + " total, showing top "@ + decimal(
            limit,
        ) + "):"@,
        entity_cells("Entity"@, "Features"@, "Max Score"@),
        crate::token_summary::dashes(48),
    ] + rows.map_values(|e: EntityView| entity_line(e)) + if rows.len() == 0 {
        seq!["  (no entities found)"@]
    } else {
        Seq::empty()
    }
}

fn entity_cells_exec(a: &str, b: &str, c: &str) -> (r: String)
    ensures
        r@ == entity_cells(a@, b@, c@),
{
    let mut out = String::new();
    crate::token_summary::append_pad_right(&mut out, a, 24);
    out.append(" ");
    crate::token_summary::append_pad_left(&mut out, b, 10);
    out.append(" ");
    crate::token_summary::append_pad_left(&mut out, c, 10);
    out
}

/// A local `SHOW ENTITIES` (`local_entities_lines`) over the scanned
/// features' top tokens and scores: the first `limit` entities by the
/// local rule, by features, highest first.
pub fn show_local_entities(
    metas: &Vec<(String, u32)>,
    layer: Option<u32>,
    scanned: usize,
    limit: usize,
) -> (out: Vec<String>)
    ensures
        string_views(out@) == local_entities_lines(
            first_entities(sort_entities(entity_rows(metas@, true), false), limit),
            layer,
            scanned as nat,
            limit as nat,
        ),
{
    let rows = top_local_entities(metas, limit);
    let ghost rv = entity_views(rows@);
    let mut title = owned("Distinct entities");
    match layer {
        Some(l) => {
            title.append(" at layer ");
            push_chars(&mut title, u64_decimal(l as u64).as_slice());
        },
        None => {
            title.append(" across ");
            push_chars(&mut title, u64_decimal(scanned as u64).as_slice());
            title.append(" layers");
        },
    }
    title.append(" (");
    let total = if rows.len() > limit {
        rows.len()
    } else {
        limit
    };
    push_chars(&mut title, u64_decimal(total as u64).as_slice());
    title.append(" total, showing top ");
    push_chars(&mut title, u64_decimal(limit as u64).as_slice());
    title.append("):");
    let mut out: Vec<String> = Vec::new();
    out.push(title);
    out.push(entity_cells_exec("Entity", "Features", "Max Score"));
    out.push(crate::token_summary::dashes_exec(48));
    let ghost head = string_views(out@);
    let mut i: usize = 0;
    while i < rows.len()
        invariant
            i <= rows@.len(),
            rv == entity_views(rows@),
            string_views(out@) == head + rv.take(i as int).map_values(|e: EntityView| entity_line(e)),
        decreases rows.len() - i,
    {
        let count = string_from_chars(u64_decimal(rows[i].count as u64).as_slice());
        let score = crate::token_summary::score_text_exec(rows[i].score);
        let line = entity_cells_exec(rows[i].entity.as_str(), count.as_str(), score.as_str());
        let ghost prev = out@;
        out.push(line);
        proof {
            assert(rv[i as int] == (rows@[i as int].entity@, rows@[i as int].count as nat, rows@[i as int].score));
            assert(string_views(out@) =~= string_views(prev).push(entity_line(rv[i as int])));
            assert(rv.take(i + 1).map_values(|e: EntityView| entity_line(e)) =~= rv.take(
                i as int,
            ).map_values(|e: EntityView| entity_line(e)).push(entity_line(rv[i as int])));
        }
        i = i + 1;
    }
    assert(rv.take(rows.len() as int) == rv);
    proof {
        lemma_first_entities_len(entity_rows(metas@, true), limit);
        let expect_title = "Distinct entities"@ + match layer {
            Some(l) => " at layer "@ + decimal(l as nat),
            None => " across "@ + decimal(scanned as nat) + " layers"@,
        } + " ("@ + decimal(total as nat) + " total, showing top "@ + decimal(limit as nat) + "):"@;
        assert(head[0] == expect_title);
    }
    let ghost body = string_views(out@);
    if rows.len() == 0 {
        out.push(owned("  (no entities found)"));
    }
    assert(string_views(out@) =~= body + if rv.len() == 0 {
        seq!["  (no entities found)"@]
    } else {
        Seq::<Seq<char>>::empty()
    });
    out
}

} // verus!

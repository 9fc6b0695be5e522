//! The Experiment Lab's reading of an evidence artifact: the claim
//! assessment, the mechanistic facts, the prompt comparisons and the edited
//! slots, each read leniently (a missing or mistyped member reads as false,
//! zero or empty).

use vstd::prelude::*;
use crate::lql::{str_eq, string_views};
use crate::remote::{field_u64, json_get, member_value, JsonNumber, JsonValue};

verus! {

/// The artifact's verdict on the erasure claim.
#[derive(Debug, Default)]
pub struct ClaimAssessment {
    pub target_slots_all_edited: bool,
    pub atlantis_output_changed: bool,
    pub atlantis_poseidon_erased: bool,
    pub france_bit_perfect_invariant: bool,
    pub france_output_changed: bool,
    pub france_hidden_changed: bool,
    pub claim_supported: bool,
    pub claim_refuted: bool,
    pub notes: Vec<String>,
}

/// One prompt run with and without the edit.
#[derive(Debug)]
pub struct ExperimentComparison {
    pub prompt: String,
    pub top_equal: bool,
    pub bits_equal: bool,
    /// The largest change of a hidden value, as the artifact gives it.
    pub max_abs_delta: JsonNumber,
}

/// One edited slot of the experiment.
#[derive(Debug)]
pub struct ExperimentSlot {
    pub layer: usize,
    pub feature: usize,
    pub in_layer_range: bool,
    pub in_feature_range: bool,
    pub edited: bool,
    pub note: String,
}

/// The boolean member `key`, false when it is missing or not a boolean.
pub open spec fn get_bool(v: JsonValue, key: Seq<char>) -> bool {
    match json_get(v, key) {
        Some(JsonValue::Bool(b)) => b,
        _ => false,
    }
}

/// The string member `key`, empty when it is missing or not a string.
pub open spec fn get_text(v: JsonValue, key: Seq<char>) -> Seq<char> {
    match json_get(v, key) {
        Some(JsonValue::String(s)) => s@,
        _ => Seq::empty(),
    }
}

/// The number member `key`, zero when it is missing or not a number.
pub open spec fn get_number(v: JsonValue, key: Seq<char>) -> JsonNumber {
    match json_get(v, key) {
        Some(JsonValue::Number(n)) => n,
        _ => JsonNumber::PosInt(0),
    }
}

/// The non-negative integer member `key`, zero when it is missing or not
/// one.
pub open spec fn get_count(v: JsonValue, key: Seq<char>) -> u64 {
    match field_u64(v, key) {
        Some(n) => n,
        None => 0,
    }
}

/// The items of the array member `key`, none when it is missing or not an
/// array.
pub open spec fn array_member(v: JsonValue, key: Seq<char>) -> Seq<JsonValue> {
    match json_get(v, key) {
        Some(JsonValue::Array(items)) => items@,
        _ => Seq::empty(),
    }
}

/// The strings among the items, in order; other items are passed over.
pub open spec fn string_items(items: Seq<JsonValue>) -> Seq<Seq<char>>
    decreases items.len(),
{
    if items.len() == 0 {
        Seq::empty()
    } else {
        let prefix = string_items(items.drop_last());
        match items.last() {
            JsonValue::String(s) => prefix.push(s@),
            _ => prefix,
        }
    }
}

/// The member `key` of `v`, if `v` is an object that has one.
pub(crate) fn member<'a>(v: &'a JsonValue, key: &str) -> (r: Option<&'a JsonValue>)
    ensures
        match r {
            Some(x) => json_get(*v, key@) == Some(*x),
            None => json_get(*v, key@) is None,
        },
{
    match v {
        JsonValue::Object(members) => {
            let mut i: usize = 0;
            while i < members.len()
                invariant
                    i <= members@.len(),
                    json_get(*v, key@) == member_value(members@, key@),
                    forall|j: int| 0 <= j < i ==> (#[trigger] members@[j]).0@ != key@,
                decreases members.len() - i,
            {
                if str_eq(members[i].0.as_str(), key) {
                    proof {
                        crate::remote::lemma_member_value_skip(members@, key@, i as int);
                        let sk = members@.skip(i as int);
                        assert(sk[0] == members@[i as int]);
                        assert(sk[0].0@ == key@);
                        assert(member_value(sk, key@) == Some(members@[i as int].1));
                    }
                    return Some(&members[i].1);
                }
                i = i + 1;
            }
            proof {
                crate::remote::lemma_member_value_skip(members@, key@, i as int);
                assert(members@.skip(i as int).len() == 0);
            }
            None
        },
        _ => None,
    }
}

/// Reads the boolean member `field` of `value`: false when it is missing
/// or not a boolean.
pub fn bool_field(value: &JsonValue, field: &str) -> (r: bool)
    ensures
        r == get_bool(*value, field@),
{
    match member(value, field) {
        Some(JsonValue::Bool(b)) => *b,
        _ => false,
    }
}

pub(crate) fn text_field(value: &JsonValue, field: &str) -> (r: String)
    ensures
        r@ == get_text(*value, field@),
{
    match member(value, field) {
        Some(JsonValue::String(s)) => s.clone(),
        _ => String::new(),
    }
}

fn number_field(value: &JsonValue, field: &str) -> (r: JsonNumber)
    ensures
        r == get_number(*value, field@),
{
    match member(value, field) {
        Some(JsonValue::Number(n)) => *n,
        _ => JsonNumber::PosInt(0),
    }
}

pub(crate) fn count_field(value: &JsonValue, field: &str) -> (r: u64)
    ensures
        r == get_count(*value, field@),
{
    match crate::remote::get_u64(value, field) {
        Some(n) => n,
        None => 0,
    }
}

/// The strings among the items of the array member `field`.
pub(crate) fn string_list(value: &JsonValue, field: &str) -> (r: Vec<String>)
    ensures
        string_views(r@) == string_items(array_member(*value, field@)),
{
    let mut out: Vec<String> = Vec::new();
    match member(value, field) {
        Some(JsonValue::Array(items)) => {
            let mut i: usize = 0;
            while i < items.len()
                invariant
                    i <= items@.len(),
                    string_views(out@) == string_items(items@.take(i as int)),
                decreases items.len() - i,
            {
                let ghost prev = out@;
                assert(items@.take(i + 1).drop_last() == items@.take(i as int));
                assert(items@.take(i + 1).last() == items@[i as int]);
                match &items[i] {
                    JsonValue::String(s) => {
                        out.push(s.clone());
                        assert(string_views(out@) =~= string_views(prev).push(s@));
                    },
                    _ => {},
                }
                i = i + 1;
            }
            assert(items@.take(items.len() as int) == items@);
            out
        },
        _ => out,
    }
}

/// The claim assessment: the boolean members of `claim_assessment` and the
/// strings among its `notes`; all false and no notes when it is missing.
pub fn extract_claim_assessment(artifact: &JsonValue) -> (r: ClaimAssessment)
    ensures
        match json_get(*artifact, "claim_assessment"@) {
            None => !r.target_slots_all_edited && !r.atlantis_output_changed
                && !r.atlantis_poseidon_erased && !r.france_bit_perfect_invariant
                && !r.france_output_changed && !r.france_hidden_changed && !r.claim_supported
                && !r.claim_refuted && r.notes@.len() == 0,
            Some(v) => {
                &&& r.target_slots_all_edited == get_bool(v, "target_slots_all_edited"@)
                &&& r.atlantis_output_changed == get_bool(v, "atlantis_output_changed"@)
                &&& r.atlantis_poseidon_erased == get_bool(v, "atlantis_poseidon_erased"@)
                &&& r.france_bit_perfect_invariant == get_bool(v, "france_bit_perfect_invariant"@)
                &&& r.france_output_changed == get_bool(v, "france_output_changed"@)
                &&& r.france_hidden_changed == get_bool(v, "france_hidden_changed"@)
                &&& r.claim_supported == get_bool(v, "claim_supported"@)
                &&& r.claim_refuted == get_bool(v, "claim_refuted"@)
                &&& string_views(r.notes@) == string_items(array_member(v, "notes"@))
            },
        },
{
    match member(artifact, "claim_assessment") {
        None => ClaimAssessment {
            target_slots_all_edited: false,
            atlantis_output_changed: false,
            atlantis_poseidon_erased: false,
            france_bit_perfect_invariant: false,
            france_output_changed: false,
            france_hidden_changed: false,
            claim_supported: false,
            claim_refuted: false,
            notes: Vec::new(),
        },
        Some(value) => ClaimAssessment {
            target_slots_all_edited: bool_field(value, "target_slots_all_edited"),
            atlantis_output_changed: bool_field(value, "atlantis_output_changed"),
            atlantis_poseidon_erased: bool_field(value, "atlantis_poseidon_erased"),
            france_bit_perfect_invariant: bool_field(value, "france_bit_perfect_invariant"),
            france_output_changed: bool_field(value, "france_output_changed"),
            france_hidden_changed: bool_field(value, "france_hidden_changed"),
            claim_supported: bool_field(value, "claim_supported"),
            claim_refuted: bool_field(value, "claim_refuted"),
            notes: string_list(value, "notes"),
        },
    }
}

/// The strings among the artifact's `mechanistic_facts`, in order.
pub fn extract_mechanistic_facts(artifact: &JsonValue) -> (r: Vec<String>)
    ensures
        string_views(r@) == string_items(array_member(*artifact, "mechanistic_facts"@)),
{
    string_list(artifact, "mechanistic_facts")
}

/// The comparison an item of `comparisons` describes.
pub open spec fn comparison_of(item: JsonValue, c: ExperimentComparison) -> bool {
    &&& c.prompt@ == get_text(item, "prompt"@)
    &&& c.top_equal == get_bool(item, "baseline_top_predictions_equal"@)
    &&& c.bits_equal == get_bool(item, "baseline_final_hidden_bits_equal"@)
    &&& c.max_abs_delta == get_number(item, "max_abs_delta"@)
}

/// The slot an item of `slots` describes.
pub open spec fn slot_of(item: JsonValue, s: ExperimentSlot) -> bool {
    &&& s.layer == get_count(item, "layer"@) as usize
    &&& s.feature == get_count(item, "feature"@) as usize
    &&& s.in_layer_range == get_bool(item, "in_layer_range"@)
    &&& s.in_feature_range == get_bool(item, "in_feature_range"@)
    &&& s.edited == get_bool(item, "edited"@)
    &&& s.note@ == get_text(item, "note"@)
}

/// One comparison per item of the artifact's `comparisons`, in order.
pub fn extract_experiment_comparisons(artifact: &JsonValue) -> (r: Vec<ExperimentComparison>)
    ensures
        r@.len() == array_member(*artifact, "comparisons"@).len(),
        forall|i: int|
            0 <= i < r@.len() ==> comparison_of(
                array_member(*artifact, "comparisons"@)[i],
                #[trigger] r@[i],
            ),
{
    let mut out: Vec<ExperimentComparison> = Vec::new();
    match member(artifact, "comparisons") {
        Some(JsonValue::Array(items)) => {
            let mut i: usize = 0;
            while i < items.len()
                invariant
                    i <= items@.len(),
                    out@.len() == i,
                    forall|j: int| 0 <= j < i ==> comparison_of(items@[j], #[trigger] out@[j]),
                decreases items.len() - i,
            {
                let item = &items[i];
                let c = ExperimentComparison {
                    prompt: text_field(item, "prompt"),
                    top_equal: bool_field(item, "baseline_top_predictions_equal"),
                    bits_equal: bool_field(item, "baseline_final_hidden_bits_equal"),
                    max_abs_delta: number_field(item, "max_abs_delta"),
                };
                out.push(c);
                i = i + 1;
            }
            out
        },
        _ => out,
    }
}

/// One slot per item of the artifact's `slots`, in order.
pub fn extract_experiment_slots(artifact: &JsonValue) -> (r: Vec<ExperimentSlot>)
    ensures
        r@.len() == array_member(*artifact, "slots"@).len(),
        forall|i: int|
            0 <= i < r@.len() ==> slot_of(array_member(*artifact, "slots"@)[i], #[trigger] r@[i]),
{
    let mut out: Vec<ExperimentSlot> = Vec::new();
    match member(artifact, "slots") {
        Some(JsonValue::Array(items)) => {
            let mut i: usize = 0;
            while i < items.len()
                invariant
                    i <= items@.len(),
                    out@.len() == i,
                    forall|j: int| 0 <= j < i ==> slot_of(items@[j], #[trigger] out@[j]),
                decreases items.len() - i,
            {
                let item = &items[i];
                let s = ExperimentSlot {
                    layer: count_field(item, "layer") as usize,
                    feature: count_field(item, "feature") as usize,
                    in_layer_range: bool_field(item, "in_layer_range"),
                    in_feature_range: bool_field(item, "in_feature_range"),
                    edited: bool_field(item, "edited"),
                    note: text_field(item, "note"),
                };
                out.push(s);
                i = i + 1;
            }
            out
        },
        _ => out,
    }
}

} // verus!

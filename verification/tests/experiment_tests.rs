use larql::experiment::{
    bool_field, extract_claim_assessment, extract_experiment_comparisons, extract_experiment_slots,
    extract_mechanistic_facts,
};
use larql::remote::{JsonNumber, JsonValue};

fn obj(members: Vec<(&str, JsonValue)>) -> JsonValue {
    JsonValue::Object(members.into_iter().map(|(k, v)| (k.to_string(), v)).collect())
}

fn text(s: &str) -> JsonValue {
    JsonValue::String(s.to_string())
}

#[test]
fn claim_assessment_reads_flags_and_notes() {
    let artifact = obj(vec![(
        "claim_assessment",
        obj(vec![
            ("claim_supported", JsonValue::Bool(true)),
            ("france_output_changed", JsonValue::Bool(false)),
            ("atlantis_poseidon_erased", text("yes")),
            ("notes", JsonValue::Array(vec![text("first"), JsonValue::Null, text("second")])),
        ]),
    )]);
    let claim = extract_claim_assessment(&artifact);
    assert!(claim.claim_supported);
    assert!(!claim.claim_refuted);
    assert!(!claim.france_output_changed);
    assert!(!claim.atlantis_poseidon_erased);
    assert_eq!(claim.notes, vec!["first".to_string(), "second".to_string()]);

    let missing = extract_claim_assessment(&obj(vec![]));
    assert!(!missing.claim_supported && missing.notes.is_empty());
}

#[test]
fn bool_field_defaults_to_false() {
    let v = obj(vec![("a", JsonValue::Bool(true)), ("b", JsonValue::Number(JsonNumber::PosInt(1)))]);
    assert!(bool_field(&v, "a"));
    assert!(!bool_field(&v, "b"));
    assert!(!bool_field(&v, "c"));
    assert!(!bool_field(&JsonValue::Bool(true), "a"));
}

#[test]
fn mechanistic_facts_keep_strings_only() {
    let artifact = obj(vec![(
        "mechanistic_facts",
        JsonValue::Array(vec![text("L12 writes Poseidon"), JsonValue::Bool(true), text("L13 reads it")]),
    )]);
    assert_eq!(
        extract_mechanistic_facts(&artifact),
        vec!["L12 writes Poseidon".to_string(), "L13 reads it".to_string()]
    );
    assert!(extract_mechanistic_facts(&obj(vec![("mechanistic_facts", text("x"))])).is_empty());
}

#[test]
fn comparisons_and_slots_read_each_item() {
    let artifact = obj(vec![
        (
            "comparisons",
            JsonValue::Array(vec![
                obj(vec![
                    ("prompt", text("The capital of France is")),
                    ("baseline_top_predictions_equal", JsonValue::Bool(true)),
                    ("max_abs_delta", JsonValue::Number(JsonNumber::Float(0.5f64.to_bits()))),
                ]),
                JsonValue::Null,
            ]),
        ),
        (
            "slots",
            JsonValue::Array(vec![obj(vec![
                ("layer", JsonValue::Number(JsonNumber::PosInt(12))),
                ("feature", JsonValue::Number(JsonNumber::NegInt(-3))),
                ("edited", JsonValue::Bool(true)),
                ("note", text("target")),
            ])]),
        ),
    ]);
    let comparisons = extract_experiment_comparisons(&artifact);
    assert_eq!(comparisons.len(), 2);
    assert_eq!(comparisons[0].prompt, "The capital of France is");
    assert!(comparisons[0].top_equal && !comparisons[0].bits_equal);
    assert!(matches!(comparisons[0].max_abs_delta, JsonNumber::Float(b) if b == 0.5f64.to_bits()));
    assert_eq!(comparisons[1].prompt, "");
    assert!(matches!(comparisons[1].max_abs_delta, JsonNumber::PosInt(0)));

    let slots = extract_experiment_slots(&artifact);
    assert_eq!(slots.len(), 1);
    assert_eq!((slots[0].layer, slots[0].feature), (12, 0));
    assert!(slots[0].edited && !slots[0].in_layer_range);
    assert_eq!(slots[0].note, "target");
}

#[test]
fn patch_timestamps_are_unix_seconds() {
    let stamp = larql::remote::patch_timestamp_now();
    let secs: u64 = stamp.parse().expect("decimal seconds");
    assert!(secs > 1_600_000_000);
}

use larql::lql::{condition_string, condition_usize, quote_list, quote_string, relation_prompt_template, CompareOp, Condition, Value};
use larql::remote::{rows_to_layer_features, JsonNumber, JsonValue, LqlError};

fn row(members: Vec<(&str, JsonValue)>) -> JsonValue {
    JsonValue::Object(members.into_iter().map(|(k, v)| (k.to_string(), v)).collect())
}

fn posint(n: u64) -> JsonValue {
    JsonValue::Number(JsonNumber::PosInt(n))
}

#[test]
fn relation_template_simple() {
    let prompt = relation_prompt_template("capital", "entity");
    assert_eq!(prompt, "The capital of entity is");
}

#[test]
fn relation_template_multi_word() {
    let prompt = relation_prompt_template("native_language", "entity");
    assert_eq!(prompt, "The native language of entity is");
}

#[test]
fn relation_template_hyphenated_produces_double_of() {
    let prompt = relation_prompt_template("capital-of", "X");
    assert!(prompt.contains("of of"), "capital-of produces double 'of': {prompt}");
    assert_eq!(prompt, "The capital of of X is");
}

#[test]
fn remote_condition_helpers_extract_expected_types() {
    let conditions = vec![
        Condition { field: "layer".into(), op: CompareOp::Eq, value: Value::Integer(12) },
        Condition { field: "entity".into(), op: CompareOp::Eq, value: Value::String("France".into()) },
    ];
    assert_eq!(condition_usize(&conditions, "layer"), Some(12));
    assert_eq!(condition_string(&conditions, "entity").as_deref(), Some("France"));
    assert_eq!(condition_usize(&conditions, "entity"), None);
}

#[test]
fn condition_helpers_use_first_condition_on_a_field() {
    let conditions = vec![
        Condition { field: "layer".into(), op: CompareOp::Eq, value: Value::String("x".into()) },
        Condition { field: "layer".into(), op: CompareOp::Eq, value: Value::Integer(4) },
    ];
    assert_eq!(condition_usize(&conditions, "layer"), None);
    assert_eq!(condition_string(&conditions, "layer").as_deref(), Some("x"));
    assert_eq!(condition_usize(&conditions, "missing"), None);
}

#[test]
fn rows_to_layer_features_rejects_malformed_rows() {
    let rows = vec![row(vec![("layer", posint(3))])];
    let err = rows_to_layer_features(&rows).unwrap_err();
    assert!(matches!(err, LqlError::Execution(_)));
    match err {
        LqlError::Execution(m) => assert_eq!(m, "remote SELECT row missing numeric 'feature'"),
    }
}

#[test]
fn rows_to_layer_features_reads_pairs_in_order() {
    let rows = vec![
        row(vec![("layer", posint(3)), ("feature", posint(7))]),
        row(vec![("feature", posint(1)), ("layer", posint(0)), ("extra", JsonValue::Null)]),
    ];
    assert_eq!(rows_to_layer_features(&rows).unwrap(), vec![(3, 7), (0, 1)]);
    assert_eq!(rows_to_layer_features(&[]).unwrap(), Vec::<(usize, usize)>::new());
}

#[test]
fn rows_to_layer_features_names_missing_layer_first() {
    let rows = vec![
        row(vec![("layer", JsonValue::String("3".into())), ("feature", posint(1))]),
        row(vec![("layer", posint(1))]),
    ];
    match rows_to_layer_features(&rows).unwrap_err() {
        LqlError::Execution(m) => assert_eq!(m, "remote SELECT row missing numeric 'layer'"),
    }
    let negative = vec![row(vec![("layer", JsonValue::Number(JsonNumber::NegInt(-1))), ("feature", posint(1))])];
    assert!(rows_to_layer_features(&negative).is_err());
}

#[test]
fn quote_string_escapes_quotes_and_backslashes() {
    assert_eq!(quote_string("France"), "\"France\"");
    assert_eq!(quote_string("a\"b\\c"), "\"a\\\"b\\\\c\"");
    assert_eq!(quote_list(&["Paris".to_string(), "London".to_string()]), "\"Paris\", \"London\"");
    assert_eq!(quote_list(&[]), "");
}

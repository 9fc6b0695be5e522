use larql::lql::{CompareOp, Condition, DescribeMode, Value};
use larql::remote::{JsonNumber, JsonValue, LqlError};
use larql::remote_listings::{
    entities_query_params, features_floor, features_query_params, remote_entities_lines_of,
    remote_features_lines_of, remote_insert_lines, remote_relations_lines, remote_stats_lines,
};

fn obj(members: Vec<(&str, JsonValue)>) -> JsonValue {
    JsonValue::Object(members.into_iter().map(|(k, v)| (k.to_string(), v)).collect())
}

fn num(n: u64) -> JsonValue {
    JsonValue::Number(JsonNumber::PosInt(n))
}

fn text(s: &str) -> JsonValue {
    JsonValue::String(s.to_string())
}

fn cond(field: &str, value: Value) -> Condition {
    Condition { field: field.to_string(), op: CompareOp::Eq, value }
}

fn pairs(q: &[(&str, &str)]) -> Vec<(String, String)> {
    q.iter().map(|(k, v)| (k.to_string(), v.to_string())).collect()
}

fn relations_body() -> JsonValue {
    obj(vec![
        ("probe_count", num(12)),
        (
            "probe_relations",
            JsonValue::Array(vec![obj(vec![("name", text("capital")), ("count", num(4))])]),
        ),
        (
            "relations",
            JsonValue::Array(vec![obj(vec![
                ("name", text("Paris")),
                ("count", num(7)),
                ("min_layer", num(20)),
                ("max_layer", num(30)),
                ("examples", JsonValue::Array(vec![text("France"), num(1), text("Lyon")])),
            ])]),
        ),
    ])
}

#[test]
fn remote_relations_by_mode() {
    let body = relations_body();
    let scores = vec![format!("{:.2}", 0.8125f64)];
    let probe_lines = vec![
        "Probe-confirmed relations (12 labels):".to_string(),
        format!("{:<25} {:>8}", "Relation", "Features"),
        "-".repeat(35),
        format!("{:<25} {:>8}", "capital", 4),
        String::new(),
    ];
    let token_lines = |examples: &str| {
        vec![
            "Top output tokens:".to_string(),
            format!("{:<25} {:>8} {:>8} {:>10}", "Token", "Count", "Score", "Layers"),
            "-".repeat(55),
            format!("{:<25} {:>8} {:>8.2} {:>5}-{}{}", "Paris", 7, 0.8125f64, 20, 30, examples),
        ]
    };
    assert_eq!(remote_relations_lines(&body, DescribeMode::Brief, false, &scores), probe_lines);
    let mut verbose = probe_lines.clone();
    verbose.extend(token_lines("  e.g. France, Lyon"));
    assert_eq!(remote_relations_lines(&body, DescribeMode::Verbose, true, &scores), verbose);
    assert_eq!(remote_relations_lines(&body, DescribeMode::Raw, false, &scores), token_lines(""));
    let no_probes = obj(vec![("relations", JsonValue::Array(vec![]))]);
    assert!(remote_relations_lines(&no_probes, DescribeMode::Brief, false, &vec![]).is_empty());
}

#[test]
fn remote_stats_listing() {
    let body = obj(vec![
        ("model", text("google/gemma-3-4b-it")),
        ("family", text("gemma3")),
        ("layers", num(34)),
        ("features", num(348160)),
        ("hidden_size", num(2560)),
        ("extract_level", text("browse")),
        (
            "layer_bands",
            obj(vec![
                ("syntax", JsonValue::Array(vec![num(0), num(13)])),
                ("knowledge", JsonValue::Array(vec![num(14), num(27)])),
                ("output", JsonValue::Array(vec![num(28), num(33)])),
            ]),
        ),
        ("loaded", obj(vec![("browse", JsonValue::Bool(true))])),
    ]);
    let bands: Vec<String> = ["0", "13", "14", "27", "28", "33"].iter().map(|s| s.to_string()).collect();
    assert_eq!(
        remote_stats_lines(&body, "http://localhost:8080", &bands),
        vec![
            "Model: google/gemma-3-4b-it",
            "Family: gemma3",
            "Layers: 34",
            "Features: 348160",
            "Hidden: 2560",
            "Dtype: ?",
            "Extract level: browse",
            "Bands: syntax 0-13, knowledge 14-27, output 28-33",
            "Loaded: browse=true, inference=false",
            "Remote: http://localhost:8080",
        ]
    );
    let partial = obj(vec![("layer_bands", obj(vec![("syntax", JsonValue::Null)]))]);
    let out = remote_stats_lines(&partial, "u", &bands);
    assert_eq!(out.len(), 8);
    assert_eq!(out[7], "Remote: u");
}

#[test]
fn remote_features_query_and_listing() {
    let conds = vec![
        cond("layer", Value::Integer(3)),
        cond("token", Value::String("Paris".to_string())),
        cond("relation", Value::String("capital".to_string())),
        cond("c_score", Value::Number("0.25".to_string())),
    ];
    assert!(matches!(features_floor(&conds), Some(Value::Number(t)) if t == "0.25"));
    assert_eq!(
        features_query_params(26, &conds, Some(5), "0.25"),
        pairs(&[("layer", "26"), ("token", "Paris"), ("confidence_floor", "0.25"), ("limit", "5")])
    );
    let odd = vec![cond("relation", Value::Integer(1)), cond("token", Value::String("x".to_string()))];
    assert!(features_floor(&odd).is_none());
    assert_eq!(features_query_params(1, &odd, None, "9"), pairs(&[("layer", "1")]));

    let body = obj(vec![(
        "features",
        JsonValue::Array(vec![obj(vec![
            ("feature", num(9515)),
            ("top_token", text("Paris")),
            ("down_outputs", text("Paris, Lyon")),
        ])]),
    )]);
    let out = remote_features_lines_of(&body, &vec![format!("{:.1}", 4.25f64)]).ok().unwrap();
    assert_eq!(
        out,
        vec![
            format!("{:<8} {:<20} {:>10} {:>30}", "Feature", "Top Token", "Score", "Down outputs"),
            "-".repeat(72),
            format!("{:<8} {:<20} {:>10.1} {:>30}", 9515, "Paris", 4.25f64, "Paris, Lyon"),
        ]
    );
    let err = obj(vec![("error", text("layer out of range"))]);
    match remote_features_lines_of(&err, &vec![]) {
        Err(LqlError::Execution(m)) => assert_eq!(m, "layer out of range"),
        Ok(_) => panic!("expected an error"),
    }
    match remote_features_lines_of(&obj(vec![("error", num(1))]), &vec![]) {
        Err(LqlError::Execution(m)) => assert_eq!(m, "unknown error"),
        Ok(_) => panic!("expected an error"),
    }
}

#[test]
fn remote_entities_query_and_listing() {
    assert_eq!(entities_query_params(Some(3), Some(10)), pairs(&[("layer", "3"), ("limit", "10")]));
    assert_eq!(entities_query_params(None, Some(10)), pairs(&[("limit", "10")]));
    let body = obj(vec![(
        "entities",
        JsonValue::Array(vec![obj(vec![("entity", text("France")), ("count", num(12))]), obj(vec![])]),
    )]);
    let out = remote_entities_lines_of(&body, &vec!["7.5".to_string(), "0.0".to_string()]);
    assert_eq!(
        out,
        vec![
            format!("{:<30} {:>10} {:>10}", "Entity", "Count", "Score"),
            "-".repeat(52),
            format!("{:<30} {:>10} {:>10.1}", "France", 12, 7.5f64),
            format!("{:<30} {:>10} {:>10.1}", "", 0, 0.0f64),
        ]
    );
}

#[test]
fn remote_insert_reply() {
    let body = obj(vec![("inserted", num(8)), ("mode", text("knn"))]);
    assert_eq!(
        remote_insert_lines("France", "capital", "Paris", &body, &format!("{:.0}", 12.6f64)),
        vec![
            "Inserted: France —[capital]→ Paris (8 layers, mode: knn)".to_string(),
            "13ms (remote)".to_string(),
        ]
    );
    assert_eq!(
        remote_insert_lines("a", "b", "c", &obj(vec![]), "0")[0],
        "Inserted: a —[b]→ c (0 layers, mode: unknown)"
    );
}

#[test]
fn remote_insert_request_defaults() {
    let r = larql::remote_listings::insert_request("France", "capital", "Paris", None, None, None);
    assert_eq!((r.entity.as_str(), r.relation.as_str(), r.target.as_str()), ("France", "capital", "Paris"));
    assert_eq!(r.layer, None);
    assert_eq!(r.confidence, "0.9");
    assert_eq!(r.alpha, "0.1");
    let r = larql::remote_listings::insert_request("a", "b", "c", Some(26), Some("0.5".to_string()), Some("0.2".to_string()));
    assert_eq!(r.layer, Some(26));
    assert_eq!((r.confidence.as_str(), r.alpha.as_str()), ("0.5", "0.2"));
}

use larql::lql::{Range, WalkMode};
use larql::remote::{JsonNumber, JsonValue};
use larql::remote_walk::{remote_walk_lines, walk_query_params};

fn obj(members: Vec<(&str, JsonValue)>) -> JsonValue {
    JsonValue::Object(members.into_iter().map(|(k, v)| (k.to_string(), v)).collect())
}

fn num(n: u64) -> JsonValue {
    JsonValue::Number(JsonNumber::PosInt(n))
}

fn text(s: &str) -> JsonValue {
    JsonValue::String(s.to_string())
}

fn pairs(q: &[(&str, &str)]) -> Vec<(String, String)> {
    q.iter().map(|(k, v)| (k.to_string(), v.to_string())).collect()
}

#[test]
fn walk_query_defaults() {
    assert_eq!(
        walk_query_params("The capital of France is", None, None, None, false),
        pairs(&[("prompt", "The capital of France is"), ("top", "10"), ("compare", "false")])
    );
    let r = Range { start: 20, end: 33 };
    assert_eq!(
        walk_query_params("x", Some(3), Some(&r), Some(WalkMode::Dense), true),
        pairs(&[("prompt", "x"), ("top", "3"), ("compare", "true"), ("layers", "20-33"), ("mode", "dense")])
    );
}

fn hit(layer: u64, feature: u64, target: &str, down: Vec<&str>) -> JsonValue {
    obj(vec![
        ("layer", num(layer)),
        ("feature", num(feature)),
        ("target", text(target)),
        ("down", JsonValue::Array(down.into_iter().map(text).collect())),
    ])
}

fn hit_line(layer: u64, feature: u64, gate: f64, target: &str, down: &str) -> String {
    format!(
        "  L{:2}: F{:<5} gate={:+.1}  top={:15}  down=[{}]",
        layer,
        feature,
        gate,
        format!("{:?}", target),
        down
    )
}

#[test]
fn walk_shows_a_few_hits_per_layer() {
    let hits = vec![
        hit(5, 1, "Paris", vec!["Paris", "France"]),
        hit(5, 2, "Lyon", vec![]),
        hit(5, 3, "a", vec![]),
        hit(5, 4, "b", vec![]),
        hit(6, 9, "c", vec!["x"]),
        hit(5, 5, "d", vec![]),
    ];
    let gates = [1.25f64, -0.5, 3.0, 4.0, 12.0, 0.0];
    let gate_texts: Vec<String> = gates.iter().map(|g| format!("{:+.1}", g)).collect();
    let body = obj(vec![
        ("token", text(" is")),
        ("layers_count", num(34)),
        ("mode", text("pure")),
        ("hits", JsonValue::Array(hits)),
        ("latency_ms", JsonValue::Number(JsonNumber::Float(2.5f64.to_bits()))),
    ]);
    let out = remote_walk_lines("The capital", false, &body, &gate_texts, &format!("{:.1}", 2.5f64));
    assert_eq!(
        out,
        vec![
            format!("Feature scan for {:?} (token {:?}, {} layers, mode={})", "The capital", " is", 34, "pure (sparse KNN only)"),
            String::new(),
            hit_line(5, 1, 1.25, "Paris", "Paris, France"),
            hit_line(5, 2, -0.5, "Lyon", ""),
            hit_line(5, 3, 3.0, "a", ""),
            hit_line(6, 9, 12.0, "c", "x"),
            hit_line(5, 5, 0.0, "d", ""),
            format!("\n{:.1}ms (remote)", 2.5f64),
            String::new(),
            "Note: pure vindex scan (no attention). For inference use INFER.".to_string(),
        ]
    );
    let compared = remote_walk_lines("The capital", true, &body, &gate_texts, "2.5");
    assert_eq!(compared.len(), 11);
    assert_eq!(compared[5], hit_line(5, 4, 4.0, "b", ""));
    assert_eq!(compared[10], "Note: COMPARE shows more features per layer. For inference use INFER.");
}

#[test]
fn walk_reply_without_hits() {
    let out = remote_walk_lines("hi", false, &obj(vec![("mode", text("other"))]), &vec![], "0.0");
    assert_eq!(
        out,
        vec![
            format!("Feature scan for {:?} (token {:?}, {} layers, mode={})", "hi", "?", 0, "hybrid (default)"),
            String::new(),
            String::new(),
            "Note: pure vindex scan (no attention). For inference use INFER.".to_string(),
        ]
    );
}

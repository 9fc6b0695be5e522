use larql::lql::LayerBand;
use larql::remote::{JsonNumber, JsonValue};
use larql::remote_explain::{explain_infer_lines, TraceNumbers};

fn obj(members: Vec<(&str, JsonValue)>) -> JsonValue {
    JsonValue::Object(members.into_iter().map(|(k, v)| (k.to_string(), v)).collect())
}

fn num(n: u64) -> JsonValue {
    JsonValue::Number(JsonNumber::PosInt(n))
}

fn float(x: f64) -> JsonValue {
    JsonValue::Number(JsonNumber::Float(x.to_bits()))
}

fn text(s: &str) -> JsonValue {
    JsonValue::String(s.to_string())
}

fn result() -> JsonValue {
    obj(vec![
        ("predictions", JsonValue::Array(vec![obj(vec![("token", text("Paris")), ("probability", float(0.8123))])])),
        (
            "trace",
            JsonValue::Array(vec![
                obj(vec![
                    ("layer", num(5)),
                    (
                        "features",
                        JsonValue::Array(vec![
                            obj(vec![
                                ("feature", num(77)),
                                ("relation", text("capital")),
                                ("top_token", text("Paris")),
                                ("top_tokens", JsonValue::Array(vec![text("Paris"), text("Lyon")])),
                            ]),
                            obj(vec![("feature", num(3)), ("relation", JsonValue::Null), ("top_token", text("the"))]),
                        ]),
                    ),
                    ("attention", JsonValue::Array(vec![obj(vec![("token", text("France")), ("weight", float(0.5))])])),
                    ("lens", obj(vec![("token", text("Paris")), ("probability", float(0.25))])),
                ]),
                obj(vec![("layer", num(12)), ("features", JsonValue::Array(vec![]))]),
            ]),
        ),
        ("latency_ms", float(12.4)),
    ])
}

fn numbers() -> TraceNumbers {
    TraceNumbers {
        prediction: format!("{:.2}", 0.8123f64 * 100.0),
        gates: vec![vec![format!("{:+.1}", 4.25f64), format!("{:+.1}", -1.0f64)], vec![]],
        attention: vec![format!("{:.0}", 50.0f64), String::new()],
        lens: vec![format!("{:.1}", 25.0f64), String::new()],
        latency: format!("{:.0}", 12.4f64),
    }
}

#[test]
fn explain_trace_per_feature() {
    let out = explain_infer_lines(&result(), "The capital", Some(LayerBand::Knowledge), false, false, &numbers());
    assert_eq!(
        out,
        vec![
            format!("Inference trace for {:?}{}:", "The capital", " (knowledge)"),
            format!("Prediction: {} ({:.2}%)", "Paris", 0.8123f64 * 100.0),
            String::new(),
            format!("  L{:2}: {} F{:<5} gate={:+.1}  → {:15} [{}]", 5, format!("{:<14}", "capital"), 77, 4.25f64, "Paris", "Paris, Lyon"),
            format!("  L{:2}: {} F{:<5} gate={:+.1}  → {:15} [{}]", 5, format!("{:14}", ""), 3, -1.0f64, "the", ""),
            format!("\n{:.0}ms (remote)", 12.4f64),
        ]
    );
    let only = explain_infer_lines(&result(), "x", None, true, false, &numbers());
    assert_eq!(only.len(), 5);
    assert_eq!(only[0], format!("Inference trace for {:?}:", "x"));
}

#[test]
fn explain_trace_with_attention() {
    let out = explain_infer_lines(&result(), "The capital", None, false, true, &numbers());
    assert_eq!(
        out[3],
        format!(
            "  L{:2}  {:<19}  {:<16} → {}",
            5,
            format!("{:<14} {:+.1}", "capital", 4.25f64),
            format!("{}({:.0}%)", "France", 50.0f64),
            format!("{} ({:.1}%)", "Paris", 25.0f64)
        )
    );
    // The second layer has no feature and no lens: no line.
    assert_eq!(out.len(), 5);
    let bare = obj(vec![("trace", JsonValue::Array(vec![obj(vec![("layer", num(1)), ("lens", obj(vec![("token", text("a")), ("probability", float(0.1))]))])]))]);
    let nums = TraceNumbers {
        prediction: String::new(),
        gates: vec![vec![]],
        attention: vec![String::new()],
        lens: vec!["10.0".to_string()],
        latency: String::new(),
    };
    let out = explain_infer_lines(&bare, "p", None, false, true, &nums);
    assert_eq!(
        out,
        vec![
            format!("Inference trace for {:?}:", "p"),
            String::new(),
            format!("  L{:2}  {:<19}  {:<16} → {}", 1, format!("{:19}", ""), "", "a (10.0%)"),
        ]
    );
}

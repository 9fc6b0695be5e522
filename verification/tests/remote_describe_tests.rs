use larql::lql::{DescribeMode, LayerBand};
use larql::remote::{JsonNumber, JsonValue};
use larql::remote_describe::{describe_query_params, remote_describe_lines, LocalInsert};

fn obj(members: Vec<(&str, JsonValue)>) -> JsonValue {
    JsonValue::Object(members.into_iter().map(|(k, v)| (k.to_string(), v)).collect())
}

fn num(n: u64) -> JsonValue {
    JsonValue::Number(JsonNumber::PosInt(n))
}

fn float(x: f64) -> JsonValue {
    JsonValue::Number(JsonNumber::Float(x.to_bits()))
}

fn text(s: &str) -> JsonValue {
    JsonValue::String(s.to_string())
}

fn pairs(q: &[(&str, &str)]) -> Vec<(String, String)> {
    q.iter().map(|(k, v)| (k.to_string(), v.to_string())).collect()
}

#[test]
fn describe_query_defaults_to_all_layers() {
    let q = describe_query_params("France", None, None, false, DescribeMode::Brief);
    assert_eq!(
        q,
        pairs(&[("entity", "France"), ("band", "all"), ("verbose", "false"), ("mode", "brief")])
    );
    let q = describe_query_params("France", Some(LayerBand::Knowledge), Some(26), true, DescribeMode::Verbose);
    assert_eq!(
        q,
        pairs(&[
            ("entity", "France"),
            ("band", "knowledge"),
            ("verbose", "true"),
            ("mode", "verbose"),
            ("layer", "26"),
            ("relations_only", "true"),
        ])
    );
    let q = describe_query_params("x", Some(LayerBand::Syntax), None, false, DescribeMode::Raw);
    assert_eq!(q[1], ("band".to_string(), "syntax".to_string()));
    assert_eq!(q[3], ("mode".to_string(), "raw".to_string()));
}

fn edge_body() -> JsonValue {
    obj(vec![
        (
            "edges",
            JsonValue::Array(vec![
                obj(vec![
                    ("target", text("Paris")),
                    ("gate_score", float(12.34)),
                    ("layer", num(26)),
                    ("relation", text("capital")),
                    ("source", text("probe")),
                    ("also", JsonValue::Array(vec![text("Lyon"), num(3), text("Nice")])),
                ]),
                obj(vec![("gate_score", float(3.0))]),
            ]),
        ),
        ("latency_ms", float(4.25)),
    ])
}

#[test]
fn describe_edges_by_mode() {
    let body = edge_body();
    let gates = vec![format!("{:.1}", 12.34f64), format!("{:.1}", 3.0f64)];
    let latency = format!("{:.1}", 4.25f64);
    let brief = remote_describe_lines("France", DescribeMode::Brief, &body, &gates, &latency, &vec![], &vec![]);
    assert_eq!(
        brief,
        vec![
            "France".to_string(),
            format!("    {} → {:20} {:>7.1}  L{:<3}{}{}", format!("{:<12}", "capital"), "Paris", 12.34f64, 26, "  (probe)", ""),
            format!("    {} → {:20} {:>7.1}  L{:<3}{}{}", format!("{:<12}", ""), "?", 3.0f64, 0, "", ""),
            format!("\n{:.1}ms (remote)", 4.25f64),
        ]
    );
    let verbose = remote_describe_lines("France", DescribeMode::Verbose, &body, &gates, &latency, &vec![], &vec![]);
    assert!(verbose[1].ends_with("  (probe)  also: Lyon, Nice"));
    let raw = remote_describe_lines("France", DescribeMode::Raw, &body, &gates, &latency, &vec![], &vec![]);
    assert_eq!(
        raw[1],
        format!("    {} → {:20} {:>7.1}  L{:<3}{}{}", format!("{:<12}", ""), "Paris", 12.34f64, 26, "", "  also: Lyon, Nice")
    );
}

#[test]
fn describe_without_edges_shows_followups() {
    let body = obj(vec![
        ("edges", JsonValue::Array(vec![])),
        ("followup_note", text("No stored edges.\r\n\nTry a walk.\n")),
        ("followup_walk", JsonValue::Array(vec![text("L26 F9: Paris"), JsonValue::Null])),
        ("followup_infer", JsonValue::Null),
        ("followup_infer_error", text("no weights")),
    ]);
    let out = remote_describe_lines("Atlantis", DescribeMode::Brief, &body, &vec![], "0.0", &vec!["ignored".to_string()], &vec![]);
    assert_eq!(
        out,
        vec![
            "Atlantis".to_string(),
            "  (no edges found)".to_string(),
            String::new(),
            "  No stored edges.".to_string(),
            "  Try a walk.".to_string(),
            String::new(),
            "  EXPLAIN WALK —".to_string(),
            "    L26 F9: Paris".to_string(),
            String::new(),
            "  EXPLAIN INFER — skipped (no weights)".to_string(),
        ]
    );

    let body = obj(vec![
        ("edges", JsonValue::Array(vec![])),
        ("followup_infer", obj(vec![("predictions", JsonValue::Array(vec![]))])),
        ("followup_infer_error", text("not shown")),
    ]);
    let infer = vec!["L20: Paris".to_string(), "L21: France".to_string()];
    let out = remote_describe_lines("Atlantis", DescribeMode::Brief, &body, &vec![], "0.0", &infer, &vec![]);
    assert_eq!(
        out,
        vec![
            "Atlantis".to_string(),
            "  (no edges found)".to_string(),
            String::new(),
            "  EXPLAIN INFER —".to_string(),
            "    L20: Paris".to_string(),
            "    L21: France".to_string(),
        ]
    );
}

#[test]
fn describe_overlays_local_patch_edges() {
    let body = obj(vec![("edges", JsonValue::Array(vec![]))]);
    let inserts = vec![
        LocalInsert {
            entity: "FRANCE".to_string(),
            relation: Some("capital".to_string()),
            target: "Paris".to_string(),
            layer: 26,
            confidence_text: format!("{:.2}", 0.9f64),
        },
        LocalInsert {
            entity: "Spain".to_string(),
            relation: None,
            target: "Madrid".to_string(),
            layer: 20,
            confidence_text: format!("{:.2}", 0.5f64),
        },
        LocalInsert {
            entity: "france".to_string(),
            relation: None,
            target: "Europe".to_string(),
            layer: 3,
            confidence_text: format!("{:.2}", 0.75f64),
        },
    ];
    let out = remote_describe_lines("France", DescribeMode::Brief, &body, &vec![], "0.0", &vec![], &inserts);
    assert_eq!(
        out,
        vec![
            "France".to_string(),
            "  (no edges found)".to_string(),
            "  Local patch edges:".to_string(),
            format!("    {} → {:20} {:>7.2}  L{:<3}  (local)", format!("{:<12}", "capital"), "Paris", 0.9f64, 26),
            format!("    {} → {:20} {:>7.2}  L{:<3}  (local)", format!("{:<12}", ""), "Europe", 0.75f64, 3),
        ]
    );
    let none = remote_describe_lines("Italy", DescribeMode::Brief, &obj(vec![]), &vec![], "0.0", &vec![], &inserts);
    assert_eq!(none, vec!["Italy".to_string()]);
}

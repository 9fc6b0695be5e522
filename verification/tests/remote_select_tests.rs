use larql::lql::{CompareOp, Condition, NearestClause, OrderBy, Value};
use larql::remote::{JsonNumber, JsonValue};
use larql::remote_select::{remote_select_lines, remote_select_plan, select_warning};

fn cond(field: &str, value: Value) -> Condition {
    Condition { field: field.to_string(), op: CompareOp::Eq, value }
}

fn obj(members: Vec<(&str, JsonValue)>) -> JsonValue {
    JsonValue::Object(members.into_iter().map(|(k, v)| (k.to_string(), v)).collect())
}

fn num(n: u64) -> JsonValue {
    JsonValue::Number(JsonNumber::PosInt(n))
}

fn text(s: &str) -> JsonValue {
    JsonValue::String(s.to_string())
}

#[test]
fn select_plan_takes_the_last_of_each_filter() {
    let conds = vec![
        cond("entity", Value::String("France".to_string())),
        cond("layer", Value::Integer(26)),
        cond("colour", Value::String("red".to_string())),
        cond("entity", Value::String("Spain".to_string())),
        cond("layer", Value::String("high".to_string())),
        cond("confidence", Value::Number("0.5".to_string())),
        cond("relation", Value::Integer(3)),
        cond("c_score", Value::Integer(1)),
        cond("shape", Value::Integer(1)),
    ];
    let plan = remote_select_plan(&conds, None, &vec![], None, None);
    assert_eq!(plan.limit, 20);
    assert!(plan.order.is_none());
    assert!(plan.fields.is_none());
    assert!(plan.nearest.is_none());
    assert_eq!(plan.entity.as_deref(), Some("Spain"));
    assert_eq!(plan.relation, None);
    assert_eq!(plan.layer, Some(26));
    assert!(matches!(plan.confidence_floor, Some(Value::Integer(1))));
    assert_eq!(plan.unknown_fields, vec!["colour".to_string(), "shape".to_string()]);
    assert_eq!(
        select_warning(&plan).as_deref(),
        Some("Warning: SELECT ignored unknown condition fields: colour, shape")
    );

    let fields = vec!["target".to_string(), "layer".to_string()];
    let near = NearestClause { entity: "Paris".to_string(), layer: 20 };
    let order = OrderBy { field: "c_score".to_string(), descending: false };
    let plan = remote_select_plan(&[], Some(5), &fields, Some(&near), Some(&order));
    assert_eq!(plan.limit, 5);
    assert_eq!(plan.fields, Some(fields));
    let o = plan.order.unwrap();
    assert_eq!(o.field, "c_score");
    assert!(!o.descending);
    let n = plan.nearest.unwrap();
    assert_eq!((n.entity.as_str(), n.layer), ("Paris", 20));
    assert!(plan.entity.is_none() && plan.layer.is_none() && plan.confidence_floor.is_none());
    assert!(select_warning(&remote_select_plan(&[], None, &vec![], None, None)).is_none());
}

#[test]
fn select_reply_table() {
    let body = obj(vec![
        (
            "edges",
            JsonValue::Array(vec![
                obj(vec![("layer", num(26)), ("feature", num(9515)), ("target", text("Paris")), ("relation", text("capital"))]),
                obj(vec![("layer", num(3))]),
            ]),
        ),
        ("total", num(2)),
    ]);
    let scores = vec![format!("{:.3}", 0.875f64), format!("{:.3}", 0.0f64)];
    let out = remote_select_lines(&body, &scores);
    assert_eq!(
        out,
        vec![
            format!("  {:<20} {:<15} {:>6}  {:<6} {}", "Target", "Relation", "Score", "Layer", "Feature"),
            format!("  {}", "-".repeat(65)),
            format!("  {:<20} {:<15} {:>6.3}  L{:<5} F{}", "Paris", "capital", 0.875f64, 26, 9515),
            format!("  {:<20} {:<15} {:>6.3}  L{:<5} F{}", "?", "", 0.0f64, 3, 0),
            "\n2 total".to_string(),
        ]
    );
    let empty = obj(vec![("edges", JsonValue::Array(vec![]))]);
    assert_eq!(remote_select_lines(&empty, &vec![]), vec!["  (no matching edges)".to_string()]);
    assert!(remote_select_lines(&obj(vec![]), &vec![]).is_empty());
}

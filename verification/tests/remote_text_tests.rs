use larql::remote::{JsonNumber, JsonValue};
use larql::lql::{Assignment, CompareOp, Condition, Value};
use larql::remote::LqlError;
use larql::remote_text::{
    applied_patch_message, connected_message, deleted_message, layers_header, local_layer_line, edit_patch_description, layers_query_params, plan_remote_edit,
    remove_local_patch, show_layers_lines, show_models_lines, show_patches_lines, update_target,
    updated_message, PatchSummary, RemoteEditTarget,
};

fn obj(members: Vec<(&str, JsonValue)>) -> JsonValue {
    JsonValue::Object(members.into_iter().map(|(k, v)| (k.to_string(), v)).collect())
}

fn num(n: u64) -> JsonValue {
    JsonValue::Number(JsonNumber::PosInt(n))
}

fn text(s: &str) -> JsonValue {
    JsonValue::String(s.to_string())
}

#[test]
fn remote_models_listing() {
    let body = obj(vec![(
        "models",
        JsonValue::Array(vec![
            obj(vec![("id", text("gemma3-4b")), ("features", num(348160)), ("loaded", JsonValue::Bool(true)), ("path", text("/v1/gemma"))]),
            obj(vec![("features", text("many"))]),
        ]),
    )]);
    let out = show_models_lines(&body);
    assert_eq!(
        out,
        vec![
            format!("{:<35} {:>10} {:>8} {:>12}", "Model", "Features", "Status", "Path"),
            "-".repeat(70),
            format!("{:<35} {:>10} {:>8} {:>12}", "gemma3-4b", 348160, "loaded", "/v1/gemma"),
            format!("{:<35} {:>10} {:>8} {:>12}", "?", 0, "unloaded", "/v1"),
        ]
    );
    assert_eq!(show_models_lines(&JsonValue::Null).len(), 2);
}

#[test]
fn remote_layers_listing() {
    let body = obj(vec![(
        "layers",
        JsonValue::Array(vec![obj(vec![
            ("layer", num(3)),
            ("features", num(10240)),
            ("with_meta", num(9000)),
            ("top_token", text("Paris")),
        ])]),
    )]);
    let out = show_layers_lines(&body);
    assert_eq!(out[0], format!("{:<8} {:>10} {:>10} {:>15}", "Layer", "Features", "With Meta", "Top Token"));
    assert_eq!(out[1], "-".repeat(48));
    assert_eq!(out[2], format!("{:<8} {:>10} {:>10} {:>15}", 3, 10240, 9000, "Paris"));
    let q = layers_query_params(Some((2, 5)));
    assert_eq!(q, vec![("start".to_string(), "2".to_string()), ("end".to_string(), "5".to_string())]);
    assert!(layers_query_params(None).is_empty());
}

#[test]
fn remote_patches_listing() {
    assert_eq!(show_patches_lines(&Vec::new()), vec!["  (no local patches)".to_string()]);
    let ps = vec![
        PatchSummary { description: Some("fix capitals".to_string()), inserts: 2, updates: 1, deletes: 0 },
        PatchSummary { description: None, inserts: 0, updates: 0, deletes: 3 },
    ];
    assert_eq!(
        show_patches_lines(&ps),
        vec![
            "Local patches (client-side only):".to_string(),
            "  - fix capitals (ins=2, upd=1, del=0)".to_string(),
            "  - unnamed (ins=0, upd=0, del=3)".to_string(),
        ]
    );
    assert_eq!(
        applied_patch_message("p.vlp", 3, &ps[0]),
        "Applied locally: p.vlp (3 ops: 2 ins, 1 upd, 0 del)\nPatch stays client-side — server never sees it."
    );
}

fn patch(desc: Option<&str>) -> PatchSummary {
    PatchSummary { description: desc.map(|d| d.to_string()), inserts: 1, updates: 0, deletes: 0 }
}

#[test]
fn local_patches_are_removed_by_index_or_description() {
    let mut ps = vec![patch(Some("a")), patch(None), patch(Some("b"))];
    assert_eq!(remove_local_patch(&mut ps, "1").unwrap(), "Removed local patch #1: unnamed");
    assert_eq!(ps.len(), 2);
    assert_eq!(remove_local_patch(&mut ps, "b").unwrap(), "Removed local patch #1: b");
    match remove_local_patch(&mut ps, "7") {
        Err(LqlError::Execution(m)) => assert_eq!(m, "local patch not found: 7 (use index or description)"),
        _ => panic!("expected an error"),
    }
    assert_eq!(ps.len(), 1);
}

fn cond(field: &str, value: Value) -> Condition {
    Condition { field: field.to_string(), op: CompareOp::Eq, value }
}

#[test]
fn remote_edits_pick_their_features() {
    match plan_remote_edit(&[cond("layer", Value::Integer(3)), cond("feature", Value::Integer(7))], "DELETE") {
        Ok(RemoteEditTarget::Feature { layer, feature }) => assert_eq!((layer, feature), (3, 7)),
        _ => panic!("expected a feature"),
    }
    match plan_remote_edit(&[cond("entity", Value::String("Paris".to_string())), cond("layer", Value::Integer(2))], "UPDATE") {
        Ok(RemoteEditTarget::Entity { entity, layer }) => {
            assert_eq!(entity, "Paris");
            assert_eq!(layer, Some(2));
        }
        _ => panic!("expected an entity"),
    }
    match plan_remote_edit(&[cond("layer", Value::Integer(3))], "DELETE") {
        Err(LqlError::Execution(m)) => assert_eq!(m, "DELETE requires either layer+feature or entity"),
        _ => panic!("expected an error"),
    }
    let set = vec![
        Assignment { field: "confidence".to_string(), value: Value::Integer(1) },
        Assignment { field: "top_token".to_string(), value: Value::String("Lyon".to_string()) },
    ];
    assert_eq!(update_target(&set).as_deref(), Some("Lyon"));
    assert_eq!(edit_patch_description("DELETE", 2), "DELETE 2 feature(s)");
    assert_eq!(deleted_message(2), "Deleted: 2 feature(s) → remote server");
    assert_eq!(updated_message(1, &Some("Lyon".to_string())), "Updated: 1 feature(s) target=Lyon → remote server");
    assert_eq!(updated_message(4, &None), "Updated: 4 feature(s) → remote server");
}

#[test]
fn connected_message_names_model_and_url() {
    let stats = obj(vec![("model", text("gemma3-4b")), ("layers", num(34)), ("features", num(348160))]);
    assert_eq!(
        connected_message(&stats, "http://host:8080//"),
        "Connected: gemma3-4b (34 layers, 348160 features)\n  Remote: http://host:8080"
    );
    assert_eq!(
        connected_message(&JsonValue::Null, "u"),
        "Connected: unknown (0 layers, 0 features)\n  Remote: u"
    );
    assert_eq!(larql::terminal::trim_trailing_slashes("a/b//"), "a/b");
}

#[test]
fn local_layer_lines() {
    assert_eq!(
        local_layer_line(5, 10240, 9000, "Paris"),
        format!("L{:<7} {:>10} {:>10} {:>15}", 5, "10.2K", "9.0K", "Paris")
    );
    let h = layers_header();
    assert_eq!(h[0], format!("{:<8} {:>10} {:>10} {:>15}", "Layer", "Features", "With Meta", "Top Token"));
    assert_eq!(h[1], "-".repeat(48));
}

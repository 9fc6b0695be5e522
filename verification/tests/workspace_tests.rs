use larql::workspace::{
    check_workspace_path, preview_probe_relations, preview_relation_labels, slug_of_lowercase,
    slugify, workspace_capabilities, RelationLabel, WorkspaceFindings,
};

#[test]
fn slugify_makes_ids() {
    assert_eq!(slugify("My Vindex_v2 (Gemma)"), "my-vindex-v2-gemma");
    assert_eq!(slugify("gemma3-4b.vindex"), "gemma3-4b-vindex");
    assert_eq!(slugify("---"), "item");
    assert_eq!(slugify(""), "item");
    assert_eq!(slugify("Ünïcode"), "n-code");
    // The Kelvin sign lowercases to an ASCII `k`.
    assert_eq!(slugify("\u{212A}"), "k");
    assert_eq!(slug_of_lowercase("--a--b--"), "a-b");
}

#[test]
fn workspace_path_checks_in_order() {
    assert_eq!(
        check_workspace_path("/x", false, false, false),
        Err("Workspace path does not exist: /x".to_string())
    );
    assert_eq!(
        check_workspace_path("/x", true, false, true),
        Err("Workspace path is not directory: /x".to_string())
    );
    assert_eq!(
        check_workspace_path("/x", true, true, false),
        Err("Missing index.json in workspace: /x".to_string())
    );
    assert_eq!(check_workspace_path("/x", true, true, true), Ok(()));
}

#[test]
fn previews_are_capped() {
    let labels: Vec<RelationLabel> = (0..70)
        .map(|i| RelationLabel {
            name: format!("r{i}"),
            count: i,
            cluster_id: i + 1,
            top_tokens: (0..10).map(|t| format!("t{t}")).collect(),
        })
        .collect();
    let preview = preview_relation_labels(labels);
    assert_eq!(preview.len(), 60);
    assert_eq!(preview[59].name, "r59");
    assert_eq!(preview[0].top_tokens.len(), 8);
    assert_eq!(preview[0].top_tokens[7], "t7");
    let probes: Vec<(String, usize)> = (0..3).map(|i| (format!("p{i}"), i)).collect();
    assert_eq!(preview_probe_relations(probes.clone()), probes);
}

fn findings() -> WorkspaceFindings {
    WorkspaceFindings {
        has_model_weights: true,
        has_layer_bands: true,
        relation_count: 4,
        num_probe_labels: 0,
        mlx_available: true,
        lql_probe: Ok(()),
        walk_model_probe: Some(Ok(())),
    }
}

#[test]
fn complete_workspace_has_every_capability() {
    let caps = workspace_capabilities(&findings());
    assert!(caps.supports_infer && caps.supports_mlx && caps.supports_lql && caps.supports_walk_model);
    assert!(caps.has_relation_labels);
    assert!(caps.warnings.is_empty());
}

#[test]
fn missing_pieces_are_warned_of_in_order() {
    let f = WorkspaceFindings {
        has_model_weights: false,
        relation_count: 0,
        num_probe_labels: 3,
        mlx_available: false,
        lql_probe: Err("bad index".to_string()),
        walk_model_probe: None,
        ..findings()
    };
    let caps = workspace_capabilities(&f);
    assert!(!caps.supports_lql && !caps.supports_walk_model && !caps.supports_mlx);
    assert!(caps.has_relation_labels);
    assert_eq!(
        caps.warnings,
        vec![
            "LQL session probe failed: bad index".to_string(),
            "No model weights. Inference, trace, and mmap WalkModel disabled.".to_string(),
            "No cluster catalogue (relations() empty); probe labels present — describe may still show relations with source=probe.".to_string(),
            "MLX deps missing. MLX generation disabled.".to_string(),
        ]
    );

    let walk_failed = WorkspaceFindings { walk_model_probe: Some(Err("oom".to_string())), ..findings() };
    assert_eq!(
        workspace_capabilities(&walk_failed).warnings,
        vec!["WalkModel load failed: oom".to_string()]
    );
    let browse_only = WorkspaceFindings {
        has_model_weights: false,
        walk_model_probe: None,
        relation_count: 0,
        ..findings()
    };
    assert_eq!(
        workspace_capabilities(&browse_only).warnings,
        vec![
            "No model weights. Browse and LQL ready. Inference, trace, and mmap WalkModel disabled.".to_string(),
            "No cluster relation catalogue (relations() empty) and no probe labels — describe edges may be sparse.".to_string(),
        ]
    );
}

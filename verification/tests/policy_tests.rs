use larql::policy::{
    assert_safe_piece, check_embedded_pack_keys, draft_custom_facts_json, embedded_ceremony_debt_source_paths_expectation,
    fingerprint_under_policies, manifest_paths_lexicographic, policy_input_fields_from_draft,
    preview_draft_from_ci_fixture, sort_policy_pack_fingerprints, split_nonempty_lines, str_lt,
    CeremonyDebtSnapshotError, PolicyEvalPreviewDraft, PolicyInputFields, PolicySourceFingerprint,
    PreviewFactsSpecification, SnapshotError, POLICY_REPO_FINGERPRINT_PREFIX,
};

fn fp(path: &str, sha: &str) -> PolicySourceFingerprint {
    PolicySourceFingerprint { repo_relative_path: path.to_string(), content_sha256: sha.to_string() }
}

#[test]
fn policy_pack_fingerprints_are_sorted_for_body_hash_inputs() {
    let packs = vec![
        fp("governance/policies/rule-admission.toml", "4"),
        fp("governance/policies/ci.toml", "1"),
        fp("governance/policies/machine-runtime.toml", "3"),
        fp("governance/policies/machine-profile.toml", "2"),
    ];
    let sorted = sort_policy_pack_fingerprints(packs);
    let paths: Vec<&str> = sorted.iter().map(|f| f.repo_relative_path.as_str()).collect();
    let mut expected = paths.clone();
    expected.sort();
    assert_eq!(paths, expected);
    let shas: Vec<&str> = sorted.iter().map(|f| f.content_sha256.as_str()).collect();
    assert_eq!(shas, vec!["1", "2", "3", "4"]);
}

#[test]
fn sorting_keeps_equal_paths_in_input_order() {
    let packs = vec![fp("b", "first"), fp("a", "x"), fp("b", "second"), fp("", "empty"), fp("b", "third")];
    let sorted = sort_policy_pack_fingerprints(packs);
    let pairs: Vec<(&str, &str)> = sorted
        .iter()
        .map(|f| (f.repo_relative_path.as_str(), f.content_sha256.as_str()))
        .collect();
    assert_eq!(pairs, vec![("", "empty"), ("a", "x"), ("b", "first"), ("b", "second"), ("b", "third")]);
    assert!(sort_policy_pack_fingerprints(vec![]).is_empty());
}

#[test]
fn string_order_matches_str_ord() {
    let words = ["", "a", "ab", "b", "Z", "é", "z", "aa", "a\u{10000}", "a\u{FFFF}"];
    for x in words {
        for y in words {
            assert_eq!(str_lt(x, y), x < y, "{x:?} < {y:?}");
        }
    }
}

#[test]
fn safe_pieces_stay_inside_the_repository() {
    assert!(assert_safe_piece("ci.toml").is_ok());
    assert!(assert_safe_piece("packs/a.b.toml").is_ok());
    match assert_safe_piece("") {
        Err(SnapshotError::InvalidFingerprint(m)) => assert_eq!(m, "path piece must not be empty"),
        other => panic!("{other:?}"),
    }
    for bad in ["../x", "a..b", "/etc/passwd", "\\share", "C:x", "a:b"] {
        match assert_safe_piece(bad) {
            Err(SnapshotError::InvalidFingerprint(m)) => {
                assert_eq!(m, format!("unsafe repo-relative fingerprint piece: {bad:?}"))
            }
            other => panic!("{bad}: {other:?}"),
        }
    }
}

#[test]
fn fingerprints_use_slashes_under_the_policy_prefix() {
    assert_eq!(fingerprint_under_policies("ci.toml").unwrap(), "governance/policies/ci.toml");
    assert_eq!(fingerprint_under_policies("packs\\ci.toml").unwrap(), "governance/policies/packs/ci.toml");
    assert_eq!(POLICY_REPO_FINGERPRINT_PREFIX, "governance/policies");
    assert!(fingerprint_under_policies("../ci.toml").is_err());
}

#[test]
fn embedded_ceremony_manifest_is_in_order() {
    let paths = embedded_ceremony_debt_source_paths_expectation();
    assert_eq!(paths.len(), 6);
    assert_eq!(paths[0], "governance/ceremonies/budgets.toml");
    assert_eq!(paths[5], "governance/decision_surface/registry.toml");
    let manifest: Vec<(&str, &str)> = paths.iter().map(|p| (p.as_str(), "")).collect();
    assert!(manifest_paths_lexicographic(&manifest).is_ok());
}

#[test]
fn manifest_out_of_order_is_refused_with_both_orders() {
    let manifest = vec![("b.toml", "x"), ("a.toml", "y")];
    match manifest_paths_lexicographic(&manifest) {
        Err(CeremonyDebtSnapshotError::Invalid(m)) => assert_eq!(
            m,
            "EMBEDDED_CEREMONY_DEBT must list repo_relative_path keys in lexicographic order (declared [\"b.toml\", \"a.toml\"], sorted [\"a.toml\", \"b.toml\"])"
        ),
        Ok(()) => panic!("out of order"),
    }
    assert!(manifest_paths_lexicographic(&[]).is_ok());
    assert!(manifest_paths_lexicographic(&[("a", ""), ("a", "")]).is_ok());
}

#[test]
fn lines_are_trimmed_and_empty_ones_dropped() {
    assert_eq!(split_nonempty_lines("  a \r\n\n b\t\n  \n"), vec!["a", "b"]);
    assert_eq!(split_nonempty_lines(""), Vec::<String>::new());
    assert_eq!(split_nonempty_lines("x\ry"), vec!["x\ry"]);
}

#[test]
fn draft_round_trips_through_policy_input_fields() {
    let fixture = PolicyInputFields {
        actor: "ci".to_string(),
        action: "merge".to_string(),
        state_hash: "abc".to_string(),
        risk: 3,
        target_paths: vec!["src/a.rs".to_string(), "src/b.rs".to_string()],
        evidence: vec![],
    };
    let draft = preview_draft_from_ci_fixture(&fixture);
    assert_eq!(draft.target_paths_raw, "src/a.rs\nsrc/b.rs");
    assert_eq!(draft.evidence_raw, "");
    assert!(matches!(draft.facts, PreviewFactsSpecification::Fixture));
    let back = policy_input_fields_from_draft(&draft);
    assert_eq!(back.actor, "ci");
    assert_eq!(back.target_paths, fixture.target_paths);
    assert!(back.evidence.is_empty());
    assert_eq!(back.risk, 3);
}

#[test]
fn draft_defaults_and_custom_facts() {
    let mut draft = PolicyEvalPreviewDraft::default();
    assert_eq!(draft.actor, "");
    assert_eq!(draft.risk, 0);
    assert!(matches!(draft_custom_facts_json(&draft), Ok(None)));
    draft.facts = PreviewFactsSpecification::CustomJson("   ".to_string());
    match draft_custom_facts_json(&draft) {
        Err(SnapshotError::Draft(m)) => assert_eq!(m, "facts custom json payload is empty"),
        other => panic!("{other:?}"),
    }
    draft.facts = PreviewFactsSpecification::CustomJson(" [] ".to_string());
    assert_eq!(draft_custom_facts_json(&draft).unwrap(), Some("[]".to_string()));
    draft.actor = "  me ".to_string();
    assert_eq!(policy_input_fields_from_draft(&draft).actor, "me");
    assert!(matches!(PreviewFactsSpecification::default(), PreviewFactsSpecification::Fixture));
}

fn names(items: &[&str]) -> Vec<String> {
    items.iter().map(|s| s.to_string()).collect()
}

#[test]
fn embedded_pack_keys_are_compared_sorted() {
    assert!(check_embedded_pack_keys(names(&["b.toml", "a.toml"]), names(&["a.toml", "b.toml"])).is_ok());
    assert!(check_embedded_pack_keys(Vec::new(), Vec::new()).is_ok());
    match check_embedded_pack_keys(names(&["b.toml", "a.toml"]), names(&["c.toml", "a.toml"])) {
        Err(SnapshotError::InvalidFingerprint(m)) => assert_eq!(
            m,
            "embedded policy pack map keys [\"a.toml\", \"c.toml\"] differ from index includes [\"a.toml\", \"b.toml\"]"
        ),
        other => panic!("unexpected {:?}", other),
    }
    assert!(check_embedded_pack_keys(names(&["a.toml", "a.toml"]), names(&["a.toml"])).is_err());
}

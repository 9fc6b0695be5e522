use larql::workbench_forms::{eraser_run_request, record_history, save_snippet};

fn strings(items: &[&str]) -> Vec<String> {
    items.iter().map(|s| s.to_string()).collect()
}

#[test]
fn eraser_form_checks_top_k_before_the_workspace() {
    assert_eq!(eraser_run_request("", "0", "").unwrap_err(), "top_k must be a positive integer");
    assert_eq!(eraser_run_request("/w", "-3", "").unwrap_err(), "top_k must be a positive integer");
    assert_eq!(eraser_run_request("/w", "ten", "").unwrap_err(), "top_k must be a positive integer");
    assert_eq!(eraser_run_request("   ", " 40 ", "").unwrap_err(), "Workspace path is required");
}

#[test]
fn eraser_form_trims_its_fields() {
    let req = eraser_run_request("  /models/a.vindex ", " +40\n", "  ").unwrap();
    assert_eq!(req.workspace_path, "/models/a.vindex");
    assert_eq!(req.top_k, 40);
    assert!(req.output_path.is_none());
    let req = eraser_run_request("/w", "1", " out.json ").unwrap();
    assert_eq!(req.output_path.as_deref(), Some("out.json"));
}

#[test]
fn history_moves_a_repeated_query_to_the_front() {
    let h = record_history(strings(&["STATS", "WALK x", "STATS"]), "  WALK x ");
    assert_eq!(h, strings(&["WALK x", "STATS", "STATS"]));
    let h = record_history(strings(&["STATS", "WALK x"]), "STATS");
    assert_eq!(h, strings(&["STATS", "WALK x"]));
    assert_eq!(record_history(strings(&["STATS"]), "   "), strings(&["STATS"]));
}

#[test]
fn history_keeps_twelve_entries() {
    let items: Vec<String> = (0..12).map(|i| format!("Q{i}")).collect();
    let h = record_history(items, "NEW");
    assert_eq!(h.len(), 12);
    assert_eq!(h[0], "NEW");
    assert_eq!(h[11], "Q10");
}

#[test]
fn snippets_are_saved_once_and_capped_at_sixteen() {
    let s = save_snippet(strings(&["STATS"]), " DESCRIBE \"France\" ");
    assert_eq!(s, strings(&["DESCRIBE \"France\"", "STATS"]));
    let s = save_snippet(strings(&["STATS", "WALK x"]), "WALK x");
    assert_eq!(s, strings(&["STATS", "WALK x"]));
    assert_eq!(save_snippet(strings(&["STATS"]), ""), strings(&["STATS"]));
    let items: Vec<String> = (0..20).map(|i| format!("S{i}")).collect();
    assert_eq!(save_snippet(items.clone(), "S3").len(), 16);
    assert_eq!(save_snippet(items, "").len(), 20);
}

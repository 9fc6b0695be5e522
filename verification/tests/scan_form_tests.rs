use larql::scan_form::{scan_request, ScanForm};

fn form(prompt: &str, mode: &str, truth: &str, false_spans: &str) -> ScanForm {
    ScanForm {
        server_url: " http://127.0.0.1:8080 ".to_string(),
        prompt: prompt.to_string(),
        mode: mode.to_string(),
        truth_spans: truth.to_string(),
        false_spans: false_spans.to_string(),
        coherence_markers: "so, then".to_string(),
        max_generated_tokens: " 4 ".to_string(),
    }
}

fn error_of(f: &ScanForm) -> String {
    match scan_request(f, None) {
        Err(e) => e,
        Ok(_) => panic!("expected an error"),
    }
}

#[test]
fn scan_form_checks_before_sending() {
    assert_eq!(error_of(&form("  ", "fact_probe", "Paris", "")), "Please enter a prompt");
    assert_eq!(error_of(&form("p", "probe", "Paris", "")), "Mode must be fact_probe or workflow_probe");
    assert_eq!(
        error_of(&form("p", "fact_probe", " , ", "")),
        "FACT_PROBE requires at least one TRUTH_SPAN or FALSE_SPAN"
    );
    assert_eq!(error_of(&form("p", "Workflow_Probe", "Paris", "")), "WORKFLOW_PROBE requires FALSE_SPANS");
}

#[test]
fn scan_form_builds_the_request() {
    let q = scan_request(&form(" The capital of France is ", " FACT_PROBE ", "Paris, ,France", "Lyon"), Some("0.05".to_string()))
        .ok()
        .unwrap();
    assert_eq!(q.server_url, "http://127.0.0.1:8080");
    assert_eq!(q.prompt, "The capital of France is");
    assert_eq!(q.top_k, 5);
    assert_eq!(q.mode, "fact_probe");
    assert_eq!(q.truth_spans, vec!["Paris".to_string(), "France".to_string()]);
    assert_eq!(q.materially_false_spans, vec!["Lyon".to_string()]);
    assert_eq!(q.coherence_markers, vec!["so".to_string(), "then".to_string()]);
    assert_eq!(q.max_generated_tokens, Some(4));
    assert_eq!(q.ridge_dead_zone.as_deref(), Some("0.05"));
    let q = scan_request(&form("p", "workflow_probe", "", "x"), None).ok().unwrap();
    assert!(q.truth_spans.is_empty());
}

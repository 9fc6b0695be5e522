use larql::lql::DescribeMode;
use larql::relations::{relation_scan_layers, relation_summary, show_relations_lines, RelationMeta};

fn meta(layer: usize, top: &str, content: bool, score: f32, top_k: &[(&str, bool)]) -> RelationMeta {
    RelationMeta {
        layer,
        top_token: top.to_string(),
        content,
        c_score: score.to_bits(),
        top_k: top_k.iter().map(|(t, c)| (t.to_string(), *c)).collect(),
    }
}

fn metas() -> Vec<RelationMeta> {
    vec![
        meta(14, " Paris", true, 0.5, &[("Paris", true), (" Lyon ", true), ("the", false), ("Nice", true), ("Rome", true), ("Oslo", true)]),
        meta(20, "paris", true, 0.9, &[]),
        meta(15, "Berlin", true, 0.25, &[]),
        meta(16, "of", false, 0.9, &[]),
        meta(17, "Madrid", true, 0.1, &[]),
        meta(22, "PARIS", true, 0.3, &[]),
    ]
}

#[test]
fn relation_scan_layer_choice() {
    assert_eq!(relation_scan_layers(Some(3), &vec![1, 2, 3]), vec![3]);
    assert_eq!(relation_scan_layers(None, &vec![2, 14, 20, 27, 28]), vec![14, 20, 27]);
}

#[test]
fn relation_tokens_are_gathered_by_token() {
    let s = relation_summary(&metas(), &vec![], DescribeMode::Brief);
    assert!(s.probes.is_empty());
    assert_eq!(s.total_labels, 0);
    assert_eq!(s.tokens.len(), 2);
    let p = &s.tokens[0];
    assert_eq!(p.original, "Paris");
    assert_eq!(p.count, 3);
    assert_eq!(p.max_score, 0.9f32.to_bits());
    assert_eq!((p.min_layer, p.max_layer), (14, 22));
    assert_eq!(p.examples, vec!["Lyon".to_string(), "Nice".to_string(), "Rome".to_string()]);
    assert_eq!(s.tokens[1].original, "Berlin");

    let scores: Vec<String> = s.tokens.iter().map(|t| format!("{:.2}", f32::from_bits(t.max_score))).collect();
    let out = show_relations_lines(&s, &scores, true, None);
    assert_eq!(
        out,
        vec![
            "Top output tokens (L14-27):".to_string(),
            format!("{:<25} {:>8} {:>8} {:>10}", "Token", "Count", "Score", "Layers"),
            "-".repeat(55),
            format!("{:<25} {:>8} {:>8.2} {:>5}-{}{}", "Paris", 3, 0.9f32, 14, 22, "  e.g. Lyon, Nice, Rome"),
            format!("{:<25} {:>8} {:>8.2} {:>5}-{}{}", "Berlin", 1, 0.25f32, 15, 15, ""),
        ]
    );
}

#[test]
fn relation_probe_labels_come_first() {
    let labels: Vec<String> = ["capital", "language", "capital"].iter().map(|s| s.to_string()).collect();
    let brief = relation_summary(&metas(), &labels, DescribeMode::Brief);
    assert_eq!(brief.total_labels, 3);
    assert_eq!(brief.probes, vec![("capital".to_string(), 2), ("language".to_string(), 1)]);
    assert!(brief.tokens.is_empty());
    let out = show_relations_lines(&brief, &vec![], false, Some(20));
    assert_eq!(
        out,
        vec![
            "Probe-confirmed relations (3 labels):".to_string(),
            format!("{:<25} {:>8}", "Relation", "Features"),
            "-".repeat(35),
            format!("{:<25} {:>8}", "capital", 2),
            format!("{:<25} {:>8}", "language", 1),
        ]
    );
    let verbose = relation_summary(&metas(), &labels, DescribeMode::Verbose);
    let scores = vec!["0.90".to_string(), "0.25".to_string()];
    let out = show_relations_lines(&verbose, &scores, false, Some(20));
    assert_eq!(out[5], String::new());
    assert_eq!(out[6], "Top output tokens (L20):");
    let raw = relation_summary(&metas(), &labels, DescribeMode::Raw);
    assert!(raw.probes.is_empty());
    assert_eq!(raw.total_labels, 0);
    assert_eq!(raw.tokens.len(), 2);
    let none = relation_summary(&vec![], &vec![], DescribeMode::Brief);
    assert_eq!(show_relations_lines(&none, &vec![], false, None), vec!["  (no relations found)".to_string()]);
}

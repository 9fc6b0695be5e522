use larql::lql::{CompareOp, Condition, ExportFormat, TokenGroupBy, TokenSortBy, Value};
use larql::token_summary::{
    band_scope_text, export_token_summary, kind_from_str, render_remote_tokens, shape_from_name,
    token_query_params, layer_scope_text, layers_scope_text, parse_token_filters,
    render_token_summary, show_tokens_grouped, TokenExport, TokenHit,
};

fn hit(
    shape: &str,
    kind: Option<&str>,
    hits: usize,
    bands: (usize, usize, usize),
    max_score: f32,
) -> TokenHit {
    TokenHit {
        shape: shape.to_string(),
        kind: kind.map(|k| k.to_string()),
        hits,
        syntax_hits: bands.0,
        knowledge_hits: bands.1,
        output_hits: bands.2,
        max_score: max_score.to_bits(),
    }
}

fn sample() -> Vec<(String, TokenHit)> {
    vec![
        ("Paris".to_string(), hit("capitalized", Some("place"), 5, (0, 5, 0), 0.5)),
        ("the".to_string(), hit("lowercase", None, 7, (7, 0, 0), 0.25)),
        ("France".to_string(), hit("capitalized", Some("place"), 3, (0, 2, 1), 0.75)),
        (String::new(), hit("empty", None, 1, (1, 0, 0), 0.1)),
    ]
}

fn shape_line(a: &str, b: &str, c: &str, d: &str, e: &str) -> String {
    format!("{:<12} {:>10} {:>12} {:>12} {:<24}", a, b, c, d, e)
}

fn class_line(a: &str, b: &str, c: &str, e: &str) -> String {
    format!("{:<12} {:>10} {:>12} {:<24}", a, b, c, e)
}

fn token_line(tok: &str, shape: &str, kind: &str, bands: &str, hits: usize, score: f32) -> String {
    format!("{:<24} {:<12} {:<10} {:<8} {:>10} {:>10.4}", tok, shape, kind, bands, hits, score)
}

#[test]
fn token_summary_renders_all_tables() {
    let out = render_token_summary("at layer 3".to_string(), sample(), true, None, None);
    let expected = vec![
        "Token summary at layer 3 (4 distinct top tokens):".to_string(),
        shape_line("Shape", "Distinct", "FeatHits", "EntityLike", "Examples"),
        "-".repeat(76),
        shape_line("capitalized", "2", "8", "2", "France, Paris"),
        shape_line("lowercase", "1", "7", "0", "the"),
        shape_line("empty", "1", "1", "0", ""),
        String::new(),
        "Entity-capable token classes:".to_string(),
        class_line("Type", "Distinct", "FeatHits", "Examples"),
        "-".repeat(62),
        class_line("place", "2", "8", "France, Paris"),
        String::new(),
        "Top matching tokens:".to_string(),
        format!(
            "{:<24} {:<12} {:<10} {:<8} {:>10} {:>10}",
            "Token", "Shape", "EntityType", "Bands", "Features", "Max Score"
        ),
        "-".repeat(82),
        token_line("the", "lowercase", "none", "S--", 7, 0.25),
        token_line("Paris", "capitalized", "place", "-K-", 5, 0.5),
        token_line("France", "capitalized", "place", "-KO", 3, 0.75),
        token_line("∅", "empty", "none", "S--", 1, 0.1),
    ];
    assert_eq!(out, expected);
}

#[test]
fn token_summary_without_tokens_says_so() {
    let out = render_token_summary("across 2 layers".to_string(), Vec::new(), true, None, None);
    assert_eq!(
        out,
        vec![
            "Token summary across 2 layers (0 distinct top tokens):".to_string(),
            shape_line("Shape", "Distinct", "FeatHits", "EntityLike", "Examples"),
            "-".repeat(76),
            "  (no tokens found)".to_string(),
        ]
    );
}

#[test]
fn token_summary_orders_and_limits_shapes() {
    let by_name = render_token_summary("x".to_string(), sample(), false, Some(TokenSortBy::Shape), Some(2));
    assert_eq!(by_name[3], shape_line("capitalized", "2", "8", "2", "France, Paris"));
    assert_eq!(by_name[4], shape_line("empty", "1", "1", "0", ""));
    assert_eq!(by_name[5], String::new());
    assert_eq!(by_name.len(), 10);

    let by_score = render_token_summary("x".to_string(), sample(), false, Some(TokenSortBy::MaxScore), None);
    assert_eq!(by_score[3], shape_line("capitalized", "2", "8", "2", "France, Paris"));
    assert_eq!(by_score[4], shape_line("lowercase", "1", "7", "0", "the"));
    assert_eq!(by_score[5], shape_line("empty", "1", "1", "0", ""));

    let by_entities = render_token_summary("x".to_string(), sample(), false, Some(TokenSortBy::EntityLike), None);
    assert_eq!(by_entities[3], shape_line("capitalized", "2", "8", "2", "France, Paris"));
    assert_eq!(by_entities[4], shape_line("empty", "1", "1", "0", ""));
    assert_eq!(by_entities[5], shape_line("lowercase", "1", "7", "0", "the"));
}

#[test]
fn token_summary_counts_large_groups_compactly() {
    let many = vec![("of".to_string(), hit("lowercase", None, 12_345, (12_345, 0, 0), -1.5))];
    let out = render_token_summary("x".to_string(), many, true, None, None);
    assert_eq!(out[3], shape_line("lowercase", "1", "12.3K", "0", "of"));
    assert_eq!(out[8], token_line("of", "lowercase", "none", "S--", 12_345, -1.5));
}

#[test]
fn token_summary_scores_print_to_four_places() {
    for score in [0.0f32, -0.0, 1.0e-5, 0.00005, 123456.79, 3.0e9, f32::INFINITY, f32::NAN] {
        let one = vec![("a".to_string(), hit("lowercase", None, 1, (1, 0, 0), score))];
        let out = render_token_summary("x".to_string(), one, true, None, None);
        assert_eq!(out[8], token_line("a", "lowercase", "none", "S--", 1, score));
    }
}

#[test]
fn token_export_csv_escapes_commas() {
    let mut hs = sample();
    hs.push(("a,b".to_string(), hit("punct", None, 2, (2, 0, 0), 0.3)));
    match export_token_summary(hs, ExportFormat::Csv, false, None, None) {
        TokenExport::Csv(lines) => assert_eq!(
            lines,
            vec![
                "shape,distinct,feature_hits,entity_like,examples".to_string(),
                "capitalized,2,8,2,France,Paris".to_string(),
                "lowercase,1,7,0,the".to_string(),
                "punct,1,2,0,a\\,b".to_string(),
                "empty,1,1,0,".to_string(),
            ]
        ),
        TokenExport::Json(_) => panic!("expected CSV"),
    }
}

#[test]
fn token_export_json_gives_ordered_rows() {
    match export_token_summary(sample(), ExportFormat::Json, false, Some(TokenSortBy::Distinct), Some(2)) {
        TokenExport::Json(rows) => {
            assert_eq!(rows.len(), 2);
            assert_eq!(rows[0].name, "capitalized");
            assert_eq!(rows[0].distinct, 2);
            assert_eq!(rows[0].examples, vec!["France".to_string(), "Paris".to_string()]);
            assert_eq!(rows[1].name, "empty");
            assert!(rows[1].examples.is_empty());
        }
        TokenExport::Csv(_) => panic!("expected JSON rows"),
    }
}

fn cond(field: &str, value: Value) -> Condition {
    Condition { field: field.to_string(), op: CompareOp::Eq, value }
}

#[test]
fn token_filters_read_first_matching_condition() {
    let conditions = vec![
        cond("entity", Value::String("Paris".to_string())),
        cond("token", Value::String("London".to_string())),
        cond("kind", Value::String("PLACE".to_string())),
        cond("shape", Value::Integer(3)),
        cond("shape", Value::String("Word".to_string())),
        cond("band", Value::String("Knowledge".to_string())),
    ];
    let f = parse_token_filters(&conditions);
    assert_eq!(f.token_filter.as_deref(), Some("Paris"));
    assert_eq!(f.type_filter.as_deref(), Some("place"));
    assert_eq!(f.shape_filter, None);
    assert_eq!(f.band_filter.as_deref(), Some("knowledge"));
    let none = parse_token_filters(&[]);
    assert!(none.token_filter.is_none() && none.type_filter.is_none());
}

#[test]
fn scope_texts() {
    assert_eq!(layer_scope_text(7), "at layer 7");
    assert_eq!(band_scope_text("knowledge", 14, 27), "for knowledge band (L14-27)");
    assert_eq!(layers_scope_text(34), "across 34 layers");
}

#[test]
fn grouped_summaries_skip_empty_groups() {
    let groups = vec![
        ("at layer 0".to_string(), Vec::new()),
        ("at layer 1".to_string(), sample()),
        ("at layer 2".to_string(), vec![("x".to_string(), hit("lowercase", None, 1, (1, 0, 0), 0.5))]),
    ];
    let out = show_tokens_grouped(groups, "layer", false, None, None);
    let first = render_token_summary("at layer 1".to_string(), sample(), false, None, None);
    let second = render_token_summary(
        "at layer 2".to_string(),
        vec![("x".to_string(), hit("lowercase", None, 1, (1, 0, 0), 0.5))],
        false,
        None,
        None,
    );
    let mut expected = first.clone();
    expected.push(String::new());
    expected.extend(second);
    expected.push(String::new());
    expected.push("Skipped 1 empty layer summaries.".to_string());
    assert_eq!(out, expected);

    let empty = show_tokens_grouped(vec![("for syntax band (L0-5)".to_string(), Vec::new())], "band", true, None, None);
    assert_eq!(empty, vec!["  (no tokens found)".to_string()]);
}

#[test]
fn server_groups_list_tokens_in_listing_order() {
    let g = larql::token_summary::describe_group("at layer 1".to_string(), sample());
    assert_eq!(g.label, "at layer 1");
    assert_eq!(g.token_count, 4);
    let order: Vec<&str> = g.token_hits.iter().map(|(t, _)| t.as_str()).collect();
    assert_eq!(order, vec!["the", "Paris", "France", ""]);
}

#[test]
fn server_filters_lowercase_all_but_the_token() {
    let p = larql::server::TokensParams {
        layer: None,
        group_by: None,
        token_filter: Some("Paris".to_string()),
        shape_filter: Some("Word".to_string()),
        type_filter: None,
        band_filter: Some("OUTPUT".to_string()),
    };
    let f = larql::token_summary::build_filters(&p);
    assert_eq!(f.token_filter.as_deref(), Some("Paris"));
    assert_eq!(f.shape_filter.as_deref(), Some("word"));
    assert_eq!(f.type_filter, None);
    assert_eq!(f.band_filter.as_deref(), Some("output"));
}

#[test]
fn remote_query_lists_what_is_asked_for() {
    let conditions = vec![
        cond("token", Value::Integer(1)),
        cond("entity", Value::String("Paris".to_string())),
        cond("type", Value::String("TITLE".to_string())),
    ];
    let q = token_query_params(Some(3), &conditions, Some(TokenGroupBy::Band));
    let pairs: Vec<(&str, &str)> = q.iter().map(|(k, v)| (k.as_str(), v.as_str())).collect();
    assert_eq!(
        pairs,
        vec![("layer", "3"), ("group_by", "band"), ("token_filter", "Paris"), ("type_filter", "title")]
    );
    assert!(token_query_params(None, &[], None).is_empty());
}

#[test]
fn remote_rows_name_known_shapes_and_kinds() {
    assert_eq!(shape_from_name("title"), "title");
    assert_eq!(shape_from_name("weird"), "other");
    assert_eq!(kind_from_str("acronym").as_deref(), Some("acronym"));
    assert_eq!(kind_from_str("none"), None);
}

#[test]
fn remote_tokens_render_like_local() {
    let flat = render_remote_tokens(vec![("across 5 layers".to_string(), sample())], 0, None, false, None, None);
    assert_eq!(flat, render_token_summary("across 5 layers".to_string(), sample(), false, None, None));
    let none = render_remote_tokens(Vec::new(), 0, None, false, None, None);
    assert_eq!(none[0], "Token summary across 0 layers (0 distinct top tokens):");
    let grouped = render_remote_tokens(
        vec![("at layer 4".to_string(), sample())],
        2,
        Some(TokenGroupBy::Layer),
        false,
        None,
        None,
    );
    assert_eq!(grouped.last().unwrap(), "Skipped 2 empty layer summaries.");
}

#[test]
fn show_tokens_render_parity_after_server_order() {
    let local = render_token_summary("across 5 layers".to_string(), sample(), true, None, None);
    let served = larql::token_summary::describe_group("across 5 layers".to_string(), sample());
    let remote = render_token_summary(served.label, served.token_hits, true, None, None);
    assert_eq!(local, remote);
    let local_csv = export_token_summary(sample(), ExportFormat::Csv, false, None, None);
    let served = larql::token_summary::describe_group("x".to_string(), sample());
    let remote_csv = export_token_summary(served.token_hits, ExportFormat::Csv, false, None, None);
    match (local_csv, remote_csv) {
        (TokenExport::Csv(a), TokenExport::Csv(b)) => assert_eq!(a, b),
        _ => panic!("expected CSV"),
    }
}

#[test]
fn token_lists_from_maps_have_distinct_tokens() {
    assert!(larql::token_summary::tokens_distinct(&sample()));
    assert!(larql::token_summary::tokens_distinct(&Vec::new()));
    let mut twice = sample();
    twice.push(twice[0].clone());
    assert!(!larql::token_summary::tokens_distinct(&twice));
}

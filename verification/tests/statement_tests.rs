use larql::batch_dla::{build_analyze_infer_ast, RecipeAnalysis};
use larql::lql::{
    CompareOp, Component, Condition, ExtractLevel, Field, NearestClause, OrderBy, OutputFormat,
    Range, SelectSource, UseTarget, Value, VindexRef,
};
use larql::statement::Statement;

fn lql(stmt: &Statement) -> String {
    stmt.to_lql().expect("statement has LQL text")
}

#[test]
fn exported_lql_preserves_full_analysis_spec() {
    let stmt = build_analyze_infer_ast(
        "The capital of Freedonia is",
        &RecipeAnalysis {
            mode: "fact_probe".to_string(),
            truth_spans: vec!["Markov".to_string()],
            materially_false_spans: vec!["Paris".to_string(), "London".to_string()],
            coherence_markers: vec!["capital".to_string(), "is".to_string()],
            max_generated_tokens: Some(1),
            ridge_dead_zone: Some(0.05f32.to_string()),
        },
        5,
    );
    let lql = lql(&stmt);

    assert_eq!(
        lql,
        "ANALYZE INFER \"The capital of Freedonia is\" MODE FACT_PROBE TRUTH_SPANS (\"Markov\") FALSE_SPANS (\"Paris\", \"London\") COHERENCE_MARKERS (\"capital\", \"is\") MAX_GENERATED_TOKENS 1 RIDGE_DEAD_ZONE 0.05 TOP 5 FORMAT JSON;"
    );
    assert!(lql.contains("MODE FACT_PROBE"));
    assert!(lql.contains("TRUTH_SPANS"));
    assert!(lql.contains("FALSE_SPANS"));
    assert!(lql.contains("COHERENCE_MARKERS"));
    assert!(lql.contains("MAX_GENERATED_TOKENS"));
    assert!(lql.contains("RIDGE_DEAD_ZONE"));
    assert!(lql.contains("TOP"));
    assert!(lql.contains("FORMAT JSON"));
}

fn analysis(mode: &str, truth: &[&str], falsehoods: &[&str]) -> RecipeAnalysis {
    RecipeAnalysis {
        mode: mode.to_string(),
        truth_spans: truth.iter().map(|s| s.to_string()).collect(),
        materially_false_spans: falsehoods.iter().map(|s| s.to_string()).collect(),
        coherence_markers: vec![],
        max_generated_tokens: None,
        ridge_dead_zone: None,
    }
}

#[test]
fn exported_lql_fact_probe_truth_only() {
    let stmt = build_analyze_infer_ast("Test", &analysis("fact_probe", &["Paris"], &[]), 5);
    let lql = lql(&stmt);
    assert!(lql.contains("MODE FACT_PROBE"));
    assert!(lql.contains("TRUTH_SPANS"));
    assert_eq!(lql, "ANALYZE INFER \"Test\" MODE FACT_PROBE TRUTH_SPANS (\"Paris\") TOP 5 FORMAT JSON;");
}

#[test]
fn exported_lql_fact_probe_false_only() {
    let stmt = build_analyze_infer_ast("Test", &analysis("fact_probe", &[], &["London"]), 5);
    let lql = lql(&stmt);
    assert!(lql.contains("MODE FACT_PROBE"));
    assert!(lql.contains("FALSE_SPANS"));
}

#[test]
fn exported_lql_workflow_probe_requires_false_spans() {
    let stmt = build_analyze_infer_ast("Test", &analysis("workflow_probe", &[], &["hallucination"]), 5);
    let lql = lql(&stmt);
    assert!(lql.contains("MODE WORKFLOW_PROBE"));
    assert!(lql.contains("FALSE_SPANS"));
}

#[test]
fn lifecycle_and_query_statements_print_as_lql() {
    let extract = Statement::Extract {
        model: "google/gemma-3-4b-it".to_string(),
        output: "gemma.vindex".to_string(),
        components: Some(vec![Component::FfnGate, Component::AttnOv]),
        layers: Some(Range { start: 0, end: 33 }),
        extract_level: ExtractLevel::Inference,
    };
    assert_eq!(
        lql(&extract),
        "EXTRACT MODEL \"google/gemma-3-4b-it\" INTO \"gemma.vindex\" COMPONENTS (FfnGate, AttnOv) LAYERS 0..33 LEVEL Inference;"
    );
    let compile = Statement::Compile {
        vindex: VindexRef::Path("a \"b\".vindex".to_string()),
        output: "out".to_string(),
        format: Some(OutputFormat::Gguf),
        target: larql::lql::CompileTarget::Model,
        on_conflict: None,
    };
    assert_eq!(
        lql(&compile),
        format!("COMPILE Path({:?}) INTO \"out\" FORMAT GGUF TARGET Model;", "a \"b\".vindex")
    );
    let use_model = Statement::Use { target: UseTarget::Model { id: "m".to_string(), auto_extract: true } };
    assert_eq!(lql(&use_model), "USE MODEL \"m\" AUTO_EXTRACT;");
    let select = Statement::Select {
        source: SelectSource::Edges,
        fields: vec![Field::Named("entity".to_string()), Field::Star],
        conditions: vec![
            Condition { field: "layer".to_string(), op: CompareOp::Gte, value: Value::Integer(-3) },
            Condition {
                field: "score".to_string(),
                op: CompareOp::In,
                value: Value::List(vec![Value::Number(1.5f64.to_string()), Value::String("x".to_string())]),
            },
        ],
        nearest: Some(NearestClause { entity: "France".to_string(), layer: 20 }),
        order: Some(OrderBy { field: "score".to_string(), descending: true }),
        limit: Some(10),
    };
    assert_eq!(
        lql(&select),
        "SELECT entity, * FROM Edges WHERE layer Gte -3 AND score In (1.5, \"x\") NEAREST \"France\" AT LAYER 20 ORDER BY score DESC LIMIT 10;"
    );
    let delete = Statement::Delete { conditions: vec![] };
    assert_eq!(lql(&delete), "DELETE;");
    let insert = Statement::Insert {
        entity: "A".to_string(),
        relation: "r".to_string(),
        target: "B".to_string(),
        layer: Some(2),
        confidence: Some(0.9f32.to_string()),
        alpha: None,
    };
    assert_eq!(lql(&insert), "INSERT (\"A\", \"r\", \"B\") AT LAYER 2 CONFIDENCE 0.9;");
    assert!(Statement::ShowModels.to_lql().is_none());
    assert!(Statement::Stats { vindex: None }.to_lql().is_none());
}

use larql::server_select::{
    order_of, select_edges, select_orderable, SelectCandidate, SelectOrder, SelectQuery,
};

fn cand(layer: usize, feature: usize, token: &str, score: f32, relation: Option<&str>) -> SelectCandidate {
    SelectCandidate {
        layer,
        feature,
        top_token: token.to_string(),
        c_score: score.to_bits(),
        relation: relation.map(|r| r.to_string()),
    }
}

fn query() -> SelectQuery {
    SelectQuery {
        entity: None,
        relation: None,
        confidence_floor: None,
        order_by: None,
        order: "desc".to_string(),
        limit: 20,
        fields: None,
    }
}

fn candidates() -> Vec<SelectCandidate> {
    vec![
        cand(3, 0, " Paris", 0.5, Some("capital")),
        cand(3, 1, "Berlin ", 0.9, None),
        cand(5, 0, "paris", 0.7, Some("Capital-of")),
        cand(5, 1, "Rome", 0.5, Some("language")),
        cand(7, 2, "PARISIAN", 0.2, None),
    ]
}

fn features(edges: &[larql::server_select::SelectedEdge]) -> Vec<(usize, usize)> {
    edges.iter().map(|e| (e.layer.unwrap(), e.feature.unwrap())).collect()
}

#[test]
fn select_defaults_to_score_descending() {
    let cs = candidates();
    let q = query();
    assert!(select_orderable(&cs, &q));
    let (edges, total) = select_edges(&cs, &q);
    assert_eq!(total, 5);
    assert_eq!(features(&edges), vec![(3, 1), (5, 0), (3, 0), (5, 1), (7, 2)]);
    assert_eq!(edges[0].target.as_deref(), Some("Berlin"));
    assert_eq!(edges[0].c_score, Some(0.9f32.to_bits()));
    assert_eq!(edges[0].relation, None);
    assert_eq!(edges[1].relation.as_deref(), Some("Capital-of"));
}

#[test]
fn select_filters_case_insensitively() {
    let cs = candidates();
    let mut q = query();
    q.entity = Some("Paris".to_string());
    let (edges, total) = select_edges(&cs, &q);
    assert_eq!(total, 3);
    assert_eq!(features(&edges), vec![(5, 0), (3, 0), (7, 2)]);

    let mut q = query();
    q.relation = Some("CAPITAL".to_string());
    let (edges, total) = select_edges(&cs, &q);
    assert_eq!(total, 2);
    assert_eq!(features(&edges), vec![(5, 0), (3, 0)]);

    let mut q = query();
    q.confidence_floor = Some(0.5f32.to_bits());
    let (edges, total) = select_edges(&cs, &q);
    assert_eq!(total, 4);
    assert_eq!(features(&edges), vec![(3, 1), (5, 0), (3, 0), (5, 1)]);
}

#[test]
fn select_orders_and_limits() {
    let cs = candidates();
    let mut q = query();
    q.order_by = Some("confidence".to_string());
    q.order = "asc".to_string();
    assert_eq!(order_of(&q), SelectOrder::ScoreAscending);
    let (edges, _) = select_edges(&cs, &q);
    // Equal scores keep their scan order.
    assert_eq!(features(&edges), vec![(7, 2), (3, 0), (5, 1), (5, 0), (3, 1)]);

    q.order_by = Some("layer".to_string());
    q.order = "desc".to_string();
    q.limit = 3;
    let (edges, total) = select_edges(&cs, &q);
    assert_eq!(total, 5);
    assert_eq!(features(&edges), vec![(7, 2), (5, 0), (5, 1)]);

    q.order_by = Some("feature".to_string());
    assert_eq!(order_of(&q), SelectOrder::ScoreDescending);
}

#[test]
fn select_returns_only_asked_fields() {
    let cs = candidates();
    let mut q = query();
    q.fields = Some(vec!["target".to_string(), "relation".to_string()]);
    let (edges, _) = select_edges(&cs, &q);
    assert_eq!(edges[0].layer, None);
    assert_eq!(edges[0].feature, None);
    assert_eq!(edges[0].c_score, None);
    assert_eq!(edges[0].target.as_deref(), Some("Berlin"));
    assert_eq!(edges[0].relation, None);
    assert_eq!(edges[2].target.as_deref(), Some("Paris"));
    assert_eq!(edges[2].relation.as_deref(), Some("capital"));
}

#[test]
fn select_refuses_to_order_nan_scores() {
    let mut cs = candidates();
    cs.push(cand(9, 0, "x", f32::NAN, None));
    let q = query();
    assert!(!select_orderable(&cs, &q));
    let mut by_layer = query();
    by_layer.order_by = Some("layer".to_string());
    assert!(select_orderable(&cs, &by_layer));
    let mut filtered = query();
    filtered.entity = Some("paris".to_string());
    assert!(select_orderable(&cs, &filtered));
}

use larql::introspection::{features_limit, show_features_lines, FeatureMeta};
use larql::remote::LqlError;

fn meta(tok: &str, score: f32, down: &[&str]) -> Option<FeatureMeta> {
    Some(FeatureMeta {
        top_token: tok.to_string(),
        c_score: score.to_bits(),
        top_k: down.iter().map(|d| d.to_string()).collect(),
    })
}

fn line(idx: usize, tok: &str, score: f32, down: &str) -> String {
    format!("F{:<7} {:<20} {:>10.4} {:>30}", idx, tok, score, down)
}

#[test]
fn features_are_listed_with_filters() {
    let fs = vec![
        meta("Paris", 0.9, &["Paris", "France", "Lyon", "Nice", "Lille", "Metz"]),
        None,
        meta("the", 0.1, &[]),
        meta("PARISIAN", 0.5, &["x"]),
        meta("paris", f32::NAN, &["y"]),
    ];
    let all = show_features_lines(3, &fs, None, None, 10).unwrap();
    assert_eq!(all[0], format!("{:<8} {:<20} {:>10} {:>30}", "Feature", "Top Token", "Score", "Down outputs"));
    assert_eq!(all[1], "-".repeat(72));
    assert_eq!(all[2], line(0, "Paris", 0.9, "Paris, France, Lyon, Nice, Lille"));
    assert_eq!(all[3], line(2, "the", 0.1, ""));
    assert_eq!(all.len(), 6);

    let paris = show_features_lines(3, &fs, Some("pArIs"), None, 10).unwrap();
    assert_eq!(paris.len(), 5);
    assert_eq!(paris[3], line(3, "PARISIAN", 0.5, "x"));
    assert_eq!(paris[4], line(4, "paris", f32::NAN, "y"));

    let floored = show_features_lines(3, &fs, None, Some(0.5f32.to_bits()), 10).unwrap();
    assert_eq!(floored.len(), 5);
    assert_eq!(floored[2], line(0, "Paris", 0.9, "Paris, France, Lyon, Nice, Lille"));
    assert_eq!(floored[3], line(3, "PARISIAN", 0.5, "x"));

    let limited = show_features_lines(3, &fs, None, None, 1).unwrap();
    assert_eq!(limited.len(), 3);

    match show_features_lines(7, &Vec::new(), None, None, 10) {
        Err(LqlError::Execution(m)) => assert_eq!(m, "no features at layer 7"),
        _ => panic!("expected an error"),
    }
    assert_eq!(features_limit(Some(4), 34), 4);
    assert_eq!(features_limit(None, 34), 34);
}

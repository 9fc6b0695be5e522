use larql::remote::{JsonNumber, JsonValue};
use larql::server::{
    band_group_label, context_map_args, default_band, default_limit, default_order,
    describe_scan_layers, entities_limit, entity_token, flat_group_label, layer_group_label,
    layers_to_show, load_model_target, meta_count, model_info, scan_layers, tool_named,
    top_token_by_frequency, whole_model_bands, EntitiesRequest, LayerBandRanges, LayersRequest, Tool,
};

fn members(v: Vec<(&str, JsonValue)>) -> Vec<(String, JsonValue)> {
    v.into_iter().map(|(k, x)| (k.to_string(), x)).collect()
}

#[test]
fn route_defaults() {
    assert_eq!(default_band(), "knowledge");
    assert_eq!(default_limit(), 20);
    assert_eq!(default_order(), "desc");
    assert_eq!(entities_limit(&EntitiesRequest { layer: None, limit: None }), 50);
    assert_eq!(entities_limit(&EntitiesRequest { layer: None, limit: Some(7) }), 7);
}

#[test]
fn entity_tokens_are_capitalised_ascii_words() {
    assert_eq!(entity_token("  Paris "), Some("Paris".to_string()));
    assert_eq!(entity_token("IBM"), Some("IBM".to_string()));
    assert_eq!(entity_token("Ok"), None);
    assert_eq!(entity_token("paris"), None);
    assert_eq!(entity_token("New York"), None);
    assert_eq!(entity_token("Zürich"), None);
    assert_eq!(entity_token(""), None);
}

#[test]
fn layer_selection() {
    assert_eq!(scan_layers(Some(4), 10), vec![4]);
    assert_eq!(scan_layers(None, 3), vec![0, 1, 2]);
    let all = vec![0, 2, 3, 5];
    assert_eq!(layers_to_show(&LayersRequest { start: Some(1), end: Some(4) }, &all), vec![2, 3]);
    assert_eq!(layers_to_show(&LayersRequest { start: Some(4), end: Some(1) }, &all), Vec::<usize>::new());
    assert_eq!(layers_to_show(&LayersRequest { start: Some(1), end: None }, &all), all);
    let bands = LayerBandRanges { syntax: (0, 1), knowledge: (2, 3), output: (4, 5) };
    assert_eq!(describe_scan_layers(None, "knowledge", bands, &all), vec![2, 3]);
    assert_eq!(describe_scan_layers(None, "output", bands, &all), vec![5]);
    assert_eq!(describe_scan_layers(None, "other", bands, &all), all);
    assert_eq!(describe_scan_layers(Some(3), "syntax", bands, &all), vec![3]);
    assert_eq!(describe_scan_layers(Some(4), "syntax", bands, &all), Vec::<usize>::new());
    let whole = whole_model_bands(0);
    assert_eq!(whole.output, (0, 0));
    assert_eq!(whole_model_bands(12).knowledge, (0, 11));
}

#[test]
fn layer_metadata_summary() {
    assert_eq!(meta_count(&vec![Some(1), None, Some(2)]), 2);
    let toks: Vec<String> = ["a", "b", "b", "c"].iter().map(|s| s.to_string()).collect();
    assert_eq!(top_token_by_frequency(&toks), "b");
    assert_eq!(top_token_by_frequency(&vec![]), "");
}

#[test]
fn tools_are_dispatched_by_name() {
    assert_eq!(tool_named("get_model_info").unwrap(), Tool::GetModelInfo);
    assert_eq!(tool_named("context_map_with_query").unwrap(), Tool::ContextMapWithQuery);
    assert_eq!(tool_named("load_model").unwrap(), Tool::LoadModel);
    assert_eq!(tool_named("nope").unwrap_err(), "Unknown tool: nope");
    let info = model_info("m", 32, 4096, 32000, "llama", "Llama-3");
    assert_eq!(info.head_dim, 128);
    assert_eq!(info.num_attention_heads, 32);
    assert_eq!(info.num_kv_heads, 4);
    assert_eq!(info.max_position_embeddings, 8192);
    assert_eq!(info.architecture, "llama");
    assert_eq!(info.family, "Llama-3");
}

#[test]
fn context_map_arguments() {
    let args = members(vec![
        ("prompt", JsonValue::String("Hi".into())),
        ("layer", JsonValue::Number(JsonNumber::PosInt(3))),
    ]);
    assert_eq!(context_map_args(&args).unwrap(), ("Hi".to_string(), 3, 5));
    let args = members(vec![
        ("top_k", JsonValue::Number(JsonNumber::PosInt(2))),
        ("layer", JsonValue::Number(JsonNumber::PosInt(3))),
        ("prompt", JsonValue::String("Hi".into())),
    ]);
    assert_eq!(context_map_args(&args).unwrap(), ("Hi".to_string(), 3, 2));
    let missing = members(vec![("layer", JsonValue::Number(JsonNumber::PosInt(3)))]);
    assert_eq!(context_map_args(&missing).unwrap_err(), "Missing prompt argument");
    let bad_layer = members(vec![
        ("prompt", JsonValue::String("Hi".into())),
        ("layer", JsonValue::Number(JsonNumber::NegInt(-3))),
    ]);
    assert_eq!(context_map_args(&bad_layer).unwrap_err(), "Missing layer argument");
}

#[test]
fn load_model_finds_loaded_models() {
    let loaded = vec!["a".to_string(), "b".to_string()];
    let args = members(vec![("model_id", JsonValue::String("b".into()))]);
    assert_eq!(load_model_target(&args, &loaded).unwrap(), 1);
    let args = members(vec![("model_id", JsonValue::String("z".into()))]);
    assert_eq!(load_model_target(&args, &loaded).unwrap_err(), "Model not loaded: z");
    assert_eq!(load_model_target(&vec![], &loaded).unwrap_err(), "Missing model_id argument");
}

#[test]
fn token_group_labels() {
    assert_eq!(layer_group_label(12), "at layer 12");
    assert_eq!(band_group_label("syntax", 0, 9), "for syntax band (L0-9)");
    assert_eq!(flat_group_label(Some(3), 10), "at layer 3");
    assert_eq!(flat_group_label(None, 10), "across 10 layers");
}

#[test]
fn entities_are_counted_and_ranked() {
    let metas: Vec<(String, u32)> = vec![
        (" Paris ".to_string(), 0.5f32.to_bits()),
        ("the".to_string(), 0.9f32.to_bits()),
        ("London".to_string(), 0.7f32.to_bits()),
        ("Paris".to_string(), 0.8f32.to_bits()),
        ("NASA".to_string(), f32::NAN.to_bits()),
        ("London".to_string(), 0.2f32.to_bits()),
        ("Rome".to_string(), 0.95f32.to_bits()),
    ];
    let top = larql::server::top_entities(&metas, 3);
    let got: Vec<(&str, usize, f32)> =
        top.iter().map(|e| (e.entity.as_str(), e.count, f32::from_bits(e.score))).collect();
    assert_eq!(got, vec![("Paris", 2, 0.8), ("London", 2, 0.7), ("Rome", 1, 0.95)]);
    let all = larql::server::top_entities(&metas, 50);
    assert_eq!(all.len(), 4);
    assert_eq!(all[3].entity, "NASA");
    assert_eq!(all[3].score, 0.0f32.to_bits());
}

#[test]
fn local_entities_accept_alphabetic_names() {
    let metas: Vec<(String, u32)> = vec![
        ("Zürich".to_string(), 0.25f32.to_bits()),
        ("Ab".to_string(), 0.9f32.to_bits()),
        ("Aé".to_string(), 0.5f32.to_bits()),
        ("Zürich".to_string(), 0.75f32.to_bits()),
        ("Paris1".to_string(), 0.9f32.to_bits()),
    ];
    let out = larql::server::show_local_entities(&metas, None, 34, 50);
    assert_eq!(
        out,
        vec![
            "Distinct entities across 34 layers (50 total, showing top 50):".to_string(),
            format!("{:<24} {:>10} {:>10}", "Entity", "Features", "Max Score"),
            "-".repeat(48),
            format!("{:<24} {:>10} {:>10.4}", "Zürich", 2, 0.75f32),
            format!("{:<24} {:>10} {:>10.4}", "Aé", 1, 0.5f32),
        ]
    );
    let none = larql::server::show_local_entities(&Vec::new(), Some(3), 1, 1);
    assert_eq!(none[0], "Distinct entities at layer 3 (1 total, showing top 1):");
    assert_eq!(none[3], "  (no entities found)");
    let server = larql::server::top_entities(&metas, 50);
    assert!(server.is_empty());
}

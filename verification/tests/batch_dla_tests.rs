use larql::batch_dla::{
    apply_recipe, clamp_cursor, clamp_layer_selection, default_server, focus_footer, handle_key, BatchKey, Focus,
    GraphicsBackend, ImageSize, KeyAction, KeyState, ManualField, ManualTargetDraft, Pan, Recipe,
    RecipeAnalysis, RecipeUiDefaults,
};

#[test]
fn manual_field_cycle_covers_all_fields() {
    let mut field = ManualField::Prompt;
    for _ in 0..ManualField::all().len() {
        field = field.cycle(1);
    }
    assert_eq!(field, ManualField::Prompt);
}

#[test]
fn manual_field_cycles_both_ways() {
    assert_eq!(ManualField::Prompt.cycle(-1), ManualField::RidgeDeadZone);
    assert_eq!(ManualField::RidgeDeadZone.cycle(1), ManualField::Prompt);
    assert_eq!(ManualField::Mode.cycle(15), ManualField::TruthSpans);
    assert_eq!(ManualField::Mode.cycle(-15), ManualField::Prompt);
    for f in ManualField::all() {
        assert_eq!(f.cycle(1).cycle(-1), f);
        assert_eq!(ManualField::from_index(f.index()), f);
    }
    assert_eq!(ManualField::MateriallyFalseSpans.title(), "False Spans");
    assert_eq!(ManualField::RidgeDeadZone.title(), "Ridge DZ");
}

#[test]
fn focus_cycles_through_all_panels() {
    let mut f = Focus::Prompt;
    let mut seen = vec![];
    for _ in 0..5 {
        seen.push(f);
        f = f.next();
    }
    assert_eq!(f, Focus::Prompt);
    assert_eq!(seen, vec![Focus::Prompt, Focus::RecipeList, Focus::Results, Focus::LayerList, Focus::Image]);
    assert_eq!(focus_footer(Focus::Results), Some("Tab next | Q quit"));
    assert_eq!(focus_footer(Focus::Image), None);
}

#[test]
fn manual_draft_defaults_and_fields() {
    let mut d = ManualTargetDraft::default();
    assert_eq!(d.mode, "fact_probe");
    assert_eq!(d.max_generated_tokens, "1");
    assert_eq!(d.ridge_dead_zone, "0.05");
    assert_eq!(d.max_generated_tokens_value(), Some(1));
    d.mode = "  ".to_string();
    assert_eq!(d.analysis_mode(), "fact_probe");
    d.mode = " workflow_probe ".to_string();
    assert_eq!(d.analysis_mode(), "workflow_probe");
    d.max_generated_tokens = " +12 ".to_string();
    assert_eq!(d.max_generated_tokens_value(), Some(12));
    d.max_generated_tokens = "-1".to_string();
    assert_eq!(d.max_generated_tokens_value(), None);
    d.truth_spans = " Paris, ,London ,".to_string();
    let (truth, falsehoods, markers) = d.spans();
    assert_eq!(truth, vec!["Paris", "London"]);
    assert!(falsehoods.is_empty());
    assert!(markers.is_empty());
    assert_eq!(ManualTargetDraft::split_csv("a,b , c"), vec!["a", "b", "c"]);
    assert_eq!(ManualTargetDraft::join_spans(&truth), "Paris, London");
    assert_eq!(default_server(), "http://localhost:8080");
}

fn key_state(focus: Focus) -> KeyState {
    KeyState {
        focus,
        prompt_empty: false,
        recipe_count: 3,
        recipe_selected: Some(2),
        layer_count: 0,
        layer_selected: None,
        cursor_x: 4,
        cursor_y: 9,
        selected_image: Some(ImageSize { width: 5, height: 10 }),
        z_index: 0,
        backend: GraphicsBackend::Ansi,
    }
}

#[test]
fn quit_keys_quit_from_every_panel() {
    for focus in [Focus::Prompt, Focus::Results, Focus::LayerList, Focus::Image, Focus::RecipeList] {
        let st = key_state(focus);
        assert_eq!(handle_key(st, BatchKey::Char('q')), (st, KeyAction::Quit));
        assert_eq!(handle_key(st, BatchKey::Esc), (st, KeyAction::Quit));
    }
}

#[test]
fn prompt_keys_edit_the_form() {
    let st = key_state(Focus::Prompt);
    assert_eq!(handle_key(st, BatchKey::Char('[')).1, KeyAction::CycleField(-1));
    assert_eq!(handle_key(st, BatchKey::Char(']')).1, KeyAction::CycleField(1));
    assert_eq!(handle_key(st, BatchKey::Char('a')).1, KeyAction::PushChar('a'));
    assert_eq!(handle_key(st, BatchKey::Backspace).1, KeyAction::PopChar);
    assert_eq!(handle_key(st, BatchKey::Enter).1, KeyAction::RunAnalysis);
    assert_eq!(handle_key(st, BatchKey::Char('R')).1, KeyAction::SaveRecipe);
    let empty = KeyState { prompt_empty: true, ..st };
    assert_eq!(handle_key(empty, BatchKey::Enter).1, KeyAction::Nothing);
    assert_eq!(handle_key(empty, BatchKey::Char('R')).1, KeyAction::Nothing);
    assert_eq!(handle_key(st, BatchKey::Tab).0.focus, Focus::RecipeList);
}

#[test]
fn recipe_list_wraps_and_acts_on_selection() {
    let st = key_state(Focus::RecipeList);
    assert_eq!(handle_key(st, BatchKey::Char('j')).0.recipe_selected, Some(0));
    assert_eq!(handle_key(st, BatchKey::Up).0.recipe_selected, Some(1));
    let first = KeyState { recipe_selected: Some(0), ..st };
    assert_eq!(handle_key(first, BatchKey::Char('k')).0.recipe_selected, Some(2));
    let (next, action) = handle_key(st, BatchKey::Enter);
    assert_eq!(next.focus, Focus::Prompt);
    assert_eq!(action, KeyAction::ApplyRecipe(2));
    assert_eq!(handle_key(st, BatchKey::Char('C')).1, KeyAction::ExportRecipe(2));
    let (after, removed) = handle_key(st, BatchKey::Char('x'));
    assert_eq!(removed, KeyAction::RemoveRecipe(2));
    assert_eq!(after.recipe_count, 2);
    let none = KeyState { recipe_selected: None, ..st };
    assert_eq!(handle_key(none, BatchKey::Enter), (none, KeyAction::Nothing));
}

#[test]
fn layer_list_selects_first_when_empty() {
    let st = key_state(Focus::LayerList);
    assert_eq!(handle_key(st, BatchKey::Down).0.layer_selected, Some(0));
    assert_eq!(handle_key(st, BatchKey::Char('k')).0.layer_selected, Some(0));
    assert_eq!(clamp_layer_selection(Some(7), 3), Some(2));
    assert_eq!(clamp_layer_selection(None, 3), Some(0));
    assert_eq!(clamp_layer_selection(Some(1), 0), None);
}

#[test]
fn image_keys_move_cursor_within_the_heatmap() {
    let st = key_state(Focus::Image);
    assert_eq!(handle_key(st, BatchKey::Down).0.cursor_y, 9);
    assert_eq!(handle_key(st, BatchKey::Up).0.cursor_y, 8);
    assert_eq!(handle_key(st, BatchKey::Right).0.cursor_x, 4);
    assert_eq!(handle_key(st, BatchKey::Left).0.cursor_x, 3);
    assert_eq!(handle_key(st, BatchKey::Char('b')).0.backend, GraphicsBackend::Sixel);
    assert_eq!(handle_key(st, BatchKey::Char('l')).0.z_index, 1);
    let front = KeyState { z_index: 1, ..st };
    assert_eq!(handle_key(front, BatchKey::Char('l')).0.z_index, -1);
    assert_eq!(handle_key(st, BatchKey::Char('w')).1, KeyAction::Pan(Pan::Up));
    assert_eq!(handle_key(st, BatchKey::Char('z')).1, KeyAction::ZoomIn);
    assert_eq!(handle_key(st, BatchKey::Char('x')).1, KeyAction::ZoomOut);
}

fn sample_recipe() -> Recipe {
    Recipe {
        name: "capital".to_string(),
        prompt: "The capital of France is".to_string(),
        description: Some("fact check".to_string()),
        ui_defaults: RecipeUiDefaults { layer: Some(7), head: Some(2) },
        analysis: RecipeAnalysis {
            mode: "workflow_probe".to_string(),
            truth_spans: vec!["Paris".to_string(), "France".to_string()],
            materially_false_spans: vec!["Lyon".to_string()],
            coherence_markers: vec![],
            max_generated_tokens: Some(12),
            ridge_dead_zone: None,
        },
    }
}

#[test]
fn recipe_fills_the_form() {
    let recipe = sample_recipe();
    let draft = ManualTargetDraft::from_recipe(&recipe);
    assert_eq!(draft.prompt, "The capital of France is");
    assert_eq!(draft.mode, "workflow_probe");
    assert_eq!(draft.truth_spans, "Paris, France");
    assert_eq!(draft.materially_false_spans, "Lyon");
    assert_eq!(draft.coherence_markers, "");
    assert_eq!(draft.max_generated_tokens, "12");
    assert_eq!(draft.ridge_dead_zone, "0.05");

    let (applied, layer) = apply_recipe(&recipe);
    assert_eq!(applied.truth_spans, "Paris, France");
    assert_eq!(layer, Some(7));
}

#[test]
fn form_builds_trimmed_analysis() {
    let mut draft = ManualTargetDraft::default();
    draft.mode = "   ".to_string();
    draft.truth_spans = " Paris , ,France ,".to_string();
    draft.materially_false_spans = "Lyon".to_string();
    draft.max_generated_tokens = " 8 ".to_string();
    let analysis = draft.build_analysis(Some("0.1".to_string()));
    assert_eq!(analysis.mode, "fact_probe");
    assert_eq!(analysis.truth_spans, vec!["Paris".to_string(), "France".to_string()]);
    assert_eq!(analysis.materially_false_spans, vec!["Lyon".to_string()]);
    assert!(analysis.coherence_markers.is_empty());
    assert_eq!(analysis.max_generated_tokens, Some(8));
    assert_eq!(analysis.ridge_dead_zone, Some("0.1".to_string()));

    draft.max_generated_tokens = "many".to_string();
    assert_eq!(draft.build_analysis(None).max_generated_tokens, None);
}

#[test]
fn form_saves_as_recipe_and_loads_back() {
    let recipe = sample_recipe();
    let draft = ManualTargetDraft::from_recipe(&recipe);
    let saved = draft.to_recipe("again".to_string(), Some(3), None);
    assert_eq!(saved.name, "again");
    assert_eq!(saved.prompt, recipe.prompt);
    assert!(saved.description.is_none());
    assert_eq!(saved.ui_defaults.layer, None);
    assert_eq!(saved.ui_defaults.head, Some(3));
    assert_eq!(saved.analysis.mode, "workflow_probe");
    assert_eq!(saved.analysis.truth_spans, recipe.analysis.truth_spans);
    assert_eq!(saved.analysis.materially_false_spans, recipe.analysis.materially_false_spans);
    assert_eq!(saved.analysis.coherence_markers, recipe.analysis.coherence_markers);
    assert_eq!(saved.analysis.max_generated_tokens, Some(12));
}

#[test]
fn cursor_is_clamped_to_a_new_result() {
    assert_eq!(clamp_cursor(9, 7, 3, Some(4)), (2, 3));
    assert_eq!(clamp_cursor(1, 2, 3, Some(4)), (1, 2));
    assert_eq!(clamp_cursor(5, 5, 0, None), (0, 0));
    assert_eq!(clamp_cursor(0, 3, 1, Some(0)), (0, 0));
}

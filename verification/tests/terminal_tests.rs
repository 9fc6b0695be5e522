use larql::terminal::{
    apply_process_step, capabilities_from_flags, capabilities_text, event_for_key, handle_event,
    initial_view, is_carbonyl_running, is_carbonyl_suspended, plan_process_step, task_icon,
    task_name, task_url, workspace_api_url, workspace_info_from, CarbonylProcess, Capability,
    CoordinatorAction, Key, KeyboardEvent, ProcessStep, RenderMode, Task, WorkspaceFlags,
};

#[test]
fn task_urls_drop_trailing_slashes() {
    assert_eq!(task_url("http://localhost:3000//", Task::Trace), "http://localhost:3000/trace");
    assert_eq!(task_url("http://x", Task::LQL), "http://x/lql");
    assert_eq!(task_url("", Task::Runs), "/runs");
    assert_eq!(workspace_api_url("http://x/"), "http://x/api/workspace/current");
    assert_eq!(task_icon(&Task::Workspace), "📁");
    assert_eq!(task_icon(&Task::Runs), "▶️");
    assert_eq!(task_name(Task::Recipes), "Recipes");
}

#[test]
fn capabilities_follow_workspace_flags() {
    let none = WorkspaceFlags {
        supports_infer: false,
        supports_trace: false,
        supports_mlx: false,
        has_relation_labels: false,
        has_model_weights: false,
    };
    assert_eq!(capabilities_from_flags(none), vec![Capability::Browse]);
    let all = WorkspaceFlags {
        supports_infer: true,
        supports_trace: true,
        supports_mlx: true,
        has_relation_labels: true,
        has_model_weights: true,
    };
    let caps = capabilities_from_flags(all);
    assert_eq!(
        caps,
        vec![Capability::Infer, Capability::Trace, Capability::Mlx, Capability::Labels, Capability::Browse, Capability::WalkFfn]
    );
    assert_eq!(capabilities_text(&caps), "infer, trace, mlx, labels, browse, walk_ffn");
    assert_eq!(capabilities_text(&vec![]), "");
    let info = workspace_info_from("demo", None);
    assert_eq!(info.extract_level, "unknown");
    assert_eq!(workspace_info_from("demo", Some("all")).extract_level, "all");
}

#[test]
fn keys_map_to_events() {
    assert_eq!(event_for_key(Key::Char('c'), true, false), Some(KeyboardEvent::Quit));
    assert_eq!(event_for_key(Key::Char('g'), true, false), None);
    assert_eq!(event_for_key(Key::Char('c'), false, false), None);
    assert_eq!(event_for_key(Key::Char('t'), false, false), Some(KeyboardEvent::SwitchTask(Task::Trace)));
    assert_eq!(event_for_key(Key::Char('w'), true, false), Some(KeyboardEvent::SwitchTask(Task::Workspace)));
    assert_eq!(event_for_key(Key::Char('?'), false, false), Some(KeyboardEvent::ToggleHelp));
    assert_eq!(event_for_key(Key::Enter, false, false), Some(KeyboardEvent::EnterContent));
    assert_eq!(event_for_key(Key::Esc, false, true), Some(KeyboardEvent::ToggleHelp));
    assert_eq!(event_for_key(Key::Esc, false, false), Some(KeyboardEvent::ExitContent));
    assert_eq!(event_for_key(Key::Other, false, false), None);
}

#[test]
fn task_switch_updates_view_state() {
    let v = initial_view();
    let (v2, action) = handle_event(v, KeyboardEvent::SwitchTask(Task::Trace));
    assert_eq!(v2.active_task, Task::Trace);
    assert_eq!(action, CoordinatorAction::Nothing);
    let (v3, _) = handle_event(v2, KeyboardEvent::EnterContent);
    assert_eq!(v3.mode, RenderMode::Content);
    let (v4, action) = handle_event(v3, KeyboardEvent::SwitchTask(Task::Runs));
    assert_eq!(action, CoordinatorAction::ReloadContent);
    assert_eq!(v4.active_task, Task::Runs);
    assert_eq!(handle_event(v4, KeyboardEvent::Quit).1, CoordinatorAction::Quit);
}

#[test]
fn help_toggle_updates_view_state() {
    let v = initial_view();
    let (v2, _) = handle_event(v, KeyboardEvent::ToggleHelp);
    assert!(v2.show_help);
    let (v3, _) = handle_event(v2, KeyboardEvent::ToggleHelp);
    assert_eq!(v3, v);
}

#[test]
fn content_browser_is_suspended_and_resumed() {
    let running = Some(CarbonylProcess { pid: 42, suspended: false });
    assert_eq!(plan_process_step(RenderMode::Navigation, running), ProcessStep::Suspend(42));
    let stopped = apply_process_step(running, ProcessStep::Suspend(42), 0);
    assert!(is_carbonyl_suspended(stopped));
    assert_eq!(plan_process_step(RenderMode::Navigation, stopped), ProcessStep::Keep);
    assert_eq!(plan_process_step(RenderMode::Content, stopped), ProcessStep::Resume(42));
    assert_eq!(apply_process_step(stopped, ProcessStep::Resume(42), 0), running);
    assert_eq!(plan_process_step(RenderMode::Content, None), ProcessStep::Start);
    let started = apply_process_step(None, ProcessStep::Start, 7);
    assert!(is_carbonyl_running(started));
    assert!(!is_carbonyl_suspended(started));
    assert_eq!(plan_process_step(RenderMode::Navigation, None), ProcessStep::Keep);
}

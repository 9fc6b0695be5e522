//! The hybrid terminal browser: its tasks and capabilities, the keys it
//! reads, and the decisions of the coordinator that hands the terminal
//! between the navigation layer and the content browser.

use vstd::prelude::*;
use crate::lql::join;
use crate::text::{chars_of, owned, push_chars};

verus! {

/// A page of the workbench.
#[derive(Debug, Clone, Copy, PartialEq, Eq, Structural)]
pub enum Task {
    Workspace,
    Studio,
    Explorer,
    LQL,
    Trace,
    Recipes,
    Runs,
}

/// The open workspace, as the workbench reports it.
#[derive(Debug, Clone)]
pub struct WorkspaceInfo {
    pub name: String,
    pub extract_level: String,
}

/// What the open workspace supports.
#[derive(Debug, Clone, Copy, PartialEq, Eq, Structural)]
pub enum Capability {
    Browse,
    Infer,
    Trace,
    Mlx,
    WalkFfn,
    Labels,
}

/// Who draws the terminal.
#[derive(Debug, Clone, Copy, PartialEq, Eq, Structural)]
pub enum RenderMode {
    /// The navigation layer (layout, navigation bar, status bar).
    Navigation,
    /// The content browser.
    Content,
}

/// The content browser's process.
#[derive(Debug, Clone, Copy, PartialEq, Eq, Structural)]
pub struct CarbonylProcess {
    pub pid: u32,
    pub suspended: bool,
}

/// Timings of mode switches and of the content browser, in milliseconds.
#[derive(Debug, Clone, Copy)]
pub struct BridgePerformance {
    pub mode_switch_time_ms: u64,
    pub carbonyl_startup_time_ms: u64,
    pub carbonyl_suspend_time_ms: u64,
    pub carbonyl_resume_time_ms: u64,
}

/// What the navigation layer tells the coordinator.
#[derive(Debug, Clone, Copy, PartialEq, Eq, Structural)]
pub enum KeyboardEvent {
    /// Switch to a task.
    SwitchTask(Task),
    /// Show or hide the help panel.
    ToggleHelp,
    /// Hand the terminal to the content browser.
    EnterContent,
    /// Take the terminal back for navigation.
    ExitContent,
    /// Quit.
    Quit,
}

/// What the coordinator tells the navigation layer.
#[derive(Debug, Clone, Copy, PartialEq, Eq, Structural)]
pub enum TuiControl {
    /// Stop reading and drawing so that another program can have the
    /// terminal.
    Shutdown,
}

/// The icon of a task in the navigation bar.
pub fn task_icon(task: &Task) -> (r: &'static str)
    ensures
        r@ == match *task {
            Task::Workspace => "📁"@,
            Task::Studio => "🎨"@,
            Task::Explorer => "🔍"@,
            Task::LQL => "💬"@,
            Task::Trace => "📊"@,
            Task::Recipes => "📝"@,
            Task::Runs => "▶️"@,
        },
{
    match task {
        Task::Workspace => "📁",
        Task::Studio => "🎨",
        Task::Explorer => "🔍",
        Task::LQL => "💬",
        Task::Trace => "📊",
        Task::Recipes => "📝",
        Task::Runs => "▶️",
    }
}

/// The name of a task in the navigation bar.
pub fn task_name(task: Task) -> (r: &'static str)
    ensures
        r@ == match task {
            Task::Workspace => "Workspace"@,
            Task::Studio => "Studio"@,
            Task::Explorer => "Explorer"@,
            Task::LQL => "LQL"@,
            Task::Trace => "Trace"@,
            Task::Recipes => "Recipes"@,
            Task::Runs => "Runs"@,
        },
{
    match task {
        Task::Workspace => "Workspace",
        Task::Studio => "Studio",
        Task::Explorer => "Explorer",
        Task::LQL => "LQL",
        Task::Trace => "Trace",
        Task::Recipes => "Recipes",
        Task::Runs => "Runs",
    }
}

/// The workbench path of a task's page.
pub open spec fn task_path(task: Task) -> Seq<char> {
    match task {
        Task::Workspace => "/workspace"@,
        Task::Studio => "/studio"@,
        Task::Explorer => "/explorer"@,
        Task::LQL => "/lql"@,
        Task::Trace => "/trace"@,
        Task::Recipes => "/recipes"@,
        Task::Runs => "/runs"@,
    }
}

/// The number of slashes that end `s`.
pub open spec fn trailing_slashes(s: Seq<char>) -> nat
    decreases s.len(),
{
    if s.len() > 0 && s.last() == '/' {
        1 + trailing_slashes(s.drop_last())
    } else {
        0
    }
}

/// `s` without the slashes that end it (`trim_end_matches('/')`).
pub open spec fn without_trailing_slashes(s: Seq<char>) -> Seq<char> {
    s.take(s.len() - trailing_slashes(s))
}

proof fn lemma_trailing_slashes_bound(s: Seq<char>)
    ensures
        trailing_slashes(s) <= s.len(),
    decreases s.len(),
{
    if s.len() > 0 && s.last() == '/' {
        lemma_trailing_slashes_bound(s.drop_last());
    }
}

/// A URL without the slashes that end it.
pub fn trim_trailing_slashes(raw: &str) -> (r: String)
    ensures
        r@ == without_trailing_slashes(raw@),
{
    crate::text::string_from_chars(base_url(raw).as_slice())
}

/// The workbench base URL without its trailing slashes.
fn base_url(workbench_url: &str) -> (r: Vec<char>)
    ensures
        r@ == without_trailing_slashes(workbench_url@),
{
    let cs = chars_of(workbench_url);
    let mut end: usize = cs.len();
    proof {
        lemma_trailing_slashes_bound(cs@);
        assert(cs@.take(cs@.len() as int) == cs@);
    }
    while end > 0 && cs[end - 1] == '/'
        invariant
            end <= cs@.len(),
            trailing_slashes(cs@) == (cs@.len() - end) + trailing_slashes(cs@.take(end as int)),
        decreases end,
    {
        proof {
            let t = cs@.take(end as int);
            assert(t.last() == cs@[end - 1]);
            assert(t.drop_last() == cs@.take(end - 1));
        }
        end = end - 1;
    }
    proof {
        assert(cs@.take(cs@.len() as int) == cs@);
        if end > 0 {
            assert(cs@.take(end as int).last() == cs@[end - 1]);
        }
    }
    crate::text::slice_to_vec(cs.as_slice(), 0, end)
}

/// The URL of a task's page: the workbench URL without trailing slashes,
/// then the task's path.
pub fn task_url(workbench_url: &str, task: Task) -> (r: String)
    ensures
        r@ == without_trailing_slashes(workbench_url@) + task_path(task),
{
    let base = base_url(workbench_url);
    let mut out = String::new();
    push_chars(&mut out, base.as_slice());
    let path = match task {
        Task::Workspace => "/workspace",
        Task::Studio => "/studio",
        Task::Explorer => "/explorer",
        Task::LQL => "/lql",
        Task::Trace => "/trace",
        Task::Recipes => "/recipes",
        Task::Runs => "/runs",
    };
    out.append(path);
    out
}

/// The URL the current workspace is read from.
pub fn workspace_api_url(workbench_url: &str) -> (r: String)
    ensures
        r@ == without_trailing_slashes(workbench_url@) + "/api/workspace/current"@,
{
    let base = base_url(workbench_url);
    let mut out = String::new();
    push_chars(&mut out, base.as_slice());
    out.append("/api/workspace/current");
    out
}

/// The flags the workbench reports of a workspace.
#[derive(Debug, Clone, Copy)]
pub struct WorkspaceFlags {
    pub supports_infer: bool,
    pub supports_trace: bool,
    pub supports_mlx: bool,
    pub has_relation_labels: bool,
    pub has_model_weights: bool,
}

/// The capabilities of a workspace with these flags, in the order the
/// status bar lists them: inference, tracing, MLX, labels, browsing
/// (always), and FFN walks.
pub open spec fn capabilities_of(f: WorkspaceFlags) -> Seq<Capability> {
    (if f.supports_infer {
        seq![Capability::Infer]
    } else {
        Seq::empty()
    }) + (if f.supports_trace {
        seq![Capability::Trace]
    } else {
        Seq::empty()
    }) + (if f.supports_mlx {
        seq![Capability::Mlx]
    } else {
        Seq::empty()
    }) + (if f.has_relation_labels {
        seq![Capability::Labels]
    } else {
        Seq::empty()
    }) + seq![Capability::Browse] + (if f.has_model_weights {
        seq![Capability::WalkFfn]
    } else {
        Seq::empty()
    })
}

/// The capabilities of a workspace (`capabilities_of`).
pub fn capabilities_from_flags(flags: WorkspaceFlags) -> (r: Vec<Capability>)
    ensures
        r@ == capabilities_of(flags),
{
    let mut r: Vec<Capability> = Vec::new();
    if flags.supports_infer {
        r.push(Capability::Infer);
    }
    if flags.supports_trace {
        r.push(Capability::Trace);
    }
    if flags.supports_mlx {
        r.push(Capability::Mlx);
    }
    if flags.has_relation_labels {
        r.push(Capability::Labels);
    }
    r.push(Capability::Browse);
    if flags.has_model_weights {
        r.push(Capability::WalkFfn);
    }
    assert(r@ =~= capabilities_of(flags));
    r
}

/// The workspace the workbench reports: its display name, and its extract
/// level or `unknown`.
pub fn workspace_info_from(display_name: &str, extract_level: Option<&str>) -> (r: WorkspaceInfo)
    ensures
        r.name@ == display_name@,
        r.extract_level@ == match extract_level {
            Some(l) => l@,
            None => "unknown"@,
        },
{
    WorkspaceInfo {
        name: owned(display_name),
        extract_level: match extract_level {
            Some(l) => owned(l),
            None => owned("unknown"),
        },
    }
}

/// The status bar name of a capability.
pub open spec fn capability_label(c: Capability) -> Seq<char> {
    match c {
        Capability::Browse => "browse"@,
        Capability::Infer => "infer"@,
        Capability::Trace => "trace"@,
        Capability::Mlx => "mlx"@,
        Capability::WalkFfn => "walk_ffn"@,
        Capability::Labels => "labels"@,
    }
}

/// The status bar's capability list: the names joined with `", "`.
pub fn capabilities_text(caps: &Vec<Capability>) -> (r: String)
    ensures
        r@ == join(caps@.map_values(|c: Capability| capability_label(c)), ", "@),
{
    let ghost names = caps@.map_values(|c: Capability| capability_label(c));
    let mut out = String::new();
    let mut i: usize = 0;
    while i < caps.len()
        invariant
            i <= caps@.len(),
            names == caps@.map_values(|c: Capability| capability_label(c)),
            out@ == join(names.take(i as int), ", "@),
        decreases caps.len() - i,
    {
        if i > 0 {
            out.append(", ");
        }
        let label = match caps[i] {
            Capability::Browse => "browse",
            Capability::Infer => "infer",
            Capability::Trace => "trace",
            Capability::Mlx => "mlx",
            Capability::WalkFfn => "walk_ffn",
            Capability::Labels => "labels",
        };
        out.append(label);
        proof {
            let t = names.take(i + 1);
            assert(t.drop_last() == names.take(i as int));
            assert(t.last() == capability_label(caps@[i as int]));
            if i == 0 {
                assert(join(t, ", "@) == t[0]);
            }
        }
        i = i + 1;
    }
    assert(names.take(caps.len() as int) == names);
    out
}

/// A key as the navigation layer reads it.
#[derive(Debug, Clone, Copy, PartialEq, Eq, Structural)]
pub enum Key {
    Char(char),
    Enter,
    Esc,
    Other,
}

/// The event a key press sends, if any: with Control, `c` quits and `g`
/// waits for the next key; `w s e l t r u` switch tasks and `?` toggles
/// help; Enter enters content; Esc closes help when it is open, else
/// leaves content.
pub open spec fn key_event(key: Key, control: bool, show_help: bool) -> Option<KeyboardEvent> {
    match key {
        Key::Char(c) => if control && c == 'g' {
            None
        } else if control && c == 'c' {
            Some(KeyboardEvent::Quit)
        } else if c == 'w' {
            Some(KeyboardEvent::SwitchTask(Task::Workspace))
        } else if c == 's' {
            Some(KeyboardEvent::SwitchTask(Task::Studio))
        } else if c == 'e' {
            Some(KeyboardEvent::SwitchTask(Task::Explorer))
        } else if c == 'l' {
            Some(KeyboardEvent::SwitchTask(Task::LQL))
        } else if c == 't' {
            Some(KeyboardEvent::SwitchTask(Task::Trace))
        } else if c == 'r' {
            Some(KeyboardEvent::SwitchTask(Task::Recipes))
        } else if c == 'u' {
            Some(KeyboardEvent::SwitchTask(Task::Runs))
        } else if c == '?' {
            Some(KeyboardEvent::ToggleHelp)
        } else {
            None
        },
        Key::Enter => Some(KeyboardEvent::EnterContent),
        Key::Esc => if show_help {
            Some(KeyboardEvent::ToggleHelp)
        } else {
            Some(KeyboardEvent::ExitContent)
        },
        Key::Other => None,
    }
}

/// The event a key press sends (`key_event`).
pub fn event_for_key(key: Key, control: bool, show_help: bool) -> (r: Option<KeyboardEvent>)
    ensures
        r == key_event(key, control, show_help),
{
    match key {
        Key::Char(c) => {
            if control && c == 'g' {
                None
            } else if control && c == 'c' {
                Some(KeyboardEvent::Quit)
            } else if c == 'w' {
                Some(KeyboardEvent::SwitchTask(Task::Workspace))
            } else if c == 's' {
                Some(KeyboardEvent::SwitchTask(Task::Studio))
            } else if c == 'e' {
                Some(KeyboardEvent::SwitchTask(Task::Explorer))
            } else if c == 'l' {
                Some(KeyboardEvent::SwitchTask(Task::LQL))
            } else if c == 't' {
                Some(KeyboardEvent::SwitchTask(Task::Trace))
            } else if c == 'r' {
                Some(KeyboardEvent::SwitchTask(Task::Recipes))
            } else if c == 'u' {
                Some(KeyboardEvent::SwitchTask(Task::Runs))
            } else if c == '?' {
                Some(KeyboardEvent::ToggleHelp)
            } else {
                None
            }
        },
        Key::Enter => Some(KeyboardEvent::EnterContent),
        Key::Esc => {
            if show_help {
                Some(KeyboardEvent::ToggleHelp)
            } else {
                Some(KeyboardEvent::ExitContent)
            }
        },
        Key::Other => None,
    }
}

/// What the coordinator and the navigation layer share of the screen.
#[derive(Debug, Clone, Copy, PartialEq, Eq, Structural)]
pub struct ViewState {
    pub mode: RenderMode,
    pub active_task: Task,
    pub show_help: bool,
}

/// The start: navigation on the workspace page, help hidden.
pub fn initial_view() -> (r: ViewState)
    ensures
        r == (ViewState { mode: RenderMode::Navigation, active_task: Task::Workspace, show_help: false }),
{
    ViewState { mode: RenderMode::Navigation, active_task: Task::Workspace, show_help: false }
}

/// What the coordinator does outside itself after an event.
#[derive(Debug, Clone, Copy, PartialEq, Eq, Structural)]
pub enum CoordinatorAction {
    /// Nothing.
    Nothing,
    /// Restart the content browser on the new task's page.
    ReloadContent,
    /// Stop the content browser, restore the terminal, and exit.
    Quit,
}

/// The view after an event, and what must be done outside.
pub open spec fn after_event(v: ViewState, e: KeyboardEvent) -> (ViewState, CoordinatorAction) {
    match e {
        KeyboardEvent::SwitchTask(t) => (
            ViewState { active_task: t, ..v },
            if v.mode == RenderMode::Content {
                CoordinatorAction::ReloadContent
            } else {
                CoordinatorAction::Nothing
            },
        ),
        KeyboardEvent::EnterContent => (
            ViewState { mode: RenderMode::Content, ..v },
            CoordinatorAction::Nothing,
        ),
        KeyboardEvent::ExitContent => (
            ViewState { mode: RenderMode::Navigation, ..v },
            CoordinatorAction::Nothing,
        ),
        KeyboardEvent::Quit => (v, CoordinatorAction::Quit),
        KeyboardEvent::ToggleHelp => (
            ViewState { show_help: !v.show_help, ..v },
            CoordinatorAction::Nothing,
        ),
    }
}

/// Handles one event of the navigation layer (`after_event`).
pub fn handle_event(v: ViewState, e: KeyboardEvent) -> (r: (ViewState, CoordinatorAction))
    ensures
        r == after_event(v, e),
{
    match e {
        KeyboardEvent::SwitchTask(t) => {
            let action = if v.mode == RenderMode::Content {
                CoordinatorAction::ReloadContent
            } else {
                CoordinatorAction::Nothing
            };
            (ViewState { mode: v.mode, active_task: t, show_help: v.show_help }, action)
        },
        KeyboardEvent::EnterContent => (
            ViewState { mode: RenderMode::Content, active_task: v.active_task, show_help: v.show_help },
            CoordinatorAction::Nothing,
        ),
        KeyboardEvent::ExitContent => (
            ViewState {
                mode: RenderMode::Navigation,
                active_task: v.active_task,
                show_help: v.show_help,
            },
            CoordinatorAction::Nothing,
        ),
        KeyboardEvent::Quit => (v, CoordinatorAction::Quit),
        KeyboardEvent::ToggleHelp => (
            ViewState { mode: v.mode, active_task: v.active_task, show_help: !v.show_help },
            CoordinatorAction::Nothing,
        ),
    }
}

/// Law: toggling help twice leaves the view as it was.
pub proof fn lemma_help_toggle_involutive(v: ViewState)
    ensures
        after_event(after_event(v, KeyboardEvent::ToggleHelp).0, KeyboardEvent::ToggleHelp).0 == v,
{
}

/// Law: entering content and leaving it again returns to navigation with
/// the same task and help, and neither asks for anything outside.
pub proof fn lemma_enter_exit_content(v: ViewState)
    ensures
        after_event(after_event(v, KeyboardEvent::EnterContent).0, KeyboardEvent::ExitContent).0
            == (ViewState { mode: RenderMode::Navigation, ..v }),
        after_event(v, KeyboardEvent::EnterContent).1 == CoordinatorAction::Nothing,
{
}

/// Law: only a task switch in content mode reloads the browser, and only
/// `Quit` quits; a task switch changes the task and nothing else.
pub proof fn lemma_event_actions(v: ViewState, e: KeyboardEvent)
    ensures
        after_event(v, e).1 == CoordinatorAction::ReloadContent <==> (e is SwitchTask && v.mode
            == RenderMode::Content),
        after_event(v, e).1 == CoordinatorAction::Quit <==> e is Quit,
        e matches KeyboardEvent::SwitchTask(t) ==> after_event(v, e).0 == (ViewState {
            active_task: t,
            ..v
        }),
{
}

/// What to do with the content browser's process on a loop tick.
#[derive(Debug, Clone, Copy, PartialEq, Eq, Structural)]
pub enum ProcessStep {
    /// Leave it as it is.
    Keep,
    /// Stop it (`SIGSTOP` to this process id).
    Suspend(u32),
    /// Let it run on (`SIGCONT` to this process id).
    Resume(u32),
    /// Start it on the current task's page.
    Start,
}

/// The step for the content browser: in navigation mode a running,
/// unsuspended browser is suspended; in content mode a suspended one is
/// resumed and a missing one started.
pub open spec fn process_step(mode: RenderMode, p: Option<CarbonylProcess>) -> ProcessStep {
    match mode {
        RenderMode::Navigation => match p {
            Some(q) => if !q.suspended {
                ProcessStep::Suspend(q.pid)
            } else {
                ProcessStep::Keep
            },
            None => ProcessStep::Keep,
        },
        RenderMode::Content => match p {
            Some(q) => if q.suspended {
                ProcessStep::Resume(q.pid)
            } else {
                ProcessStep::Keep
            },
            None => ProcessStep::Start,
        },
    }
}

/// The step for the content browser (`process_step`).
pub fn plan_process_step(mode: RenderMode, p: Option<CarbonylProcess>) -> (r: ProcessStep)
    ensures
        r == process_step(mode, p),
{
    match mode {
        RenderMode::Navigation => match p {
            Some(q) => if !q.suspended {
                ProcessStep::Suspend(q.pid)
            } else {
                ProcessStep::Keep
            },
            None => ProcessStep::Keep,
        },
        RenderMode::Content => match p {
            Some(q) => if q.suspended {
                ProcessStep::Resume(q.pid)
            } else {
                ProcessStep::Keep
            },
            None => ProcessStep::Start,
        },
    }
}

/// The process record after a step: suspended or resumed under the same
/// id, or, after a start, the new process (`started`), running.
pub open spec fn process_after(
    p: Option<CarbonylProcess>,
    s: ProcessStep,
    started: u32,
) -> Option<CarbonylProcess> {
    match s {
        ProcessStep::Keep => p,
        ProcessStep::Suspend(pid) => Some(CarbonylProcess { pid, suspended: true }),
        ProcessStep::Resume(pid) => Some(CarbonylProcess { pid, suspended: false }),
        ProcessStep::Start => Some(CarbonylProcess { pid: started, suspended: false }),
    }
}

/// The process record after a step (`process_after`).
pub fn apply_process_step(p: Option<CarbonylProcess>, s: ProcessStep, started: u32) -> (r: Option<
    CarbonylProcess,
>)
    ensures
        r == process_after(p, s, started),
{
    match s {
        ProcessStep::Keep => p,
        ProcessStep::Suspend(pid) => Some(CarbonylProcess { pid, suspended: true }),
        ProcessStep::Resume(pid) => Some(CarbonylProcess { pid, suspended: false }),
        ProcessStep::Start => Some(CarbonylProcess { pid: started, suspended: false }),
    }
}

/// Whether the content browser runs.
pub fn is_carbonyl_running(p: Option<CarbonylProcess>) -> (r: bool)
    ensures
        r == p is Some,
{
    p.is_some()
}

/// Whether the content browser is suspended.
pub fn is_carbonyl_suspended(p: Option<CarbonylProcess>) -> (r: bool)
    ensures
        r == (p matches Some(q) && q.suspended),
{
    match p {
        Some(q) => q.suspended,
        None => false,
    }
}

/// Law: after its step, the browser is in the state the mode wants — stopped
/// (or absent) in navigation, running in content — and a second step in the
/// same mode changes nothing.
pub proof fn lemma_process_step_settles(mode: RenderMode, p: Option<CarbonylProcess>, started: u32)
    ensures
        ({
            let q = process_after(p, process_step(mode, p), started);
            &&& mode == RenderMode::Navigation ==> (q is None || q->Some_0.suspended)
            &&& mode == RenderMode::Content ==> (q is Some && !q->Some_0.suspended)
            &&& process_step(mode, q) == ProcessStep::Keep
        }),
{
}

/// Law: suspending and then resuming the browser gives back the running
/// process under the same id.
pub proof fn lemma_suspend_resume(q: CarbonylProcess, started: u32)
    requires
        !q.suspended,
    ensures
        ({
            let p = Some(q);
            let s = process_after(p, process_step(RenderMode::Navigation, p), started);
            process_after(s, process_step(RenderMode::Content, s), started) == p
        }),
{
}

} // verus!

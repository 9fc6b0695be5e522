//! State of the batch DLA terminal tool: the manual target form, the field
//! it edits, which panel has focus, and the recipe and circuit records it
//! exchanges with the server.

use vstd::prelude::*;
use crate::lql::{join, string_views};
use crate::text::{
    chars_of, decimal, nonempty_trimmed, owned, parse_usize, parse_usize_spec, split_on, trim, trim_chars,
};

verus! {

/// Command line of the tool: the larql server to talk to.
#[derive(Debug, Clone)]
pub struct Cli {
    pub server: String,
}

/// The server the tool talks to when none is given.
pub fn default_server() -> (r: String)
    ensures
        r@ == "http://localhost:8080"@,
{
    owned("http://localhost:8080")
}

/// An attention edge to highlight in a layer's heatmap.
#[derive(Debug, Clone, Copy)]
pub struct CircuitHighlight {
    pub layer: usize,
    pub head: usize,
    pub from_token: usize,
    pub to_token: usize,
    pub color_rgb: (u8, u8, u8),
}

/// The view a recipe opens with.
#[derive(Debug, Clone, Copy)]
pub struct RecipeUiDefaults {
    pub layer: Option<usize>,
    pub head: Option<usize>,
}

/// The manual target form, each field as typed.
#[derive(Debug, Clone)]
pub struct ManualTargetDraft {
    pub prompt: String,
    pub mode: String,
    pub truth_spans: String,
    pub materially_false_spans: String,
    pub coherence_markers: String,
    pub max_generated_tokens: String,
    pub ridge_dead_zone: String,
}

impl Default for ManualTargetDraft {
    fn default() -> (r: Self)
        ensures
            r.prompt@.len() == 0,
            r.mode@ == "fact_probe"@,
            r.truth_spans@.len() == 0,
            r.materially_false_spans@.len() == 0,
            r.coherence_markers@.len() == 0,
            r.max_generated_tokens@ == "1"@,
            r.ridge_dead_zone@ == "0.05"@,
    {
        ManualTargetDraft {
            prompt: String::new(),
            mode: owned("fact_probe"),
            truth_spans: String::new(),
            materially_false_spans: String::new(),
            coherence_markers: String::new(),
            max_generated_tokens: owned("1"),
            ridge_dead_zone: owned("0.05"),
        }
    }
}

/// The analysis mode a form asks for: its mode trimmed, `fact_probe` when
/// that is empty.
pub open spec fn draft_mode(mode: Seq<char>) -> Seq<char> {
    if trim(mode).len() == 0 {
        "fact_probe"@
    } else {
        trim(mode)
    }
}

impl ManualTargetDraft {
    /// The entries of a comma-separated field: each trimmed, empty ones
    /// dropped.
    pub fn split_csv(value: &str) -> (r: Vec<String>)
        ensures
            string_views(r@) == nonempty_trimmed(split_on(value@, ',')),
    {
        crate::text::split_trimmed_nonempty(value, ',')
    }

    /// The analysis mode the form asks for (`draft_mode`).
    pub fn analysis_mode(&self) -> (r: String)
        ensures
            r@ == draft_mode(self.mode@),
    {
        let t = crate::text::trim_str(self.mode.as_str());
        if t.as_str().is_empty() {
            owned("fact_probe")
        } else {
            t
        }
    }

    /// The number of tokens to generate, when the field holds one
    /// (`str::parse::<usize>` of the trimmed field).
    pub fn max_generated_tokens_value(&self) -> (r: Option<usize>)
        ensures
            r == parse_usize_spec(trim(self.max_generated_tokens@)),
    {
        let cs = chars_of(self.max_generated_tokens.as_str());
        let t = trim_chars(cs.as_slice());
        parse_usize(t.as_slice())
    }

    /// The form's spans: truth, materially false, and coherence markers.
    pub fn spans(&self) -> (r: (Vec<String>, Vec<String>, Vec<String>))
        ensures
            string_views(r.0@) == nonempty_trimmed(split_on(self.truth_spans@, ',')),
            string_views(r.1@) == nonempty_trimmed(split_on(self.materially_false_spans@, ',')),
            string_views(r.2@) == nonempty_trimmed(split_on(self.coherence_markers@, ',')),
    {
        (
            Self::split_csv(self.truth_spans.as_str()),
            Self::split_csv(self.materially_false_spans.as_str()),
            Self::split_csv(self.coherence_markers.as_str()),
        )
    }

    /// The comma-separated text of a list of spans, as a recipe fills the
    /// form.
    pub fn join_spans(spans: &Vec<String>) -> (r: String)
        ensures
            r@ == join(string_views(spans@), ", "@),
    {
        let ghost sv = string_views(spans@);
        let mut out = String::new();
        let mut i: usize = 0;
        while i < spans.len()
            invariant
                i <= spans@.len(),
                sv == string_views(spans@),
                out@ == join(sv.take(i as int), ", "@),
            decreases spans.len() - i,
        {
            if i > 0 {
                out.append(", ");
            }
            out.append(spans[i].as_str());
            proof {
                let t = sv.take(i + 1);
                assert(t.drop_last() == sv.take(i as int));
                assert(t.last() == spans@[i as int]@);
                if i == 0 {
                    assert(join(t, ", "@) == t[0]);
                }
            }
            i = i + 1;
        }
        assert(sv.take(spans.len() as int) == sv);
        out
    }
}

/// The fields of the manual target form, in the order `[` and `]` step
/// through them.
#[derive(Debug, Clone, Copy, PartialEq, Eq, Structural)]
pub enum ManualField {
    Prompt,
    Mode,
    TruthSpans,
    MateriallyFalseSpans,
    CoherenceMarkers,
    MaxGeneratedTokens,
    RidgeDeadZone,
}

/// The number of form fields.
pub const MANUAL_FIELD_COUNT: usize = 7;

/// The position of a field in the stepping order.
pub open spec fn field_index(f: ManualField) -> nat {
    match f {
        ManualField::Prompt => 0,
        ManualField::Mode => 1,
        ManualField::TruthSpans => 2,
        ManualField::MateriallyFalseSpans => 3,
        ManualField::CoherenceMarkers => 4,
        ManualField::MaxGeneratedTokens => 5,
        ManualField::RidgeDeadZone => 6,
    }
}

/// The field at a position of the stepping order.
pub open spec fn field_at(i: nat) -> ManualField {
    if i == 0 {
        ManualField::Prompt
    } else if i == 1 {
        ManualField::Mode
    } else if i == 2 {
        ManualField::TruthSpans
    } else if i == 3 {
        ManualField::MateriallyFalseSpans
    } else if i == 4 {
        ManualField::CoherenceMarkers
    } else if i == 5 {
        ManualField::MaxGeneratedTokens
    } else {
        ManualField::RidgeDeadZone
    }
}

/// The field `delta` steps from `f`, wrapping around.
pub open spec fn field_step(f: ManualField, delta: int) -> ManualField {
    field_at(((field_index(f) + delta) % 7) as nat)
}

impl ManualField {
    /// The fields in stepping order.
    pub fn all() -> (r: Vec<ManualField>)
        ensures
            r@.len() == 7,
            forall|i: int| 0 <= i < 7 ==> #[trigger] r@[i] == field_at(i as nat),
    {
        let mut r: Vec<ManualField> = Vec::new();
        r.push(ManualField::Prompt);
        r.push(ManualField::Mode);
        r.push(ManualField::TruthSpans);
        r.push(ManualField::MateriallyFalseSpans);
        r.push(ManualField::CoherenceMarkers);
        r.push(ManualField::MaxGeneratedTokens);
        r.push(ManualField::RidgeDeadZone);
        r
    }

    /// The field's label in the form.
    pub fn title(self) -> (r: &'static str)
        ensures
            r@ == match self {
                ManualField::Prompt => "Prompt"@,
                ManualField::Mode => "Mode"@,
                ManualField::TruthSpans => "Truth Spans"@,
                ManualField::MateriallyFalseSpans => "False Spans"@,
                ManualField::CoherenceMarkers => "Coherence"@,
                ManualField::MaxGeneratedTokens => "Max Gen"@,
                ManualField::RidgeDeadZone => "Ridge DZ"@,
            },
    {
        match self {
            ManualField::Prompt => "Prompt",
            ManualField::Mode => "Mode",
            ManualField::TruthSpans => "Truth Spans",
            ManualField::MateriallyFalseSpans => "False Spans",
            ManualField::CoherenceMarkers => "Coherence",
            ManualField::MaxGeneratedTokens => "Max Gen",
            ManualField::RidgeDeadZone => "Ridge DZ",
        }
    }

    /// The field's position in the stepping order.
    pub fn index(self) -> (r: usize)
        ensures
            r == field_index(self),
    {
        match self {
            ManualField::Prompt => 0,
            ManualField::Mode => 1,
            ManualField::TruthSpans => 2,
            ManualField::MateriallyFalseSpans => 3,
            ManualField::CoherenceMarkers => 4,
            ManualField::MaxGeneratedTokens => 5,
            ManualField::RidgeDeadZone => 6,
        }
    }

    /// The field at position `i` (`i < 7`).
    pub fn from_index(i: usize) -> (r: ManualField)
        requires
            i < 7,
        ensures
            r == field_at(i as nat),
    {
        if i == 0 {
            ManualField::Prompt
        } else if i == 1 {
            ManualField::Mode
        } else if i == 2 {
            ManualField::TruthSpans
        } else if i == 3 {
            ManualField::MateriallyFalseSpans
        } else if i == 4 {
            ManualField::CoherenceMarkers
        } else if i == 5 {
            ManualField::MaxGeneratedTokens
        } else {
            ManualField::RidgeDeadZone
        }
    }

    /// The field `delta` steps on, wrapping around (`[` steps by -1, `]` by
    /// 1).
    pub fn cycle(self, delta: isize) -> (r: ManualField)
        ensures
            r == field_step(self, delta as int),
    {
        let current = self.index() as isize;
        let m: isize = delta % 7;
        let mut next = current + m;
        if next < 0 {
            next = next + 7;
        }
        if next >= 7 {
            next = next - 7;
        }
        assert(next == (field_index(self) + delta) % 7) by {
            assert(-7 < m < 7);
            assert(m == delta % 7 || m == delta % 7 - 7);
        }
        ManualField::from_index(next as usize)
    }
}

/// Law: stepping through the form fields `7` times one way comes back to
/// the field started from.
pub proof fn lemma_field_cycle_covers_all(f: ManualField)
    ensures
        field_step(field_step(field_step(field_step(field_step(field_step(field_step(f, 1), 1), 1),
            1), 1), 1), 1) == f,
{
}

/// Law: one step forward and one back return to the field started from.
pub proof fn lemma_field_step_back(f: ManualField)
    ensures
        field_step(field_step(f, 1), -1) == f,
        field_step(field_step(f, -1), 1) == f,
{
}

/// Law: stepping `7` fields forward, or back, changes nothing.
pub proof fn lemma_field_step_full_turn(f: ManualField)
    ensures
        field_step(f, 7) == f,
        field_step(f, -7) == f,
{
}

/// The panel that has keyboard focus.
#[derive(Debug, Clone, Copy, PartialEq, Eq, Structural)]
pub enum Focus {
    Prompt,
    Results,
    LayerList,
    Image,
    RecipeList,
}

/// The panel Tab moves focus to.
pub open spec fn focus_after(f: Focus) -> Focus {
    match f {
        Focus::Prompt => Focus::RecipeList,
        Focus::RecipeList => Focus::Results,
        Focus::Results => Focus::LayerList,
        Focus::LayerList => Focus::Image,
        Focus::Image => Focus::Prompt,
    }
}

impl Focus {
    /// The panel Tab moves focus to: prompt, recipes, results, layers,
    /// image, and round again.
    pub fn next(self) -> (r: Focus)
        ensures
            r == focus_after(self),
    {
        match self {
            Focus::Prompt => Focus::RecipeList,
            Focus::RecipeList => Focus::Results,
            Focus::Results => Focus::LayerList,
            Focus::LayerList => Focus::Image,
            Focus::Image => Focus::Prompt,
        }
    }
}

/// Law: Tab visits every panel and comes back after five presses.
pub proof fn lemma_focus_cycle(f: Focus)
    ensures
        focus_after(focus_after(focus_after(focus_after(focus_after(f))))) == f,
        f != focus_after(f),
        f != focus_after(focus_after(f)),
        f != focus_after(focus_after(focus_after(f))),
        f != focus_after(focus_after(focus_after(focus_after(f)))),
{
}

// ───────────────────────── keys ─────────────────────────

/// A key the scan app reads.
#[derive(Debug, Clone, Copy, PartialEq, Eq, Structural)]
pub enum BatchKey {
    Tab,
    Esc,
    Backspace,
    Enter,
    Up,
    Down,
    Left,
    Right,
    Char(char),
    Other,
}

/// The graphics protocol the image is drawn with.
#[derive(Debug, Clone, Copy, PartialEq, Eq, Structural)]
pub enum GraphicsBackend {
    Sixel,
    Kitty,
    ITerm2,
    Ansi,
}

/// The protocol `b` switches to: Sixel, Kitty, iTerm2, ANSI, and round.
pub open spec fn backend_after(g: GraphicsBackend) -> GraphicsBackend {
    match g {
        GraphicsBackend::Sixel => GraphicsBackend::Kitty,
        GraphicsBackend::Kitty => GraphicsBackend::ITerm2,
        GraphicsBackend::ITerm2 => GraphicsBackend::Ansi,
        GraphicsBackend::Ansi => GraphicsBackend::Sixel,
    }
}

/// What key handling reads and moves of the app: the focused panel, the
/// selections in the recipe and layer lists and their lengths, the cursor
/// on the heatmap, the size (width, height) of the selected layer's
/// heatmap, the image's layer order and protocol.
#[derive(Debug, Clone, Copy, PartialEq, Eq, Structural)]
pub struct KeyState {
    pub focus: Focus,
    pub prompt_empty: bool,
    pub recipe_count: usize,
    pub recipe_selected: Option<usize>,
    pub layer_count: usize,
    pub layer_selected: Option<usize>,
    pub cursor_x: usize,
    pub cursor_y: usize,
    pub selected_image: Option<ImageSize>,
    pub z_index: i32,
    pub backend: GraphicsBackend,
}

/// The size of a heatmap, in cells.
#[derive(Debug, Clone, Copy, PartialEq, Eq, Structural)]
pub struct ImageSize {
    pub width: usize,
    pub height: usize,
}

/// A direction the image view pans in.
#[derive(Debug, Clone, Copy, PartialEq, Eq, Structural)]
pub enum Pan {
    Up,
    Down,
    Left,
    Right,
}

/// What the app does after a key, besides the state it moves to.
#[derive(Debug, Clone, Copy, PartialEq, Eq, Structural)]
pub enum KeyAction {
    Nothing,
    Quit,
    CycleField(isize),
    PopChar,
    PushChar(char),
    /// Save the form as a new recipe.
    SaveRecipe,
    /// Run the analysis of the form on its prompt.
    RunAnalysis,
    /// Load the selected recipe into the form.
    ApplyRecipe(usize),
    /// Show the LQL of the selected recipe.
    ExportRecipe(usize),
    RemoveRecipe(usize),
    Pan(Pan),
    ZoomIn,
    ZoomOut,
}

/// The selection after `j` or Down in a list of `count`: the next entry,
/// or the first after the last (or when nothing is selected).
pub open spec fn select_down(sel: Option<usize>, count: usize) -> Option<usize> {
    match sel {
        Some(i) => if i + 1 < count {
            Some((i + 1) as usize)
        } else {
            Some(0usize)
        },
        None => Some(0usize),
    }
}

/// The selection after `k` or Up in a list of `count`: the previous entry,
/// or the last from the first (or when nothing is selected).
pub open spec fn select_up(sel: Option<usize>, count: usize) -> Option<usize> {
    match sel {
        Some(i) => if i == 0 {
            Some(if count == 0 { 0usize } else { (count - 1) as usize })
        } else {
            Some((i - 1) as usize)
        },
        None => Some(if count == 0 { 0usize } else { (count - 1) as usize }),
    }
}

fn select_down_exec(sel: Option<usize>, count: usize) -> (r: Option<usize>)
    ensures
        r == select_down(sel, count),
{
    match sel {
        Some(i) => if i < count && i + 1 < count {
            Some(i + 1)
        } else {
            Some(0)
        },
        None => Some(0),
    }
}

fn select_up_exec(sel: Option<usize>, count: usize) -> (r: Option<usize>)
    ensures
        r == select_up(sel, count),
{
    match sel {
        Some(i) => if i == 0 {
            Some(count.saturating_sub(1))
        } else {
            Some(i - 1)
        },
        None => Some(count.saturating_sub(1)),
    }
}

/// The selected entry, when the selection is inside the list.
pub open spec fn selected_within(sel: Option<usize>, count: usize) -> Option<usize> {
    match sel {
        Some(i) => if i < count {
            Some(i)
        } else {
            None
        },
        None => None,
    }
}

/// `v` lowered by one, stopping at zero.
pub open spec fn dec_sat(v: usize) -> usize {
    if v == 0 {
        0
    } else {
        (v - 1) as usize
    }
}

/// `v` raised by one, stopping at the last of `size`.
pub open spec fn inc_within(v: usize, size: usize) -> usize {
    let last: int = if size == 0 {
        0
    } else {
        size - 1
    };
    if v + 1 < last {
        (v + 1) as usize
    } else {
        last as usize
    }
}

/// What a key does: the state the app moves to and the action it then
/// takes. `q` and Esc quit from any panel; Tab moves the focus on; other
/// keys act on the focused panel.
pub open spec fn key_step(st: KeyState, key: BatchKey) -> (KeyState, KeyAction) {
    match key {
        BatchKey::Tab => (KeyState { focus: focus_after(st.focus), ..st }, KeyAction::Nothing),
        BatchKey::Esc => (st, KeyAction::Quit),
        BatchKey::Char('q') => (st, KeyAction::Quit),
        _ => match st.focus {
            Focus::Prompt => match key {
                BatchKey::Char('[') => (st, KeyAction::CycleField(-1isize)),
                BatchKey::Char(']') => (st, KeyAction::CycleField(1isize)),
                BatchKey::Backspace => (st, KeyAction::PopChar),
                BatchKey::Char('R') => (
                    st,
                    if st.prompt_empty {
                        KeyAction::Nothing
                    } else {
                        KeyAction::SaveRecipe
                    },
                ),
                BatchKey::Enter => (
                    st,
                    if st.prompt_empty {
                        KeyAction::Nothing
                    } else {
                        KeyAction::RunAnalysis
                    },
                ),
                BatchKey::Char(c) => (st, KeyAction::PushChar(c)),
                _ => (st, KeyAction::Nothing),
            },
            Focus::RecipeList => match key {
                BatchKey::Char('j') | BatchKey::Down => (
                    KeyState {
                        recipe_selected: select_down(st.recipe_selected, st.recipe_count),
                        ..st
                    },
                    KeyAction::Nothing,
                ),
                BatchKey::Char('k') | BatchKey::Up => (
                    KeyState { recipe_selected: select_up(st.recipe_selected, st.recipe_count), ..st },
                    KeyAction::Nothing,
                ),
                BatchKey::Enter => match selected_within(st.recipe_selected, st.recipe_count) {
                    Some(i) => (KeyState { focus: Focus::Prompt, ..st }, KeyAction::ApplyRecipe(i)),
                    None => (st, KeyAction::Nothing),
                },
                BatchKey::Char('c') | BatchKey::Char('C') => match selected_within(
                    st.recipe_selected,
                    st.recipe_count,
                ) {
                    Some(i) => (st, KeyAction::ExportRecipe(i)),
                    None => (st, KeyAction::Nothing),
                },
                BatchKey::Char('x') => match selected_within(st.recipe_selected, st.recipe_count) {
                    Some(i) => (
                        KeyState { recipe_count: (st.recipe_count - 1) as usize, ..st },
                        KeyAction::RemoveRecipe(i),
                    ),
                    None => (st, KeyAction::Nothing),
                },
                _ => (st, KeyAction::Nothing),
            },
            Focus::Results => (st, KeyAction::Nothing),
            Focus::LayerList => match key {
                BatchKey::Char('j') | BatchKey::Down => (
                    KeyState { layer_selected: select_down(st.layer_selected, st.layer_count), ..st },
                    KeyAction::Nothing,
                ),
                BatchKey::Char('k') | BatchKey::Up => (
                    KeyState { layer_selected: select_up(st.layer_selected, st.layer_count), ..st },
                    KeyAction::Nothing,
                ),
                _ => (st, KeyAction::Nothing),
            },
            Focus::Image => match key {
                BatchKey::Char('w') => (st, KeyAction::Pan(Pan::Up)),
                BatchKey::Char('s') => (st, KeyAction::Pan(Pan::Down)),
                BatchKey::Char('a') => (st, KeyAction::Pan(Pan::Left)),
                BatchKey::Char('d') => (st, KeyAction::Pan(Pan::Right)),
                BatchKey::Up => (KeyState { cursor_y: dec_sat(st.cursor_y), ..st }, KeyAction::Nothing),
                BatchKey::Down => match st.selected_image {
                    Some(img) => (
                        KeyState { cursor_y: inc_within(st.cursor_y, img.height), ..st },
                        KeyAction::Nothing,
                    ),
                    None => (st, KeyAction::Nothing),
                },
                BatchKey::Left => (KeyState { cursor_x: dec_sat(st.cursor_x), ..st }, KeyAction::Nothing),
                BatchKey::Right => match st.selected_image {
                    Some(img) => (
                        KeyState { cursor_x: inc_within(st.cursor_x, img.width), ..st },
                        KeyAction::Nothing,
                    ),
                    None => (st, KeyAction::Nothing),
                },
                BatchKey::Char('z') => (st, KeyAction::ZoomIn),
                BatchKey::Char('x') => (st, KeyAction::ZoomOut),
                BatchKey::Char('b') => (
                    KeyState { backend: backend_after(st.backend), ..st },
                    KeyAction::Nothing,
                ),
                BatchKey::Char('l') => (
                    KeyState {
                        z_index: if st.z_index == 1 {
                            -1i32
                        } else {
                            1i32
                        },
                        ..st
                    },
                    KeyAction::Nothing,
                ),
                _ => (st, KeyAction::Nothing),
            },
        },
    }
}

fn inc_within_exec(v: usize, size: usize) -> (r: usize)
    requires
        v < usize::MAX,
    ensures
        r == inc_within(v, size),
{
    let last = size.saturating_sub(1);
    if v + 1 < last {
        v + 1
    } else {
        last
    }
}

/// Decides what a key does in the scan app (`key_step`): the state to move
/// to and the action to take. The app performs the action (running the
/// scan, saving recipes, panning and zooming the image) and keeps the
/// state.
pub fn handle_key(st: KeyState, key: BatchKey) -> (r: (KeyState, KeyAction))
    requires
        st.cursor_x < usize::MAX,
        st.cursor_y < usize::MAX,
    ensures
        r == key_step(st, key),
{
    match key {
        BatchKey::Tab => {
            return (KeyState { focus: st.focus.next(), ..st }, KeyAction::Nothing);
        },
        BatchKey::Esc | BatchKey::Char('q') => {
            return (st, KeyAction::Quit);
        },
        _ => {},
    }
    let in_recipes: Option<usize> = match st.recipe_selected {
        Some(i) => if i < st.recipe_count {
            Some(i)
        } else {
            None
        },
        None => None,
    };
    match st.focus {
        Focus::Prompt => match key {
            BatchKey::Char('[') => (st, KeyAction::CycleField(-1)),
            BatchKey::Char(']') => (st, KeyAction::CycleField(1)),
            BatchKey::Backspace => (st, KeyAction::PopChar),
            BatchKey::Char('R') | BatchKey::Enter => {
                if st.prompt_empty {
                    (st, KeyAction::Nothing)
                } else if key == BatchKey::Enter {
                    (st, KeyAction::RunAnalysis)
                } else {
                    (st, KeyAction::SaveRecipe)
                }
            },
            BatchKey::Char(c) => (st, KeyAction::PushChar(c)),
            _ => (st, KeyAction::Nothing),
        },
        Focus::RecipeList => match key {
            BatchKey::Char('j') | BatchKey::Down => (
                KeyState { recipe_selected: select_down_exec(st.recipe_selected, st.recipe_count), ..st },
                KeyAction::Nothing,
            ),
            BatchKey::Char('k') | BatchKey::Up => (
                KeyState { recipe_selected: select_up_exec(st.recipe_selected, st.recipe_count), ..st },
                KeyAction::Nothing,
            ),
            BatchKey::Enter => match in_recipes {
                Some(i) => (KeyState { focus: Focus::Prompt, ..st }, KeyAction::ApplyRecipe(i)),
                None => (st, KeyAction::Nothing),
            },
            BatchKey::Char('c') | BatchKey::Char('C') => match in_recipes {
                Some(i) => (st, KeyAction::ExportRecipe(i)),
                None => (st, KeyAction::Nothing),
            },
            BatchKey::Char('x') => match in_recipes {
                Some(i) => (
                    KeyState { recipe_count: st.recipe_count - 1, ..st },
                    KeyAction::RemoveRecipe(i),
                ),
                None => (st, KeyAction::Nothing),
            },
            _ => (st, KeyAction::Nothing),
        },
        Focus::Results => (st, KeyAction::Nothing),
        Focus::LayerList => match key {
            BatchKey::Char('j') | BatchKey::Down => (
                KeyState { layer_selected: select_down_exec(st.layer_selected, st.layer_count), ..st },
                KeyAction::Nothing,
            ),
            BatchKey::Char('k') | BatchKey::Up => (
                KeyState { layer_selected: select_up_exec(st.layer_selected, st.layer_count), ..st },
                KeyAction::Nothing,
            ),
            _ => (st, KeyAction::Nothing),
        },
        Focus::Image => match key {
            BatchKey::Char('w') => (st, KeyAction::Pan(Pan::Up)),
            BatchKey::Char('s') => (st, KeyAction::Pan(Pan::Down)),
            BatchKey::Char('a') => (st, KeyAction::Pan(Pan::Left)),
            BatchKey::Char('d') => (st, KeyAction::Pan(Pan::Right)),
            BatchKey::Up => (KeyState { cursor_y: st.cursor_y.saturating_sub(1), ..st }, KeyAction::Nothing),
            BatchKey::Down => match st.selected_image {
                Some(img) => (
                    KeyState { cursor_y: inc_within_exec(st.cursor_y, img.height), ..st },
                    KeyAction::Nothing,
                ),
                None => (st, KeyAction::Nothing),
            },
            BatchKey::Left => (KeyState { cursor_x: st.cursor_x.saturating_sub(1), ..st }, KeyAction::Nothing),
            BatchKey::Right => match st.selected_image {
                Some(img) => (
                    KeyState { cursor_x: inc_within_exec(st.cursor_x, img.width), ..st },
                    KeyAction::Nothing,
                ),
                None => (st, KeyAction::Nothing),
            },
            BatchKey::Char('z') => (st, KeyAction::ZoomIn),
            BatchKey::Char('x') => (st, KeyAction::ZoomOut),
            BatchKey::Char('b') => {
                let next = match st.backend {
                    GraphicsBackend::Sixel => GraphicsBackend::Kitty,
                    GraphicsBackend::Kitty => GraphicsBackend::ITerm2,
                    GraphicsBackend::ITerm2 => GraphicsBackend::Ansi,
                    GraphicsBackend::Ansi => GraphicsBackend::Sixel,
                };
                (KeyState { backend: next, ..st }, KeyAction::Nothing)
            },
            BatchKey::Char('l') => (
                KeyState { z_index: if st.z_index == 1 { -1 } else { 1 }, ..st },
                KeyAction::Nothing,
            ),
            _ => (st, KeyAction::Nothing),
        },
    }
}

/// The layer selection kept when the heatmaps change: none for no
/// heatmaps, else the selected layer (the first when none was selected)
/// moved inside the list.
pub open spec fn clamped_selection(sel: Option<usize>, len: usize) -> Option<usize> {
    if len == 0 {
        None
    } else {
        match sel {
            Some(i) => Some(if i < len { i } else { (len - 1) as usize }),
            None => Some(0usize),
        }
    }
}

/// Keeps the layer selection inside a list of `len` heatmaps
/// (`clamped_selection`).
pub fn clamp_layer_selection(sel: Option<usize>, len: usize) -> (r: Option<usize>)
    ensures
        r == clamped_selection(sel, len),
{
    if len == 0 {
        None
    } else {
        match sel {
            Some(i) => Some(if i < len { i } else { len - 1 }),
            None => Some(0),
        }
    }
}

/// The last index of a run of `n` (zero for none), as
/// `n.saturating_sub(1)` gives it.
pub open spec fn last_index(n: usize) -> usize {
    if n == 0 {
        0
    } else {
        (n - 1) as usize
    }
}

/// The heatmap cursor after a new result: each coordinate cut to the last
/// position, `x` to the new sequence length and `y` to the height of the
/// first heatmap (of one row when there is none).
pub fn clamp_cursor(cursor_x: usize, cursor_y: usize, seq_len: usize, first_height: Option<usize>) -> (r: (
    usize,
    usize,
))
    ensures
        r.0 == (if cursor_x < last_index(seq_len) {
            cursor_x
        } else {
            last_index(seq_len)
        }),
        r.1 == ({
            let h = last_index(
                match first_height {
                    Some(h) => h,
                    None => 1,
                },
            );
            if cursor_y < h {
                cursor_y
            } else {
                h
            }
        }),
{
    let lx = seq_len.saturating_sub(1);
    let height = match first_height {
        Some(h) => h,
        None => 1,
    };
    let ly = height.saturating_sub(1);
    (if cursor_x < lx {
        cursor_x
    } else {
        lx
    }, if cursor_y < ly {
        cursor_y
    } else {
        ly
    })
}

/// Law: `q` and Esc quit from every panel, and change nothing.
pub proof fn lemma_quit_keys(st: KeyState)
    ensures
        key_step(st, BatchKey::Char('q')) == (st, KeyAction::Quit),
        key_step(st, BatchKey::Esc) == (st, KeyAction::Quit),
{
}

/// Law: Tab moves the focus to the next panel (prompt, recipe list,
/// results, layer list, image, then the prompt again), changes nothing
/// else and asks for nothing; five Tabs give back the state.
pub proof fn lemma_tab_cycles(st: KeyState)
    ensures
        key_step(st, BatchKey::Tab) == (KeyState { focus: focus_after(st.focus), ..st }, KeyAction::Nothing),
        focus_after(Focus::Prompt) == Focus::RecipeList,
        focus_after(Focus::RecipeList) == Focus::Results,
        focus_after(Focus::Results) == Focus::LayerList,
        focus_after(Focus::LayerList) == Focus::Image,
        focus_after(Focus::Image) == Focus::Prompt,
        key_step(
            key_step(
                key_step(key_step(key_step(st, BatchKey::Tab).0, BatchKey::Tab).0, BatchKey::Tab).0,
                BatchKey::Tab,
            ).0,
            BatchKey::Tab,
        ).0 == st,
{
}

/// Law: in a non-empty list, a step down undoes a step up and a step up
/// undoes a step down, from any entry of the list.
pub proof fn lemma_list_steps_undo(i: usize, count: usize)
    requires
        i < count,
    ensures
        select_up(select_down(Some(i), count), count) == Some(i),
        select_down(select_up(Some(i), count), count) == Some(i),
{
}

/// Law: moving the heatmap cursor down or right keeps it on the image (or
/// where it was, when it was already past the image's last row or column).
pub proof fn lemma_cursor_stays_on_image(st: KeyState, w: usize, h: usize)
    requires
        st.focus == Focus::Image,
        st.selected_image == Some(ImageSize { width: w, height: h }),
        st.cursor_x < w,
        st.cursor_y < h,
    ensures
        key_step(st, BatchKey::Down).0.cursor_y < h,
        key_step(st, BatchKey::Right).0.cursor_x < w,
{
}

/// Law: four presses of `b` come back to the first protocol, and `l` twice
/// restores the image's layer order once it is set.
pub proof fn lemma_image_toggles(g: GraphicsBackend, z: i32)
    ensures
        backend_after(backend_after(backend_after(backend_after(g)))) == g,
        (if (if z == 1 { -1i32 } else { 1i32 }) == 1 { -1i32 } else { 1i32 }) == (if z == 1 {
            1i32
        } else {
            -1i32
        }),
{
}

/// The key help of a panel other than the image.
pub fn focus_footer(f: Focus) -> (r: Option<&'static str>)
    ensures
        r == match f {
            Focus::Prompt => Some("Tab next | [ ] field | Enter scan | R save recipe | Q quit"),
            Focus::RecipeList => Some(
                "Tab next | j/k nav | Enter load | C export LQL | x delete | Q quit",
            ),
            Focus::Results => Some("Tab next | Q quit"),
            Focus::LayerList => Some("Tab next | j/k select layer | Q quit"),
            Focus::Image => None::<&'static str>,
        },
{
    match f {
        Focus::Prompt => Some("Tab next | [ ] field | Enter scan | R save recipe | Q quit"),
        Focus::RecipeList => Some("Tab next | j/k nav | Enter load | C export LQL | x delete | Q quit"),
        Focus::Results => Some("Tab next | Q quit"),
        Focus::LayerList => Some("Tab next | j/k select layer | Q quit"),
        Focus::Image => None,
    }
}

/// The analysis a recipe asks for. The ridge dead zone, a floating-point
/// value, is held as the text `Display` renders it as.
#[derive(Debug, Clone)]
pub struct RecipeAnalysis {
    pub mode: String,
    pub truth_spans: Vec<String>,
    pub materially_false_spans: Vec<String>,
    pub coherence_markers: Vec<String>,
    pub max_generated_tokens: Option<usize>,
    pub ridge_dead_zone: Option<String>,
}

/// The analysis mode a recipe's mode names: `workflow_probe`, else a fact
/// probe.
pub open spec fn recipe_mode(mode: Seq<char>) -> crate::lql::AnalysisMode {
    if mode == "workflow_probe"@ {
        crate::lql::AnalysisMode::WorkflowProbe
    } else {
        crate::lql::AnalysisMode::FactProbe
    }
}

/// A saved recipe: its name, prompt, description, the view it opens with,
/// and its analysis.
#[derive(Debug, Clone)]
pub struct Recipe {
    pub name: String,
    pub prompt: String,
    pub description: Option<String>,
    pub ui_defaults: RecipeUiDefaults,
    pub analysis: RecipeAnalysis,
}

/// The text of an optional count: its decimal, or nothing.
pub open spec fn count_text(n: Option<usize>) -> Seq<char> {
    match n {
        Some(v) => decimal(v as nat),
        None => Seq::empty(),
    }
}

/// The views of an optional string.
pub open spec fn opt_text(s: Option<String>) -> Option<Seq<char>> {
    match s {
        Some(x) => Some(x@),
        None => None,
    }
}

impl ManualTargetDraft {
    /// The form a recipe fills: its prompt and mode, its spans joined by
    /// `", "`, its token budget, and its ridge dead zone (`0.05` when it
    /// has none).
    pub fn from_recipe(recipe: &Recipe) -> (r: ManualTargetDraft)
        ensures
            r.prompt@ == recipe.prompt@,
            r.mode@ == recipe.analysis.mode@,
            r.truth_spans@ == join(string_views(recipe.analysis.truth_spans@), ", "@),
            r.materially_false_spans@ == join(
                string_views(recipe.analysis.materially_false_spans@),
                ", "@,
            ),
            r.coherence_markers@ == join(string_views(recipe.analysis.coherence_markers@), ", "@),
            r.max_generated_tokens@ == count_text(recipe.analysis.max_generated_tokens),
            r.ridge_dead_zone@ == match recipe.analysis.ridge_dead_zone {
                Some(z) => z@,
                None => "0.05"@,
            },
    {
        let a = &recipe.analysis;
        ManualTargetDraft {
            prompt: recipe.prompt.clone(),
            mode: a.mode.clone(),
            truth_spans: Self::join_spans(&a.truth_spans),
            materially_false_spans: Self::join_spans(&a.materially_false_spans),
            coherence_markers: Self::join_spans(&a.coherence_markers),
            max_generated_tokens: match a.max_generated_tokens {
                Some(v) => crate::text::string_from_chars(
                    crate::text::u64_decimal(v as u64).as_slice(),
                ),
                None => String::new(),
            },
            ridge_dead_zone: match &a.ridge_dead_zone {
                Some(z) => z.clone(),
                None => owned("0.05"),
            },
        }
    }

    /// The analysis the form asks for: its mode (`fact_probe` when blank),
    /// its comma-separated spans, its token budget when it holds a number,
    /// and the ridge dead zone the caller read from the form's field as a
    /// float (its text, when it held one).
    pub fn build_analysis(&self, ridge_dead_zone: Option<String>) -> (r: RecipeAnalysis)
        ensures
            r.mode@ == draft_mode(self.mode@),
            string_views(r.truth_spans@) == nonempty_trimmed(split_on(self.truth_spans@, ',')),
            string_views(r.materially_false_spans@) == nonempty_trimmed(
                split_on(self.materially_false_spans@, ','),
            ),
            string_views(r.coherence_markers@) == nonempty_trimmed(
                split_on(self.coherence_markers@, ','),
            ),
            r.max_generated_tokens == parse_usize_spec(trim(self.max_generated_tokens@)),
            opt_text(r.ridge_dead_zone) == opt_text(ridge_dead_zone),
    {
        let (truth_spans, materially_false_spans, coherence_markers) = self.spans();
        RecipeAnalysis {
            mode: self.analysis_mode(),
            truth_spans,
            materially_false_spans,
            coherence_markers,
            max_generated_tokens: self.max_generated_tokens_value(),
            ridge_dead_zone,
        }
    }

    /// The form saved as a recipe named `name`, opening on the selected
    /// head (and no particular layer).
    pub fn to_recipe(&self, name: String, selected_head: Option<usize>, ridge_dead_zone: Option<String>) -> (r:
        Recipe)
        ensures
            r.name@ == name@,
            r.prompt@ == self.prompt@,
            r.description is None,
            r.ui_defaults.layer is None,
            r.ui_defaults.head == selected_head,
            r.analysis.mode@ == draft_mode(self.mode@),
            string_views(r.analysis.truth_spans@) == nonempty_trimmed(split_on(self.truth_spans@, ',')),
            string_views(r.analysis.materially_false_spans@) == nonempty_trimmed(
                split_on(self.materially_false_spans@, ','),
            ),
            string_views(r.analysis.coherence_markers@) == nonempty_trimmed(
                split_on(self.coherence_markers@, ','),
            ),
            r.analysis.max_generated_tokens == parse_usize_spec(trim(self.max_generated_tokens@)),
            opt_text(r.analysis.ridge_dead_zone) == opt_text(ridge_dead_zone),
    {
        Recipe {
            name,
            prompt: self.prompt.clone(),
            description: None,
            ui_defaults: RecipeUiDefaults { layer: None, head: selected_head },
            analysis: self.build_analysis(ridge_dead_zone),
        }
    }
}

/// Loading a recipe: the form it fills, and the layer to select when the
/// recipe opens on one.
pub fn apply_recipe(recipe: &Recipe) -> (r: (ManualTargetDraft, Option<usize>))
    ensures
        r.0.prompt@ == recipe.prompt@,
        r.0.mode@ == recipe.analysis.mode@,
        r.0.truth_spans@ == join(string_views(recipe.analysis.truth_spans@), ", "@),
        r.0.materially_false_spans@ == join(
            string_views(recipe.analysis.materially_false_spans@),
            ", "@,
        ),
        r.0.coherence_markers@ == join(string_views(recipe.analysis.coherence_markers@), ", "@),
        r.0.max_generated_tokens@ == count_text(recipe.analysis.max_generated_tokens),
        r.0.ridge_dead_zone@ == match recipe.analysis.ridge_dead_zone {
            Some(z) => z@,
            None => "0.05"@,
        },
        r.1 == recipe.ui_defaults.layer,
{
    (ManualTargetDraft::from_recipe(recipe), recipe.ui_defaults.layer)
}

/// A copy of a list of strings.
pub(crate) fn copy_strings(v: &Vec<String>) -> (r: Vec<String>)
    ensures
        r@ == v@,
{
    let mut r: Vec<String> = Vec::new();
    let mut i: usize = 0;
    while i < v.len()
        invariant
            i <= v@.len(),
            r@ == v@.take(i as int),
        decreases v.len() - i,
    {
        r.push(v[i].clone());
        assert(v@.take(i + 1) == v@.take(i as int).push(v@[i as int]));
        i = i + 1;
    }
    assert(v@.take(v.len() as int) == v@);
    r
}

/// The `ANALYZE INFER` statement that runs a recipe's analysis on a
/// prompt, asking for the `top` predictions as JSON.
pub fn build_analyze_infer_ast(
    prompt: &str,
    analysis: &RecipeAnalysis,
    top: usize,
) -> (r: crate::statement::Statement)
    ensures
        r matches crate::statement::Statement::AnalyzeInfer {
            prompt: p,
            mode,
            truth_spans,
            materially_false_spans,
            coherence_markers,
            max_generated_tokens,
            ridge_dead_zone,
            top: t,
            format,
        } && p@ == prompt@ && mode == recipe_mode(analysis.mode@) && truth_spans@
            == analysis.truth_spans@ && materially_false_spans@ == analysis.materially_false_spans@
            && coherence_markers@ == analysis.coherence_markers@ && max_generated_tokens == (
        match analysis.max_generated_tokens {
            Some(v) => Some(v as u32),
            None => None,
        }) && ridge_dead_zone == analysis.ridge_dead_zone && t == Some(top as u32) && format
            == Some(crate::lql::OutputFormat::Json),
{
    let mode = if crate::lql::str_eq(analysis.mode.as_str(), "workflow_probe") {
        crate::lql::AnalysisMode::WorkflowProbe
    } else {
        crate::lql::AnalysisMode::FactProbe
    };
    let max_generated_tokens = match analysis.max_generated_tokens {
        Some(v) => Some(#[verifier::truncate] (v as u32)),
        None => None,
    };
    let ridge_dead_zone = match &analysis.ridge_dead_zone {
        Some(t) => Some(t.clone()),
        None => None,
    };
    crate::statement::Statement::AnalyzeInfer {
        prompt: owned(prompt),
        mode,
        truth_spans: copy_strings(&analysis.truth_spans),
        materially_false_spans: copy_strings(&analysis.materially_false_spans),
        coherence_markers: copy_strings(&analysis.coherence_markers),
        max_generated_tokens,
        ridge_dead_zone,
        top: Some(#[verifier::truncate] (top as u32)),
        format: Some(crate::lql::OutputFormat::Json),
    }
}

/// Each span is non-empty, has no whitespace at either end, and holds no
/// comma.
pub open spec fn clean_spans(xs: Seq<Seq<char>>) -> bool {
    forall|i: int|
        0 <= i < xs.len() ==> (#[trigger] xs[i]).len() > 0 && crate::text::is_trimmed(xs[i])
            && !xs[i].contains(',')
}

/// Splitting clean spans joined by `", "` at the commas, trimming the
/// pieces and dropping empty ones gives the spans back.
pub proof fn lemma_spans_round_trip(xs: Seq<Seq<char>>)
    requires
        clean_spans(xs),
    ensures
        nonempty_trimmed(split_on(join(xs, ", "@), ',')) == xs,
    decreases xs.len(),
{
    reveal_strlit(", ");
    if xs.len() == 0 {
        let e = Seq::<char>::empty();
        crate::text::lemma_split_whole(e, ',');
        assert(trim(e).len() == 0);
        assert(seq![e].drop_last() =~= Seq::<Seq<char>>::empty());
        assert(join(xs, ", "@) == e);
        assert(nonempty_trimmed(seq![e]) == nonempty_trimmed(Seq::<Seq<char>>::empty()));
        assert(xs =~= Seq::<Seq<char>>::empty());
    } else if xs.len() == 1 {
        let x = xs[0];
        crate::text::lemma_split_whole(x, ',');
        crate::text::lemma_trim_padded(x, 0);
        assert(Seq::new(0, |i: int| ' ') + x =~= x);
        assert(seq![x].drop_last() =~= Seq::<Seq<char>>::empty());
        assert(seq![x] =~= xs);
        assert(join(xs, ", "@) == x);
        assert(trim(x) == x);
        assert(nonempty_trimmed(seq![x]) == nonempty_trimmed(Seq::<Seq<char>>::empty()).push(x));
    } else {
        let d = xs.drop_last();
        let x = xs.last();
        assert(clean_spans(d)) by {
            assert forall|i: int| 0 <= i < d.len() implies (#[trigger] d[i]).len() > 0
                && crate::text::is_trimmed(d[i]) && !d[i].contains(',') by {
                assert(d[i] == xs[i]);
            }
        }
        lemma_spans_round_trip(d);
        let sx = seq![' '] + x;
        assert(join(xs, ", "@) =~= join(d, ", "@) + seq![','] + sx);
        crate::text::lemma_split_concat(join(d, ", "@), sx, ',');
        assert(!sx.contains(',')) by {
            if sx.contains(',') {
                let k = choose|k: int| 0 <= k < sx.len() && sx[k] == ',';
                assert(x[k - 1] == sx[k]);
                assert(x.contains(','));
            }
        }
        crate::text::lemma_split_whole(sx, ',');
        crate::text::lemma_trim_padded(x, 1);
        assert(Seq::new(1, |i: int| ' ') + x =~= sx);
        let pieces = split_on(join(xs, ", "@), ',');
        assert(pieces =~= split_on(join(d, ", "@), ',').push(sx));
        assert(pieces.drop_last() =~= split_on(join(d, ", "@), ','));
        assert(d.push(x) =~= xs);
        assert(trim(pieces.last()) == x);
        assert(nonempty_trimmed(pieces) == nonempty_trimmed(pieces.drop_last()).push(x));
    }
}

/// Loading a recipe into the form and building the analysis back from the
/// form gives the recipe's analysis: its mode, its three lists of spans
/// and its token budget come back (the ridge dead zone is read back as the
/// caller gives it); this holds when the mode is non-empty with no
/// whitespace at either end, and each span is non-empty, has no
/// whitespace at either end and holds no comma.
pub proof fn lemma_recipe_round_trip(a: RecipeAnalysis)
    requires
        a.mode@.len() > 0,
        crate::text::is_trimmed(a.mode@),
        clean_spans(string_views(a.truth_spans@)),
        clean_spans(string_views(a.materially_false_spans@)),
        clean_spans(string_views(a.coherence_markers@)),
    ensures
        draft_mode(a.mode@) == a.mode@,
        nonempty_trimmed(split_on(join(string_views(a.truth_spans@), ", "@), ','))
            == string_views(a.truth_spans@),
        nonempty_trimmed(split_on(join(string_views(a.materially_false_spans@), ", "@), ','))
            == string_views(a.materially_false_spans@),
        nonempty_trimmed(split_on(join(string_views(a.coherence_markers@), ", "@), ','))
            == string_views(a.coherence_markers@),
        parse_usize_spec(trim(count_text(a.max_generated_tokens))) == a.max_generated_tokens,
{
    crate::text::lemma_trim_padded(a.mode@, 0);
    assert(Seq::new(0, |i: int| ' ') + a.mode@ =~= a.mode@);
    lemma_spans_round_trip(string_views(a.truth_spans@));
    lemma_spans_round_trip(string_views(a.materially_false_spans@));
    lemma_spans_round_trip(string_views(a.coherence_markers@));
    match a.max_generated_tokens {
        Some(v) => crate::text::lemma_parse_decimal(v),
        None => {
            let e = Seq::<char>::empty();
            assert(trim(e) =~= e);
        },
    }
}

} // verus!

//! LQL statements and their text: the statement tree the parser builds and
//! the executor runs, and the LQL source that each statement of the query
//! and lifecycle kinds prints as.
//!
//! A floating-point literal is held as the text `Display` renders its value
//! as (the shortest decimal that reads back to it), which is what its LQL
//! text shows.

use vstd::prelude::*;
use crate::lql::{
    quote_string, quoted, AnalysisMode, Assignment, CompareOp, CompileConflict, CompileTarget,
    Component, Condition, ConflictStrategy, DescribeMode, ExplainMode, ExportFormat, ExtractLevel,
    Field, GraphExportFormat, LayerBand, NearestClause, OrderBy, OutputFormat, Range, SelectSource,
    TokenGroupBy, TokenSortBy, TracePositionMode, UseTarget, Value, VindexRef,
    analysis_mode_keyword, output_format_keyword,
};
use crate::text::{debug_str, decimal, push_chars, str_debug, u64_decimal};

verus! {

/// An LQL statement.
#[derive(Debug)]
pub enum Statement {
    Extract {
        model: String,
        output: String,
        components: Option<Vec<Component>>,
        layers: Option<Range>,
        extract_level: ExtractLevel,
    },
    Compile {
        vindex: VindexRef,
        output: String,
        format: Option<OutputFormat>,
        target: CompileTarget,
        on_conflict: Option<CompileConflict>,
    },
    Diff {
        a: VindexRef,
        b: VindexRef,
        layer: Option<u32>,
        relation: Option<String>,
        limit: Option<u32>,
        into_patch: Option<String>,
        into_report: Option<String>,
    },
    Export { vindex: VindexRef, output: String, format: GraphExportFormat },
    Use { target: UseTarget },
    Walk {
        prompt: String,
        top: Option<u32>,
        layers: Option<Range>,
        mode: Option<crate::lql::WalkMode>,
        compare: bool,
    },
    Infer { prompt: String, top: Option<u32>, compare: bool },
    AnalyzeInfer {
        prompt: String,
        mode: AnalysisMode,
        truth_spans: Vec<String>,
        materially_false_spans: Vec<String>,
        coherence_markers: Vec<String>,
        max_generated_tokens: Option<u32>,
        ridge_dead_zone: Option<String>,
        top: Option<u32>,
        format: Option<OutputFormat>,
    },
    Select {
        source: SelectSource,
        fields: Vec<Field>,
        conditions: Vec<Condition>,
        nearest: Option<NearestClause>,
        order: Option<OrderBy>,
        limit: Option<u32>,
    },
    Describe {
        entity: String,
        band: Option<LayerBand>,
        layer: Option<u32>,
        relations_only: bool,
        mode: DescribeMode,
        stream: bool,
    },
    Explain {
        prompt: String,
        mode: ExplainMode,
        layers: Option<Range>,
        band: Option<LayerBand>,
        verbose: bool,
        top: Option<u32>,
        relations_only: bool,
        with_attention: bool,
    },
    Insert {
        entity: String,
        relation: String,
        target: String,
        layer: Option<u32>,
        confidence: Option<String>,
        alpha: Option<String>,
    },
    Delete { conditions: Vec<Condition> },
    Update { set: Vec<Assignment>, conditions: Vec<Condition> },
    Merge { source: String, target: Option<String>, conflict: Option<ConflictStrategy> },
    ShowRelations { layer: Option<u32>, with_examples: bool, mode: DescribeMode },
    ShowLayers { range: Option<Range> },
    ShowFeatures { layer: u32, conditions: Vec<Condition>, limit: Option<u32> },
    ShowEntities { layer: Option<u32>, limit: Option<u32> },
    ShowTokens {
        layer: Option<u32>,
        conditions: Vec<Condition>,
        verbose: bool,
        group_by: Option<TokenGroupBy>,
        order_by: Option<TokenSortBy>,
        limit: Option<u32>,
        export_format: Option<ExportFormat>,
    },
    ShowModels,
    Stats { vindex: Option<String> },
    BeginPatch { path: String },
    SavePatch,
    ApplyPatch { path: String },
    ShowPatches,
    RemovePatch { path: String },
    Trace {
        prompt: String,
        answer: Option<String>,
        decompose: bool,
        layers: Option<Range>,
        positions: Option<TracePositionMode>,
        save: Option<String>,
    },
    Pipe { left: Box<Statement>, right: Box<Statement> },
}

// ───────────────────────── names as `Debug` writes them ─────────────────────────

/// How `{:?}` writes a vindex reference.
pub open spec fn vindex_debug(v: VindexRef) -> Seq<char> {
    match v {
        VindexRef::Path(p) => "Path("@ + str_debug(p@) + ")"@,
        VindexRef::Current => "Current"@,
    }
}

/// How `{:?}` writes a component.
pub open spec fn component_name(c: Component) -> Seq<char> {
    match c {
        Component::FfnGate => "FfnGate"@,
        Component::FfnDown => "FfnDown"@,
        Component::FfnUp => "FfnUp"@,
        Component::Embeddings => "Embeddings"@,
        Component::AttnOv => "AttnOv"@,
        Component::AttnQk => "AttnQk"@,
    }
}

/// How `{:?}` writes an extract level.
pub open spec fn extract_level_name(l: ExtractLevel) -> Seq<char> {
    match l {
        ExtractLevel::Browse => "Browse"@,
        ExtractLevel::Inference => "Inference"@,
        ExtractLevel::All => "All"@,
    }
}

/// How `{:?}` writes a compile target.
pub open spec fn compile_target_name(t: CompileTarget) -> Seq<char> {
    match t {
        CompileTarget::Model => "Model"@,
        CompileTarget::Vindex => "Vindex"@,
    }
}

/// How `{:?}` writes a compile conflict policy.
pub open spec fn compile_conflict_name(c: CompileConflict) -> Seq<char> {
    match c {
        CompileConflict::LastWins => "LastWins"@,
        CompileConflict::HighestConfidence => "HighestConfidence"@,
        CompileConflict::Fail => "Fail"@,
    }
}

/// How `{:?}` writes a walk mode.
pub open spec fn walk_mode_name(m: crate::lql::WalkMode) -> Seq<char> {
    match m {
        crate::lql::WalkMode::Hybrid => "Hybrid"@,
        crate::lql::WalkMode::Pure => "Pure"@,
        crate::lql::WalkMode::Dense => "Dense"@,
    }
}

/// How `{:?}` writes a layer band.
pub open spec fn layer_band_name(b: LayerBand) -> Seq<char> {
    match b {
        LayerBand::Syntax => "Syntax"@,
        LayerBand::Knowledge => "Knowledge"@,
        LayerBand::Output => "Output"@,
        LayerBand::All => "All"@,
    }
}

/// How `{:?}` writes a describe mode.
pub open spec fn describe_mode_name(m: DescribeMode) -> Seq<char> {
    match m {
        DescribeMode::Verbose => "Verbose"@,
        DescribeMode::Brief => "Brief"@,
        DescribeMode::Raw => "Raw"@,
    }
}

/// How `{:?}` writes an explain mode.
pub open spec fn explain_mode_name(m: ExplainMode) -> Seq<char> {
    match m {
        ExplainMode::Walk => "Walk"@,
        ExplainMode::Infer => "Infer"@,
    }
}

/// How `{:?}` writes a trace position mode.
pub open spec fn positions_name(p: TracePositionMode) -> Seq<char> {
    match p {
        TracePositionMode::Last => "Last"@,
        TracePositionMode::All => "All"@,
    }
}

/// How `{:?}` writes a graph export format.
pub open spec fn graph_format_name(f: GraphExportFormat) -> Seq<char> {
    match f {
        GraphExportFormat::Turtle => "Turtle"@,
        GraphExportFormat::Neo4j => "Neo4j"@,
        GraphExportFormat::JsonLd => "JsonLd"@,
        GraphExportFormat::Graphml => "Graphml"@,
    }
}

/// How `{:?}` writes a select source.
pub open spec fn select_source_name(s: SelectSource) -> Seq<char> {
    match s {
        SelectSource::Edges => "Edges"@,
        SelectSource::Features => "Features"@,
        SelectSource::Entities => "Entities"@,
        SelectSource::Tokens => "Tokens"@,
    }
}

/// How `{:?}` writes a comparison operator.
pub open spec fn compare_op_name(o: CompareOp) -> Seq<char> {
    match o {
        CompareOp::Eq => "Eq"@,
        CompareOp::Neq => "Neq"@,
        CompareOp::Gt => "Gt"@,
        CompareOp::Lt => "Lt"@,
        CompareOp::Gte => "Gte"@,
        CompareOp::Lte => "Lte"@,
        CompareOp::Like => "Like"@,
        CompareOp::In => "In"@,
    }
}

// ───────────────────────── clauses ─────────────────────────

/// A signed integer in decimal.
pub open spec fn i64_text(i: i64) -> Seq<char> {
    if i < 0 {
        "-"@ + decimal((0 - i) as nat)
    } else {
        decimal(i as nat)
    }
}

/// `kw` and the number, when there is one.
pub open spec fn num_clause(kw: Seq<char>, v: Option<u32>) -> Seq<char> {
    match v {
        Some(n) => kw + decimal(n as nat),
        None => Seq::empty(),
    }
}

/// `kw` and the quoted string, when there is one.
pub open spec fn quoted_clause(kw: Seq<char>, v: Option<String>) -> Seq<char> {
    match v {
        Some(s) => kw + quoted(s@),
        None => Seq::empty(),
    }
}

/// `kw` and the literal, when there is one.
pub open spec fn literal_clause(kw: Seq<char>, v: Option<String>) -> Seq<char> {
    match v {
        Some(s) => kw + s@,
        None => Seq::empty(),
    }
}

/// `kw` when the flag is set.
pub open spec fn flag_clause(kw: Seq<char>, b: bool) -> Seq<char> {
    if b {
        kw
    } else {
        Seq::empty()
    }
}

/// ` LAYERS start..end`, when there is a range.
pub open spec fn layers_clause(r: Option<Range>) -> Seq<char> {
    match r {
        Some(r) => " LAYERS "@ + decimal(r.start as nat) + ".."@ + decimal(r.end as nat),
        None => Seq::empty(),
    }
}

/// How a literal is written in a condition or assignment.
pub open spec fn value_text(v: Value) -> Seq<char>
    decreases v,
{
    match v {
        Value::String(s) => quoted(s@),
        Value::Number(t) => t@,
        Value::Integer(i) => i64_text(i),
        Value::List(vals) => "("@ + values_text(vals@) + ")"@,
    }
}

/// Literals joined with `", "`.
pub open spec fn values_text(s: Seq<Value>) -> Seq<char>
    decreases s,
{
    if s.len() == 0 {
        Seq::empty()
    } else if s.len() == 1 {
        value_text(s[0])
    } else {
        values_text(s.drop_last()) + ", "@ + value_text(s.last())
    }
}

/// `field Op value`.
pub open spec fn condition_text(c: Condition) -> Seq<char> {
    c.field@ + " "@ + compare_op_name(c.op) + " "@ + value_text(c.value)
}

/// Conditions joined with `" AND "`.
pub open spec fn conditions_text(s: Seq<Condition>) -> Seq<char>
    decreases s.len(),
{
    if s.len() == 0 {
        Seq::empty()
    } else if s.len() == 1 {
        condition_text(s[0])
    } else {
        conditions_text(s.drop_last()) + " AND "@ + condition_text(s.last())
    }
}

/// ` WHERE ...`, when there are conditions.
pub open spec fn where_clause(s: Seq<Condition>) -> Seq<char> {
    if s.len() == 0 {
        Seq::empty()
    } else {
        " WHERE "@ + conditions_text(s)
    }
}

/// Items joined with `", "`, each written by `f`.
pub open spec fn comma_list<T>(s: Seq<T>, f: spec_fn(T) -> Seq<char>) -> Seq<char>
    decreases s.len(),
{
    if s.len() == 0 {
        Seq::empty()
    } else if s.len() == 1 {
        f(s[0])
    } else {
        comma_list(s.drop_last(), f) + ", "@ + f(s.last())
    }
}

/// How a selected column is written.
pub open spec fn field_text(f: Field) -> Seq<char> {
    match f {
        Field::Star => "*"@,
        Field::Named(n) => n@,
    }
}

/// `field = value`.
pub open spec fn assignment_text(a: Assignment) -> Seq<char> {
    a.field@ + " = "@ + value_text(a.value)
}

/// A list of strings, each quoted, joined with `", "`.
pub open spec fn quoted_list(s: Seq<String>) -> Seq<char> {
    comma_list(s, |x: String| quoted(x@))
}

/// ` kw (quoted, ...)`, when there are strings.
pub open spec fn spans_clause(kw: Seq<char>, s: Seq<String>) -> Seq<char> {
    if s.len() == 0 {
        Seq::empty()
    } else {
        kw + " ("@ + quoted_list(s) + ")"@
    }
}

// ───────────────────────── statements ─────────────────────────

/// `EXTRACT` text.
pub open spec fn extract_text(
    model: String,
    output: String,
    components: Option<Vec<Component>>,
    layers: Option<Range>,
    extract_level: ExtractLevel,
) -> Seq<char> {
    "EXTRACT MODEL "@ + quoted(model@) + " INTO "@ + quoted(output@) + match components {
        Some(c) => if c@.len() > 0 {
            " COMPONENTS ("@ + comma_list(c@, |x: Component| component_name(x)) + ")"@
        } else {
            Seq::empty()
        },
        None => Seq::empty(),
    } + layers_clause(layers) + " LEVEL "@ + extract_level_name(extract_level) + ";"@
}

/// `COMPILE` text.
pub open spec fn compile_text(
    vindex: VindexRef,
    output: String,
    format: Option<OutputFormat>,
    target: CompileTarget,
    on_conflict: Option<CompileConflict>,
) -> Seq<char> {
    "COMPILE "@ + vindex_debug(vindex) + " INTO "@ + quoted(output@) + match format {
        Some(f) => " FORMAT "@ + output_format_keyword(f),
        None => Seq::empty(),
    } + " TARGET "@ + compile_target_name(target) + match on_conflict {
        Some(c) => " ON_CONFLICT "@ + compile_conflict_name(c),
        None => Seq::empty(),
    } + ";"@
}

/// `USE` text.
pub open spec fn use_text(target: UseTarget) -> Seq<char> {
    (match target {
        UseTarget::Vindex(p) => "USE "@ + quoted(p@),
        UseTarget::Model { id, auto_extract } => "USE MODEL "@ + quoted(id@) + flag_clause(
            " AUTO_EXTRACT"@,
            auto_extract,
        ),
        UseTarget::Remote(u) => "USE REMOTE "@ + quoted(u@),
    }) + ";"@
}

/// `WALK` text.
pub open spec fn walk_text(
    prompt: String,
    top: Option<u32>,
    layers: Option<Range>,
    mode: Option<crate::lql::WalkMode>,
    compare: bool,
) -> Seq<char> {
    "WALK "@ + quoted(prompt@) + num_clause(" TOP "@, top) + layers_clause(layers) + match mode {
        Some(m) => " MODE "@ + walk_mode_name(m),
        None => Seq::empty(),
    } + flag_clause(" COMPARE"@, compare) + ";"@
}

/// `INFER` text.
pub open spec fn infer_text(prompt: String, top: Option<u32>, compare: bool) -> Seq<char> {
    "INFER "@ + quoted(prompt@) + num_clause(" TOP "@, top) + flag_clause(" COMPARE"@, compare)
        + ";"@
}

/// `ANALYZE INFER` text.
pub open spec fn analyze_infer_text(
    prompt: String,
    mode: AnalysisMode,
    truth_spans: Seq<String>,
    materially_false_spans: Seq<String>,
    coherence_markers: Seq<String>,
    max_generated_tokens: Option<u32>,
    ridge_dead_zone: Option<String>,
    top: Option<u32>,
    format: Option<OutputFormat>,
) -> Seq<char> {
    "ANALYZE INFER "@ + quoted(prompt@) + " MODE "@ + analysis_mode_keyword(mode) + spans_clause(
        " TRUTH_SPANS"@,
        truth_spans,
    ) + spans_clause(" FALSE_SPANS"@, materially_false_spans) + spans_clause(
        " COHERENCE_MARKERS"@,
        coherence_markers,
    ) + num_clause(" MAX_GENERATED_TOKENS "@, max_generated_tokens) + literal_clause(
        " RIDGE_DEAD_ZONE "@,
        ridge_dead_zone,
    ) + num_clause(" TOP "@, top) + match format {
        Some(f) => " FORMAT "@ + output_format_keyword(f),
        None => Seq::empty(),
    } + ";"@
}

/// `SELECT` text.
pub open spec fn select_text(
    source: SelectSource,
    fields: Seq<Field>,
    conditions: Seq<Condition>,
    nearest: Option<NearestClause>,
    order: Option<OrderBy>,
    limit: Option<u32>,
) -> Seq<char> {
    "SELECT "@ + comma_list(fields, |f: Field| field_text(f)) + " FROM "@ + select_source_name(
        source,
    ) + where_clause(conditions) + match nearest {
        Some(n) => " NEAREST "@ + quoted(n.entity@) + " AT LAYER "@ + decimal(n.layer as nat),
        None => Seq::empty(),
    } + match order {
        Some(o) => " ORDER BY "@ + o.field@ + " "@ + (if o.descending {
            "DESC"@
        } else {
            "ASC"@
        }),
        None => Seq::empty(),
    } + num_clause(" LIMIT "@, limit) + ";"@
}

/// `DESCRIBE` text.
pub open spec fn describe_text(
    entity: String,
    band: Option<LayerBand>,
    layer: Option<u32>,
    relations_only: bool,
    mode: DescribeMode,
    stream: bool,
) -> Seq<char> {
    "DESCRIBE "@ + quoted(entity@) + match band {
        Some(b) => " BAND "@ + layer_band_name(b),
        None => Seq::empty(),
    } + num_clause(" LAYER "@, layer) + flag_clause(" RELATIONS_ONLY"@, relations_only) + " MODE "@
        + describe_mode_name(mode) + flag_clause(" STREAM"@, stream) + ";"@
}

/// `EXPLAIN` text.
pub open spec fn explain_text(
    prompt: String,
    mode: ExplainMode,
    layers: Option<Range>,
    band: Option<LayerBand>,
    verbose: bool,
    top: Option<u32>,
    relations_only: bool,
    with_attention: bool,
) -> Seq<char> {
    "EXPLAIN "@ + quoted(prompt@) + " MODE "@ + explain_mode_name(mode) + layers_clause(layers)
        + match band {
        Some(b) => " BAND "@ + layer_band_name(b),
        None => Seq::empty(),
    } + flag_clause(" VERBOSE"@, verbose) + num_clause(" TOP "@, top) + flag_clause(
        " RELATIONS_ONLY"@,
        relations_only,
    ) + flag_clause(" WITH_ATTENTION"@, with_attention) + ";"@
}

/// `INSERT` text.
pub open spec fn insert_text(
    entity: String,
    relation: String,
    target: String,
    layer: Option<u32>,
    confidence: Option<String>,
    alpha: Option<String>,
) -> Seq<char> {
    "INSERT ("@ + quoted(entity@) + ", "@ + quoted(relation@) + ", "@ + quoted(target@) + ")"@
        + num_clause(" AT LAYER "@, layer) + literal_clause(" CONFIDENCE "@, confidence)
        + literal_clause(" ALPHA "@, alpha) + ";"@
}

/// `UPDATE` text.
pub open spec fn update_text(set: Seq<Assignment>, conditions: Seq<Condition>) -> Seq<char> {
    "UPDATE SET "@ + comma_list(set, |a: Assignment| assignment_text(a)) + where_clause(conditions)
        + ";"@
}

/// `TRACE` text.
pub open spec fn trace_text(
    prompt: String,
    answer: Option<String>,
    decompose: bool,
    layers: Option<Range>,
    positions: Option<TracePositionMode>,
    save: Option<String>,
) -> Seq<char> {
    "TRACE "@ + quoted(prompt@) + quoted_clause(" FOR "@, answer) + flag_clause(
        " DECOMPOSE"@,
        decompose,
    ) + layers_clause(layers) + match positions {
        Some(p) => " POSITIONS "@ + positions_name(p),
        None => Seq::empty(),
    } + quoted_clause(" SAVE "@, save) + ";"@
}

/// `DIFF` text.
pub open spec fn diff_text(
    a: VindexRef,
    b: VindexRef,
    layer: Option<u32>,
    relation: Option<String>,
    limit: Option<u32>,
    into_patch: Option<String>,
    into_report: Option<String>,
) -> Seq<char> {
    "DIFF "@ + vindex_debug(a) + " "@ + vindex_debug(b) + num_clause(" LAYER "@, layer)
        + quoted_clause(" RELATION "@, relation) + num_clause(" LIMIT "@, limit) + quoted_clause(
        " INTO PATCH "@,
        into_patch,
    ) + quoted_clause(" INTO REPORT "@, into_report) + ";"@
}

/// `EXPORT` text.
pub open spec fn export_text(vindex: VindexRef, output: String, format: GraphExportFormat) -> Seq<
    char,
> {
    "EXPORT "@ + vindex_debug(vindex) + " INTO "@ + quoted(output@) + " FORMAT "@
        + graph_format_name(format) + ";"@
}

/// The LQL text of a statement of the query and lifecycle kinds; `None`
/// for the others (`MERGE`, `SHOW ...`, `STATS`, the patch statements and
/// pipes), which print as their `Debug` form.
pub open spec fn lql_text(s: Statement) -> Option<Seq<char>> {
    match s {
        Statement::Extract { model, output, components, layers, extract_level } => Some(
            extract_text(model, output, components, layers, extract_level),
        ),
        Statement::Compile { vindex, output, format, target, on_conflict } => Some(
            compile_text(vindex, output, format, target, on_conflict),
        ),
        Statement::Use { target } => Some(use_text(target)),
        Statement::Walk { prompt, top, layers, mode, compare } => Some(
            walk_text(prompt, top, layers, mode, compare),
        ),
        Statement::Infer { prompt, top, compare } => Some(infer_text(prompt, top, compare)),
        Statement::AnalyzeInfer {
            prompt,
            mode,
            truth_spans,
            materially_false_spans,
            coherence_markers,
            max_generated_tokens,
            ridge_dead_zone,
            top,
            format,
        } => Some(
            analyze_infer_text(
                prompt,
                mode,
                truth_spans@,
                materially_false_spans@,
                coherence_markers@,
                max_generated_tokens,
                ridge_dead_zone,
                top,
                format,
            ),
        ),
        Statement::Select { source, fields, conditions, nearest, order, limit } => Some(
            select_text(source, fields@, conditions@, nearest, order, limit),
        ),
        Statement::Describe { entity, band, layer, relations_only, mode, stream } => Some(
            describe_text(entity, band, layer, relations_only, mode, stream),
        ),
        Statement::Explain {
            prompt,
            mode,
            layers,
            band,
            verbose,
            top,
            relations_only,
            with_attention,
        } => Some(
            explain_text(prompt, mode, layers, band, verbose, top, relations_only, with_attention),
        ),
        Statement::Insert { entity, relation, target, layer, confidence, alpha } => Some(
            insert_text(entity, relation, target, layer, confidence, alpha),
        ),
        Statement::Delete { conditions } => Some("DELETE"@ + where_clause(conditions@) + ";"@),
        Statement::Update { set, conditions } => Some(update_text(set@, conditions@)),
        Statement::Trace { prompt, answer, decompose, layers, positions, save } => Some(
            trace_text(prompt, answer, decompose, layers, positions, save),
        ),
        Statement::Diff { a, b, layer, relation, limit, into_patch, into_report } => Some(
            diff_text(a, b, layer, relation, limit, into_patch, into_report),
        ),
        Statement::Export { vindex, output, format } => Some(export_text(vindex, output, format)),
        _ => None,
    }
}

// ───────────────────────── printing ─────────────────────────

fn append_decimal(out: &mut String, n: u64)
    ensures
        final(out)@ == old(out)@ + decimal(n as nat),
{
    let d = u64_decimal(n);
    push_chars(out, d.as_slice());
}

fn append_quoted(out: &mut String, s: &str)
    ensures
        final(out)@ == old(out)@ + quoted(s@),
{
    let q = quote_string(s);
    out.append(q.as_str());
}

fn append_num_clause(out: &mut String, kw: &str, v: Option<u32>)
    ensures
        final(out)@ == old(out)@ + num_clause(kw@, v),
{
    match v {
        Some(n) => {
            out.append(kw);
            append_decimal(out, n as u64);
        },
        None => {
            assert(old(out)@ + Seq::<char>::empty() == old(out)@);
        },
    }
}

fn append_quoted_clause(out: &mut String, kw: &str, v: &Option<String>)
    ensures
        final(out)@ == old(out)@ + quoted_clause(kw@, *v),
{
    match v {
        Some(x) => {
            out.append(kw);
            append_quoted(out, x.as_str());
        },
        None => {
            assert(old(out)@ + Seq::<char>::empty() == old(out)@);
        },
    }
}

fn append_literal_clause(out: &mut String, kw: &str, v: &Option<String>)
    ensures
        final(out)@ == old(out)@ + literal_clause(kw@, *v),
{
    match v {
        Some(x) => {
            out.append(kw);
            out.append(x.as_str());
        },
        None => {
            assert(old(out)@ + Seq::<char>::empty() == old(out)@);
        },
    }
}

fn append_flag(out: &mut String, kw: &str, b: bool)
    ensures
        final(out)@ == old(out)@ + flag_clause(kw@, b),
{
    if b {
        out.append(kw);
    } else {
        assert(old(out)@ + Seq::<char>::empty() == old(out)@);
    }
}

fn append_layers(out: &mut String, r: &Option<Range>)
    ensures
        final(out)@ == old(out)@ + layers_clause(*r),
{
    match r {
        Some(r) => {
            out.append(" LAYERS ");
            append_decimal(out, r.start as u64);
            out.append("..");
            append_decimal(out, r.end as u64);
        },
        None => {
            assert(old(out)@ + Seq::<char>::empty() == old(out)@);
        },
    }
}

fn append_i64(out: &mut String, i: i64)
    ensures
        final(out)@ == old(out)@ + i64_text(i),
{
    if i < 0 {
        out.append("-");
        let m: u64 = if i == i64::MIN {
            9_223_372_036_854_775_808
        } else {
            (0 - i) as u64
        };
        append_decimal(out, m);
    } else {
        append_decimal(out, i as u64);
    }
}

fn append_value(out: &mut String, v: &Value)
    ensures
        final(out)@ == old(out)@ + value_text(*v),
    decreases v,
{
    match v {
        Value::String(s) => append_quoted(out, s.as_str()),
        Value::Number(t) => out.append(t.as_str()),
        Value::Integer(i) => append_i64(out, *i),
        Value::List(vals) => {
            out.append("(");
            let ghost head = out@;
            let mut k: usize = 0;
            while k < vals.len()
                invariant
                    k <= vals@.len(),
                    *v == Value::List(*vals),
                    out@ == head + values_text(vals@.take(k as int)),
                decreases vals.len() - k,
            {
                assert(decreases_to!(*v => (*v)->List_0));
                assert(decreases_to!((*v)->List_0 => vals@));
                assert(decreases_to!(vals@ => vals@[k as int]));
                if k > 0 {
                    out.append(", ");
                }
                append_value(out, &vals[k]);
                proof {
                    let t = vals@.take(k + 1);
                    assert(t.drop_last() == vals@.take(k as int));
                    assert(t.last() == vals@[k as int]);
                    if k == 0 {
                        assert(t.len() == 1 && t[0] == vals@[0]);
                        assert(vals@.take(0).len() == 0);
                    }
                }
                k = k + 1;
            }
            assert(vals@.take(vals.len() as int) == vals@);
            out.append(")");
        },
    }
}

fn compare_op_str(o: &CompareOp) -> (r: &'static str)
    ensures
        r@ == compare_op_name(*o),
{
    match o {
        CompareOp::Eq => "Eq",
        CompareOp::Neq => "Neq",
        CompareOp::Gt => "Gt",
        CompareOp::Lt => "Lt",
        CompareOp::Gte => "Gte",
        CompareOp::Lte => "Lte",
        CompareOp::Like => "Like",
        CompareOp::In => "In",
    }
}

fn append_condition(out: &mut String, c: &Condition)
    ensures
        final(out)@ == old(out)@ + condition_text(*c),
{
    out.append(c.field.as_str());
    out.append(" ");
    out.append(compare_op_str(&c.op));
    out.append(" ");
    append_value(out, &c.value);
}

fn append_where(out: &mut String, cs: &Vec<Condition>)
    ensures
        final(out)@ == old(out)@ + where_clause(cs@),
{
    if cs.len() == 0 {
        assert(old(out)@ + Seq::<char>::empty() == old(out)@);
        return;
    }
    out.append(" WHERE ");
    let ghost head = out@;
    let mut k: usize = 0;
    while k < cs.len()
        invariant
            k <= cs@.len(),
            out@ == head + conditions_text(cs@.take(k as int)),
        decreases cs.len() - k,
    {
        if k > 0 {
            out.append(" AND ");
        }
        append_condition(out, &cs[k]);
        proof {
            let t = cs@.take(k + 1);
            assert(t.drop_last() == cs@.take(k as int));
            assert(t.last() == cs@[k as int]);
            if k == 0 {
                assert(t.len() == 1 && t[0] == cs@[0]);
            }
        }
        k = k + 1;
    }
    assert(cs@.take(cs.len() as int) == cs@);
}

proof fn lemma_comma_list_step<T>(s: Seq<T>, k: int, f: spec_fn(T) -> Seq<char>)
    requires
        0 <= k < s.len(),
    ensures
        comma_list(s.take(k + 1), f) == comma_list(s.take(k), f) + (if k > 0 {
            ", "@
        } else {
            Seq::<char>::empty()
        }) + f(s[k]),
{
    let t = s.take(k + 1);
    assert(t.drop_last() == s.take(k));
    assert(t.last() == s[k]);
    if k == 0 {
        assert(t.len() == 1 && t[0] == s[0]);
        assert(s.take(0).len() == 0);
        assert(comma_list(s.take(0), f) == Seq::<char>::empty());
        assert(Seq::<char>::empty() + Seq::<char>::empty() + f(s[0]) == f(s[0]));
    }
}

fn append_fields(out: &mut String, fs: &Vec<Field>)
    ensures
        final(out)@ == old(out)@ + comma_list(fs@, |f: Field| field_text(f)),
{
    let ghost head = out@;
    let ghost g = |f: Field| field_text(f);
    let mut k: usize = 0;
    assert(fs@.take(0).len() == 0);
    assert(head + comma_list(fs@.take(0), g) == head);
    while k < fs.len()
        invariant
            k <= fs@.len(),
            g == (|f: Field| field_text(f)),
            out@ == head + comma_list(fs@.take(k as int), g),
        decreases fs.len() - k,
    {
        let ghost before = out@;
        if k > 0 {
            out.append(", ");
        }
        match &fs[k] {
            Field::Star => out.append("*"),
            Field::Named(n) => out.append(n.as_str()),
        }
        proof {
            lemma_comma_list_step(fs@, k as int, g);
        }
        k = k + 1;
    }
    assert(fs@.take(fs.len() as int) == fs@);
}

fn append_assignments(out: &mut String, set: &Vec<Assignment>)
    ensures
        final(out)@ == old(out)@ + comma_list(set@, |a: Assignment| assignment_text(a)),
{
    let ghost head = out@;
    let ghost g = |a: Assignment| assignment_text(a);
    let mut k: usize = 0;
    assert(set@.take(0).len() == 0);
    assert(head + comma_list(set@.take(0), g) == head);
    while k < set.len()
        invariant
            k <= set@.len(),
            g == (|a: Assignment| assignment_text(a)),
            out@ == head + comma_list(set@.take(k as int), g),
        decreases set.len() - k,
    {
        if k > 0 {
            out.append(", ");
        }
        out.append(set[k].field.as_str());
        out.append(" = ");
        append_value(out, &set[k].value);
        proof {
            lemma_comma_list_step(set@, k as int, g);
        }
        k = k + 1;
    }
    assert(set@.take(set.len() as int) == set@);
}

fn append_spans(out: &mut String, kw: &str, spans: &Vec<String>)
    ensures
        final(out)@ == old(out)@ + spans_clause(kw@, spans@),
{
    if spans.len() == 0 {
        assert(old(out)@ + Seq::<char>::empty() == old(out)@);
        return;
    }
    out.append(kw);
    out.append(" (");
    let ghost head = out@;
    let ghost g = |x: String| quoted(x@);
    let mut k: usize = 0;
    assert(spans@.take(0).len() == 0);
    assert(head + comma_list(spans@.take(0), g) == head);
    while k < spans.len()
        invariant
            k <= spans@.len(),
            g == (|x: String| quoted(x@)),
            out@ == head + comma_list(spans@.take(k as int), g),
        decreases spans.len() - k,
    {
        if k > 0 {
            out.append(", ");
        }
        append_quoted(out, spans[k].as_str());
        proof {
            lemma_comma_list_step(spans@, k as int, g);
        }
        k = k + 1;
    }
    assert(spans@.take(spans.len() as int) == spans@);
    out.append(")");
}

fn component_str(c: Component) -> (r: &'static str)
    ensures
        r@ == component_name(c),
{
    match c {
        Component::FfnGate => "FfnGate",
        Component::FfnDown => "FfnDown",
        Component::FfnUp => "FfnUp",
        Component::Embeddings => "Embeddings",
        Component::AttnOv => "AttnOv",
        Component::AttnQk => "AttnQk",
    }
}

fn append_components(out: &mut String, comps: &Vec<Component>)
    ensures
        final(out)@ == old(out)@ + comma_list(comps@, |x: Component| component_name(x)),
{
    let ghost head = out@;
    let ghost g = |x: Component| component_name(x);
    let mut k: usize = 0;
    assert(comps@.take(0).len() == 0);
    assert(head + comma_list(comps@.take(0), g) == head);
    while k < comps.len()
        invariant
            k <= comps@.len(),
            g == (|x: Component| component_name(x)),
            out@ == head + comma_list(comps@.take(k as int), g),
        decreases comps.len() - k,
    {
        if k > 0 {
            out.append(", ");
        }
        out.append(component_str(comps[k]));
        proof {
            lemma_comma_list_step(comps@, k as int, g);
        }
        k = k + 1;
    }
    assert(comps@.take(comps.len() as int) == comps@);
}

fn append_vindex(out: &mut String, v: &VindexRef)
    ensures
        final(out)@ == old(out)@ + vindex_debug(*v),
{
    match v {
        VindexRef::Path(p) => {
            out.append("Path(");
            let d = debug_str(p.as_str());
            out.append(d.as_str());
            out.append(")");
        },
        VindexRef::Current => out.append("Current"),
    }
}

fn extract_level_str(x: ExtractLevel) -> (r: &'static str)
    ensures
        r@ == extract_level_name(x),
{
    match x {
        ExtractLevel::Browse => "Browse",
        ExtractLevel::Inference => "Inference",
        ExtractLevel::All => "All",
    }
}

fn compile_target_str(x: CompileTarget) -> (r: &'static str)
    ensures
        r@ == compile_target_name(x),
{
    match x {
        CompileTarget::Model => "Model",
        CompileTarget::Vindex => "Vindex",
    }
}

fn compile_conflict_str(x: CompileConflict) -> (r: &'static str)
    ensures
        r@ == compile_conflict_name(x),
{
    match x {
        CompileConflict::LastWins => "LastWins",
        CompileConflict::HighestConfidence => "HighestConfidence",
        CompileConflict::Fail => "Fail",
    }
}

fn walk_mode_str(x: crate::lql::WalkMode) -> (r: &'static str)
    ensures
        r@ == walk_mode_name(x),
{
    match x {
        crate::lql::WalkMode::Hybrid => "Hybrid",
        crate::lql::WalkMode::Pure => "Pure",
        crate::lql::WalkMode::Dense => "Dense",
    }
}

fn layer_band_str(x: LayerBand) -> (r: &'static str)
    ensures
        r@ == layer_band_name(x),
{
    match x {
        LayerBand::Syntax => "Syntax",
        LayerBand::Knowledge => "Knowledge",
        LayerBand::Output => "Output",
        LayerBand::All => "All",
    }
}

fn describe_mode_str(x: DescribeMode) -> (r: &'static str)
    ensures
        r@ == describe_mode_name(x),
{
    match x {
        DescribeMode::Verbose => "Verbose",
        DescribeMode::Brief => "Brief",
        DescribeMode::Raw => "Raw",
    }
}

fn explain_mode_str(x: ExplainMode) -> (r: &'static str)
    ensures
        r@ == explain_mode_name(x),
{
    match x {
        ExplainMode::Walk => "Walk",
        ExplainMode::Infer => "Infer",
    }
}

fn positions_str(x: TracePositionMode) -> (r: &'static str)
    ensures
        r@ == positions_name(x),
{
    match x {
        TracePositionMode::Last => "Last",
        TracePositionMode::All => "All",
    }
}

fn graph_format_str(x: GraphExportFormat) -> (r: &'static str)
    ensures
        r@ == graph_format_name(x),
{
    match x {
        GraphExportFormat::Turtle => "Turtle",
        GraphExportFormat::Neo4j => "Neo4j",
        GraphExportFormat::JsonLd => "JsonLd",
        GraphExportFormat::Graphml => "Graphml",
    }
}

fn select_source_str(x: SelectSource) -> (r: &'static str)
    ensures
        r@ == select_source_name(x),
{
    match x {
        SelectSource::Edges => "Edges",
        SelectSource::Features => "Features",
        SelectSource::Entities => "Entities",
        SelectSource::Tokens => "Tokens",
    }
}

fn print_extract(
    model: &String,
    output: &String,
    components: &Option<Vec<Component>>,
    layers: &Option<Range>,
    extract_level: ExtractLevel,
) -> (r: String)
    ensures
        r@ == extract_text(*model, *output, *components, *layers, extract_level),
{
    let mut out = crate::text::owned("EXTRACT MODEL ");
    append_quoted(&mut out, model.as_str());
    out.append(" INTO ");
    append_quoted(&mut out, output.as_str());
    let ghost before = out@;
    match components {
        Some(c) => {
            if c.len() > 0 {
                out.append(" COMPONENTS (");
                append_components(&mut out, c);
                out.append(")");
            } else {
                assert(before + Seq::<char>::empty() == before);
            }
        },
        None => {
            assert(before + Seq::<char>::empty() == before);
        },
    }
    append_layers(&mut out, layers);
    out.append(" LEVEL ");
    out.append(extract_level_str(extract_level));
    out.append(";");
    out
}

fn print_compile(
    vindex: &VindexRef,
    output: &String,
    format: Option<OutputFormat>,
    target: CompileTarget,
    on_conflict: Option<CompileConflict>,
) -> (r: String)
    ensures
        r@ == compile_text(*vindex, *output, format, target, on_conflict),
{
    let mut out = crate::text::owned("COMPILE ");
    append_vindex(&mut out, vindex);
    out.append(" INTO ");
    append_quoted(&mut out, output.as_str());
    let ghost b1 = out@;
    match format {
        Some(f) => {
            out.append(" FORMAT ");
            out.append(f.keyword());
        },
        None => {
            assert(b1 + Seq::<char>::empty() == b1);
        },
    }
    out.append(" TARGET ");
    out.append(compile_target_str(target));
    let ghost b2 = out@;
    match on_conflict {
        Some(c) => {
            out.append(" ON_CONFLICT ");
            out.append(compile_conflict_str(c));
        },
        None => {
            assert(b2 + Seq::<char>::empty() == b2);
        },
    }
    out.append(";");
    out
}

fn print_use(target: &UseTarget) -> (r: String)
    ensures
        r@ == use_text(*target),
{
    let mut out = String::new();
    match target {
        UseTarget::Vindex(p) => {
            out.append("USE ");
            append_quoted(&mut out, p.as_str());
        },
        UseTarget::Model { id, auto_extract } => {
            out.append("USE MODEL ");
            append_quoted(&mut out, id.as_str());
            append_flag(&mut out, " AUTO_EXTRACT", *auto_extract);
        },
        UseTarget::Remote(u) => {
            out.append("USE REMOTE ");
            append_quoted(&mut out, u.as_str());
        },
    }
    out.append(";");
    assert(out@ =~= use_text(*target));
    out
}

fn print_walk(
    prompt: &String,
    top: Option<u32>,
    layers: &Option<Range>,
    mode: Option<crate::lql::WalkMode>,
    compare: bool,
) -> (r: String)
    ensures
        r@ == walk_text(*prompt, top, *layers, mode, compare),
{
    let mut out = crate::text::owned("WALK ");
    append_quoted(&mut out, prompt.as_str());
    append_num_clause(&mut out, " TOP ", top);
    append_layers(&mut out, layers);
    let ghost b1 = out@;
    match mode {
        Some(m) => {
            out.append(" MODE ");
            out.append(walk_mode_str(m));
        },
        None => {
            assert(b1 + Seq::<char>::empty() == b1);
        },
    }
    append_flag(&mut out, " COMPARE", compare);
    out.append(";");
    out
}

fn print_infer(prompt: &String, top: Option<u32>, compare: bool) -> (r: String)
    ensures
        r@ == infer_text(*prompt, top, compare),
{
    let mut out = crate::text::owned("INFER ");
    append_quoted(&mut out, prompt.as_str());
    append_num_clause(&mut out, " TOP ", top);
    append_flag(&mut out, " COMPARE", compare);
    out.append(";");
    out
}

fn print_analyze_infer(
    prompt: &String,
    mode: AnalysisMode,
    truth_spans: &Vec<String>,
    materially_false_spans: &Vec<String>,
    coherence_markers: &Vec<String>,
    max_generated_tokens: Option<u32>,
    ridge_dead_zone: &Option<String>,
    top: Option<u32>,
    format: Option<OutputFormat>,
) -> (r: String)
    ensures
        r@ == analyze_infer_text(
            *prompt,
            mode,
            truth_spans@,
            materially_false_spans@,
            coherence_markers@,
            max_generated_tokens,
            *ridge_dead_zone,
            top,
            format,
        ),
{
    let mut out = crate::text::owned("ANALYZE INFER ");
    append_quoted(&mut out, prompt.as_str());
    out.append(" MODE ");
    out.append(mode.keyword());
    append_spans(&mut out, " TRUTH_SPANS", truth_spans);
    append_spans(&mut out, " FALSE_SPANS", materially_false_spans);
    append_spans(&mut out, " COHERENCE_MARKERS", coherence_markers);
    append_num_clause(&mut out, " MAX_GENERATED_TOKENS ", max_generated_tokens);
    append_literal_clause(&mut out, " RIDGE_DEAD_ZONE ", ridge_dead_zone);
    append_num_clause(&mut out, " TOP ", top);
    let ghost b1 = out@;
    match format {
        Some(f) => {
            out.append(" FORMAT ");
            out.append(f.keyword());
        },
        None => {
            assert(b1 + Seq::<char>::empty() == b1);
        },
    }
    out.append(";");
    out
}

fn print_select(
    source: SelectSource,
    fields: &Vec<Field>,
    conditions: &Vec<Condition>,
    nearest: &Option<NearestClause>,
    order: &Option<OrderBy>,
    limit: Option<u32>,
) -> (r: String)
    ensures
        r@ == select_text(source, fields@, conditions@, *nearest, *order, limit),
{
    let mut out = crate::text::owned("SELECT ");
    append_fields(&mut out, fields);
    out.append(" FROM ");
    out.append(select_source_str(source));
    append_where(&mut out, conditions);
    let ghost b1 = out@;
    match nearest {
        Some(n) => {
            out.append(" NEAREST ");
            append_quoted(&mut out, n.entity.as_str());
            out.append(" AT LAYER ");
            append_decimal(&mut out, n.layer as u64);
        },
        None => {
            assert(b1 + Seq::<char>::empty() == b1);
        },
    }
    let ghost b2 = out@;
    match order {
        Some(o) => {
            out.append(" ORDER BY ");
            out.append(o.field.as_str());
            out.append(" ");
            if o.descending {
                out.append("DESC");
            } else {
                out.append("ASC");
            }
        },
        None => {
            assert(b2 + Seq::<char>::empty() == b2);
        },
    }
    append_num_clause(&mut out, " LIMIT ", limit);
    out.append(";");
    out
}

fn print_describe(
    entity: &String,
    band: Option<LayerBand>,
    layer: Option<u32>,
    relations_only: bool,
    mode: DescribeMode,
    stream: bool,
) -> (r: String)
    ensures
        r@ == describe_text(*entity, band, layer, relations_only, mode, stream),
{
    let mut out = crate::text::owned("DESCRIBE ");
    append_quoted(&mut out, entity.as_str());
    let ghost b1 = out@;
    match band {
        Some(b) => {
            out.append(" BAND ");
            out.append(layer_band_str(b));
        },
        None => {
            assert(b1 + Seq::<char>::empty() == b1);
        },
    }
    append_num_clause(&mut out, " LAYER ", layer);
    append_flag(&mut out, " RELATIONS_ONLY", relations_only);
    out.append(" MODE ");
    out.append(describe_mode_str(mode));
    append_flag(&mut out, " STREAM", stream);
    out.append(";");
    out
}

fn print_explain(
    prompt: &String,
    mode: ExplainMode,
    layers: &Option<Range>,
    band: Option<LayerBand>,
    verbose: bool,
    top: Option<u32>,
    relations_only: bool,
    with_attention: bool,
) -> (r: String)
    ensures
        r@ == explain_text(*prompt, mode, *layers, band, verbose, top, relations_only, with_attention),
{
    let mut out = crate::text::owned("EXPLAIN ");
    append_quoted(&mut out, prompt.as_str());
    out.append(" MODE ");
    out.append(explain_mode_str(mode));
    append_layers(&mut out, layers);
    let ghost b1 = out@;
    match band {
        Some(b) => {
            out.append(" BAND ");
            out.append(layer_band_str(b));
        },
        None => {
            assert(b1 + Seq::<char>::empty() == b1);
        },
    }
    append_flag(&mut out, " VERBOSE", verbose);
    append_num_clause(&mut out, " TOP ", top);
    append_flag(&mut out, " RELATIONS_ONLY", relations_only);
    append_flag(&mut out, " WITH_ATTENTION", with_attention);
    out.append(";");
    out
}

fn print_insert(
    entity: &String,
    relation: &String,
    target: &String,
    layer: Option<u32>,
    confidence: &Option<String>,
    alpha: &Option<String>,
) -> (r: String)
    ensures
        r@ == insert_text(*entity, *relation, *target, layer, *confidence, *alpha),
{
    let mut out = crate::text::owned("INSERT (");
    append_quoted(&mut out, entity.as_str());
    out.append(", ");
    append_quoted(&mut out, relation.as_str());
    out.append(", ");
    append_quoted(&mut out, target.as_str());
    out.append(")");
    append_num_clause(&mut out, " AT LAYER ", layer);
    append_literal_clause(&mut out, " CONFIDENCE ", confidence);
    append_literal_clause(&mut out, " ALPHA ", alpha);
    out.append(";");
    out
}

fn print_delete(conditions: &Vec<Condition>) -> (r: String)
    ensures
        r@ == "DELETE"@ + where_clause(conditions@) + ";"@,
{
    let mut out = crate::text::owned("DELETE");
    append_where(&mut out, conditions);
    out.append(";");
    out
}

fn print_update(set: &Vec<Assignment>, conditions: &Vec<Condition>) -> (r: String)
    ensures
        r@ == update_text(set@, conditions@),
{
    let mut out = crate::text::owned("UPDATE SET ");
    append_assignments(&mut out, set);
    append_where(&mut out, conditions);
    out.append(";");
    out
}

fn print_trace(
    prompt: &String,
    answer: &Option<String>,
    decompose: bool,
    layers: &Option<Range>,
    positions: Option<TracePositionMode>,
    save: &Option<String>,
) -> (r: String)
    ensures
        r@ == trace_text(*prompt, *answer, decompose, *layers, positions, *save),
{
    let mut out = crate::text::owned("TRACE ");
    append_quoted(&mut out, prompt.as_str());
    append_quoted_clause(&mut out, " FOR ", answer);
    append_flag(&mut out, " DECOMPOSE", decompose);
    append_layers(&mut out, layers);
    let ghost b1 = out@;
    match positions {
        Some(p) => {
            out.append(" POSITIONS ");
            out.append(positions_str(p));
        },
        None => {
            assert(b1 + Seq::<char>::empty() == b1);
        },
    }
    append_quoted_clause(&mut out, " SAVE ", save);
    out.append(";");
    out
}

fn print_diff(
    a: &VindexRef,
    b: &VindexRef,
    layer: Option<u32>,
    relation: &Option<String>,
    limit: Option<u32>,
    into_patch: &Option<String>,
    into_report: &Option<String>,
) -> (r: String)
    ensures
        r@ == diff_text(*a, *b, layer, *relation, limit, *into_patch, *into_report),
{
    let mut out = crate::text::owned("DIFF ");
    append_vindex(&mut out, a);
    out.append(" ");
    append_vindex(&mut out, b);
    append_num_clause(&mut out, " LAYER ", layer);
    append_quoted_clause(&mut out, " RELATION ", relation);
    append_num_clause(&mut out, " LIMIT ", limit);
    append_quoted_clause(&mut out, " INTO PATCH ", into_patch);
    append_quoted_clause(&mut out, " INTO REPORT ", into_report);
    out.append(";");
    out
}

fn print_export(vindex: &VindexRef, output: &String, format: GraphExportFormat) -> (r: String)
    ensures
        r@ == export_text(*vindex, *output, format),
{
    let mut out = crate::text::owned("EXPORT ");
    append_vindex(&mut out, vindex);
    out.append(" INTO ");
    append_quoted(&mut out, output.as_str());
    out.append(" FORMAT ");
    out.append(graph_format_str(format));
    out.append(";");
    out
}

impl Statement {
    /// The LQL text of the statement (`lql_text`): `None` for the kinds
    /// that print as their `Debug` form.
    pub fn to_lql(&self) -> (r: Option<String>)
        ensures
            match lql_text(*self) {
                Some(t) => r matches Some(s) && s@ == t,
                None => r is None,
            },
    {
        match self {
            Statement::Extract { model, output, components, layers, extract_level } => Some(
                print_extract(model, output, components, layers, *extract_level),
            ),
            Statement::Compile { vindex, output, format, target, on_conflict } => Some(
                print_compile(vindex, output, *format, *target, *on_conflict),
            ),
            Statement::Use { target } => Some(print_use(target)),
            Statement::Walk { prompt, top, layers, mode, compare } => Some(
                print_walk(prompt, *top, layers, *mode, *compare),
            ),
            Statement::Infer { prompt, top, compare } => Some(print_infer(prompt, *top, *compare)),
            Statement::AnalyzeInfer {
                prompt,
                mode,
                truth_spans,
                materially_false_spans,
                coherence_markers,
                max_generated_tokens,
                ridge_dead_zone,
                top,
                format,
            } => Some(
                print_analyze_infer(
                    prompt,
                    *mode,
                    truth_spans,
                    materially_false_spans,
                    coherence_markers,
                    *max_generated_tokens,
                    ridge_dead_zone,
                    *top,
                    *format,
                ),
            ),
            Statement::Select { source, fields, conditions, nearest, order, limit } => Some(
                print_select(*source, fields, conditions, nearest, order, *limit),
            ),
            Statement::Describe { entity, band, layer, relations_only, mode, stream } => Some(
                print_describe(entity, *band, *layer, *relations_only, *mode, *stream),
            ),
            Statement::Explain {
                prompt,
                mode,
                layers,
                band,
                verbose,
                top,
                relations_only,
                with_attention,
            } => Some(
                print_explain(
                    prompt,
                    *mode,
                    layers,
                    *band,
                    *verbose,
                    *top,
                    *relations_only,
                    *with_attention,
                ),
            ),
            Statement::Insert { entity, relation, target, layer, confidence, alpha } => Some(
                print_insert(entity, relation, target, *layer, confidence, alpha),
            ),
            Statement::Delete { conditions } => Some(print_delete(conditions)),
            Statement::Update { set, conditions } => Some(print_update(set, conditions)),
            Statement::Trace { prompt, answer, decompose, layers, positions, save } => Some(
                print_trace(prompt, answer, *decompose, layers, *positions, save),
            ),
            Statement::Diff { a, b, layer, relation, limit, into_patch, into_report } => Some(
                print_diff(a, b, *layer, relation, *limit, into_patch, into_report),
            ),
            Statement::Export { vindex, output, format } => Some(
                print_export(vindex, output, *format),
            ),
            _ => None,
        }
    }
}

// ───────────────────────── laws of the printed flags ─────────────────────────

/// Law: a `WALK` prints ` COMPARE` exactly when it compares. The text of a
/// comparing walk is that of the same walk without comparison, with
/// ` COMPARE` put before the closing `;`, and the text without comparison
/// ends in `;` right after the other clauses.
pub proof fn lemma_walk_compare_clause(
    prompt: String,
    top: Option<u32>,
    layers: Option<Range>,
    mode: Option<crate::lql::WalkMode>,
)
    ensures
        ({
            let with = lql_text(Statement::Walk { prompt, top, layers, mode, compare: true });
            let without = lql_text(Statement::Walk { prompt, top, layers, mode, compare: false });
            &&& with is Some && without is Some
            &&& without.unwrap().len() > 0 && without.unwrap().last() == ';'
            &&& with.unwrap() == without.unwrap().drop_last() + " COMPARE;"@
        }),
{
    reveal_strlit(";");
    reveal_strlit(" COMPARE;");
    reveal_strlit(" COMPARE");
    let w = lql_text(Statement::Walk { prompt, top, layers, mode, compare: true }).unwrap();
    let f = lql_text(Statement::Walk { prompt, top, layers, mode, compare: false }).unwrap();
    let body = "WALK "@ + quoted(prompt@) + num_clause(" TOP "@, top) + layers_clause(layers) + match mode {
        Some(m) => " MODE "@ + walk_mode_name(m),
        None => Seq::empty(),
    };
    assert(f == body + ";"@);
    assert(w == body + " COMPARE"@ + ";"@);
    assert(f.drop_last() =~= body);
    assert(w =~= body + " COMPARE;"@);
}

/// Law: an `INFER` prints ` COMPARE` exactly when it compares, in the same
/// way as a `WALK`.
pub proof fn lemma_infer_compare_clause(prompt: String, top: Option<u32>)
    ensures
        ({
            let with = lql_text(Statement::Infer { prompt, top, compare: true });
            let without = lql_text(Statement::Infer { prompt, top, compare: false });
            &&& with is Some && without is Some
            &&& without.unwrap().len() > 0 && without.unwrap().last() == ';'
            &&& with.unwrap() == without.unwrap().drop_last() + " COMPARE;"@
        }),
{
    reveal_strlit(";");
    reveal_strlit(" COMPARE;");
    reveal_strlit(" COMPARE");
    let w = lql_text(Statement::Infer { prompt, top, compare: true }).unwrap();
    let f = lql_text(Statement::Infer { prompt, top, compare: false }).unwrap();
    let body = "INFER "@ + quoted(prompt@) + num_clause(" TOP "@, top);
    assert(f == body + ";"@);
    assert(w == body + " COMPARE"@ + ";"@);
    assert(f.drop_last() =~= body);
    assert(w =~= body + " COMPARE;"@);
}


/// Law: a `WALK` starts with its prompt, and ` TOP n` comes right after the
/// prompt exactly when a top count `n` is given.
pub proof fn lemma_walk_top_clause(
    prompt: String,
    n: u32,
    layers: Option<Range>,
    mode: Option<crate::lql::WalkMode>,
    compare: bool,
)
    ensures
        ({
            let with = lql_text(Statement::Walk { prompt, top: Some(n), layers, mode, compare }).unwrap();
            let without = lql_text(Statement::Walk { prompt, top: None, layers, mode, compare }).unwrap();
            let head = "WALK "@ + quoted(prompt@);
            &&& without.len() >= head.len()
            &&& without.take(head.len() as int) == head
            &&& with == head + " TOP "@ + decimal(n as nat) + without.skip(head.len() as int)
        }),
{
    let head = "WALK "@ + quoted(prompt@);
    let rest = layers_clause(layers) + match mode {
        Some(m) => " MODE "@ + walk_mode_name(m),
        None => Seq::empty(),
    } + flag_clause(" COMPARE"@, compare) + ";"@;
    let with = lql_text(Statement::Walk { prompt, top: Some(n), layers, mode, compare }).unwrap();
    let without = lql_text(Statement::Walk { prompt, top: None, layers, mode, compare }).unwrap();
    assert(without =~= head + rest);
    assert(without.take(head.len() as int) =~= head);
    assert(without.skip(head.len() as int) =~= rest);
    assert(with =~= head + " TOP "@ + decimal(n as nat) + rest);
}

/// Law: a `WALK` names its mode (` MODE Hybrid`, ` MODE Pure` or
/// ` MODE Dense`) just before
/// its closing ` COMPARE;` or `;`, exactly when a mode is given.
pub proof fn lemma_walk_mode_clause(
    prompt: String,
    top: Option<u32>,
    layers: Option<Range>,
    m: crate::lql::WalkMode,
    compare: bool,
)
    ensures
        ({
            let with = lql_text(Statement::Walk { prompt, top, layers, mode: Some(m), compare }).unwrap();
            let without = lql_text(Statement::Walk { prompt, top, layers, mode: None, compare }).unwrap();
            let ending = if compare { " COMPARE;"@ } else { ";"@ };
            let name = match m {
                crate::lql::WalkMode::Hybrid => " MODE Hybrid"@,
                crate::lql::WalkMode::Pure => " MODE Pure"@,
                crate::lql::WalkMode::Dense => " MODE Dense"@,
            };
            &&& without.len() >= ending.len()
            &&& without.skip(without.len() - ending.len()) == ending
            &&& with == without.take(without.len() - ending.len()) + name + ending
        }),
{
    reveal_strlit(" COMPARE;");
    reveal_strlit(" COMPARE");
    reveal_strlit(";");
    reveal_strlit(" MODE Hybrid");
    reveal_strlit(" MODE Pure");
    reveal_strlit(" MODE ");
    reveal_strlit("Hybrid");
    reveal_strlit("Pure");
    reveal_strlit(" MODE Dense");
    reveal_strlit("Dense");
    let head = "WALK "@ + quoted(prompt@) + num_clause(" TOP "@, top) + layers_clause(layers);
    let ending = if compare { " COMPARE;"@ } else { ";"@ };
    let with = lql_text(Statement::Walk { prompt, top, layers, mode: Some(m), compare }).unwrap();
    let without = lql_text(Statement::Walk { prompt, top, layers, mode: None, compare }).unwrap();
    assert(flag_clause(" COMPARE"@, compare) + ";"@ =~= ending);
    assert(without =~= head + ending);
    assert(without.take(without.len() - ending.len()) =~= head);
    assert(without.skip(without.len() - ending.len()) =~= ending);
    let name = match m {
        crate::lql::WalkMode::Hybrid => " MODE Hybrid"@,
        crate::lql::WalkMode::Pure => " MODE Pure"@,
        crate::lql::WalkMode::Dense => " MODE Dense"@,
    };
    assert(" MODE "@ + walk_mode_name(m) =~= name);
    assert(with =~= head + name + ending);
}

} // verus!

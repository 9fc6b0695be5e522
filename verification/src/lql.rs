//! The LQL statement vocabulary: the enums and small records that LQL
//! statements are built from, string quoting as LQL writes it, and the
//! condition helpers the remote executor uses.

use vstd::prelude::*;
use crate::text::{chars_of, push_char, push_chars};

verus! {

/// A vindex named by path, or the one in use.
#[derive(Debug, Clone)]
pub enum VindexRef {
    Path(String),
    Current,
}

/// What a `USE` statement switches to.
#[derive(Debug, Clone)]
pub enum UseTarget {
    Vindex(String),
    Model { id: String, auto_extract: bool },
    Remote(String),
}

/// `EXPLAIN WALK` (gate KNN only) or `EXPLAIN INFER` (full inference).
#[derive(Debug, Clone, Copy, PartialEq, Eq, Structural)]
pub enum ExplainMode {
    Walk,
    Infer,
}

/// Analysis mode of `ANALYZE INFER`.
#[derive(Debug, Clone, Copy, PartialEq, Eq, Structural)]
pub enum AnalysisMode {
    /// Exact span resolution, truth/false attribution.
    FactProbe,
    /// Mass-based attribution, coherence tracking.
    WorkflowProbe,
}

/// Display mode for `DESCRIBE` and `SHOW RELATIONS`.
#[derive(Debug, Clone, Copy, PartialEq, Eq, Structural)]
pub enum DescribeMode {
    Verbose,
    Brief,
    Raw,
}

/// Layer band of a `DESCRIBE` or `EXPLAIN`.
#[derive(Debug, Clone, Copy, PartialEq, Eq, Structural)]
pub enum LayerBand {
    Syntax,
    Knowledge,
    Output,
    All,
}

/// How much of a model `EXTRACT` keeps.
#[derive(Debug, Clone, Copy, PartialEq, Eq, Structural)]
pub enum ExtractLevel {
    Browse,
    Inference,
    All,
}

/// `COMPILE ... INTO MODEL` or `COMPILE ... INTO VINDEX`.
#[derive(Debug, Clone, Copy, PartialEq, Eq, Structural)]
pub enum CompileTarget {
    Model,
    Vindex,
}

/// Walk strategy of `WALK ... MODE`.
#[derive(Debug, Clone, Copy, PartialEq, Eq, Structural)]
pub enum WalkMode {
    Hybrid,
    Pure,
    Dense,
}

/// Output format of `COMPILE` and `ANALYZE INFER`.
#[derive(Debug, Clone, Copy, PartialEq, Eq, Structural)]
pub enum OutputFormat {
    Safetensors,
    Gguf,
    Json,
    Csv,
}

/// Conflict strategy of `MERGE`.
#[derive(Debug, Clone, Copy, PartialEq, Eq, Structural)]
pub enum ConflictStrategy {
    KeepSource,
    KeepTarget,
    HighestConfidence,
}

/// How `COMPILE INTO VINDEX` resolves patches that touch one slot.
#[derive(Debug, Clone, Copy, PartialEq, Eq, Structural)]
pub enum CompileConflict {
    LastWins,
    HighestConfidence,
    Fail,
}

/// A model component named in `EXTRACT ... COMPONENTS`.
#[derive(Debug, Clone, Copy, PartialEq, Eq, Structural)]
pub enum Component {
    FfnGate,
    FfnDown,
    FfnUp,
    Embeddings,
    AttnOv,
    AttnQk,
}

/// An inclusive layer range `start..end`.
#[derive(Debug, Clone)]
pub struct Range {
    pub start: u32,
    pub end: u32,
}

/// The table a `SELECT` reads.
#[derive(Debug, Clone, Copy, PartialEq, Eq, Structural)]
pub enum SelectSource {
    Edges,
    Features,
    Entities,
    Tokens,
}

/// A selected column: `*` or a name.
#[derive(Debug, Clone)]
pub enum Field {
    Star,
    Named(String),
}

/// Comparison operator of a `WHERE` condition.
#[derive(Debug, Clone)]
pub enum CompareOp {
    Eq,
    Neq,
    Gt,
    Lt,
    Gte,
    Lte,
    Like,
    In,
}

/// A literal in a condition or assignment. A floating-point number is held
/// as the text `Display` renders its `f64` value as (the shortest decimal
/// that reads back to it).
#[derive(Debug)]
pub enum Value {
    String(String),
    Number(String),
    Integer(i64),
    List(Vec<Value>),
}

/// `field op value` in a `WHERE` clause.
#[derive(Debug)]
pub struct Condition {
    pub field: String,
    pub op: CompareOp,
    pub value: Value,
}

/// `field = value` in an `UPDATE ... SET`.
#[derive(Debug)]
pub struct Assignment {
    pub field: String,
    pub value: Value,
}

/// `NEAREST entity AT LAYER n`.
#[derive(Debug, Clone)]
pub struct NearestClause {
    pub entity: String,
    pub layer: u32,
}

/// `ORDER BY field [DESC|ASC]`.
#[derive(Debug, Clone)]
pub struct OrderBy {
    pub field: String,
    pub descending: bool,
}

/// Grouping of `SHOW TOKENS`.
#[derive(Debug, Clone, Copy, PartialEq, Eq, Structural)]
pub enum TokenGroupBy {
    Layer,
    Band,
}

/// Ordering of `SHOW TOKENS`.
#[derive(Debug, Clone, Copy, PartialEq, Eq, Structural)]
pub enum TokenSortBy {
    MaxScore,
    Distinct,
    EntityLike,
    Shape,
}

/// Export format of `SHOW TOKENS ... EXPORT`.
#[derive(Debug, Clone, Copy, PartialEq, Eq, Structural)]
pub enum ExportFormat {
    Csv,
    Json,
}

/// Graph formats of `EXPORT`.
#[derive(Debug, Clone, Copy, PartialEq, Eq, Structural)]
pub enum GraphExportFormat {
    Turtle,
    Neo4j,
    JsonLd,
    Graphml,
}

/// Positions traced by `TRACE ... POSITIONS`.
#[derive(Debug, Clone, Copy, PartialEq, Eq, Structural)]
pub enum TracePositionMode {
    Last,
    All,
}

impl Default for DescribeMode {
    fn default() -> (m: Self)
        ensures
            m == DescribeMode::Brief,
    {
        DescribeMode::Brief
    }
}

/// The LQL keyword of an analysis mode.
pub open spec fn analysis_mode_keyword(m: AnalysisMode) -> Seq<char> {
    match m {
        AnalysisMode::FactProbe => "FACT_PROBE"@,
        AnalysisMode::WorkflowProbe => "WORKFLOW_PROBE"@,
    }
}

/// The LQL keyword of an output format.
pub open spec fn output_format_keyword(f: OutputFormat) -> Seq<char> {
    match f {
        OutputFormat::Safetensors => "SAFETENSORS"@,
        OutputFormat::Gguf => "GGUF"@,
        OutputFormat::Json => "JSON"@,
        OutputFormat::Csv => "CSV"@,
    }
}

impl AnalysisMode {
    /// The keyword that LQL text writes for this mode.
    pub fn keyword(self) -> (s: &'static str)
        ensures
            s@ == analysis_mode_keyword(self),
    {
        match self {
            AnalysisMode::FactProbe => "FACT_PROBE",
            AnalysisMode::WorkflowProbe => "WORKFLOW_PROBE",
        }
    }
}

impl OutputFormat {
    /// The keyword that LQL text writes for this format.
    pub fn keyword(self) -> (s: &'static str)
        ensures
            s@ == output_format_keyword(self),
    {
        match self {
            OutputFormat::Safetensors => "SAFETENSORS",
            OutputFormat::Gguf => "GGUF",
            OutputFormat::Json => "JSON",
            OutputFormat::Csv => "CSV",
        }
    }
}

/// How one character is written inside an LQL string literal.
pub open spec fn escape_char(c: char) -> Seq<char> {
    if c == '\\' {
        seq!['\\', '\\']
    } else if c == '"' {
        seq!['\\', '"']
    } else if c == '\n' {
        seq!['\\', 'n']
    } else if c == '\r' {
        seq!['\\', 'r']
    } else if c == '\t' {
        seq!['\\', 't']
    } else {
        seq![c]
    }
}

/// The escaped body of an LQL string literal.
pub open spec fn escape(s: Seq<char>) -> Seq<char>
    decreases s.len(),
{
    if s.len() == 0 {
        Seq::empty()
    } else {
        escape(s.drop_last()) + escape_char(s.last())
    }
}

/// `s` as an LQL string literal: escaped and between double quotes.
pub open spec fn quoted(s: Seq<char>) -> Seq<char> {
    seq!['"'] + escape(s) + seq!['"']
}

/// Writes `s` as an LQL string literal: backslash, double quote, newline,
/// carriage return and tab are escaped, and the result is enclosed in
/// double quotes.
pub fn quote_string(s: &str) -> (r: String)
    ensures
        r@ == quoted(s@),
{
    let cs = chars_of(s);
    let mut out = String::new();
    push_char(&mut out, '"');
    let mut i: usize = 0;
    while i < cs.len()
        invariant
            i <= cs.len(),
            cs@ == s@,
            out@ == seq!['"'] + escape(cs@.take(i as int)),
        decreases cs.len() - i,
    {
        let c = cs[i];
        let ghost before = out@;
        if c == '\\' {
            push_char(&mut out, '\\');
            push_char(&mut out, '\\');
        } else if c == '"' {
            push_char(&mut out, '\\');
            push_char(&mut out, '"');
        } else if c == '\n' {
            push_char(&mut out, '\\');
            push_char(&mut out, 'n');
        } else if c == '\r' {
            push_char(&mut out, '\\');
            push_char(&mut out, 'r');
        } else if c == '\t' {
            push_char(&mut out, '\\');
            push_char(&mut out, 't');
        } else {
            push_char(&mut out, c);
        }
        assert(out@ == before + escape_char(c));
        assert(cs@.take(i + 1).drop_last() == cs@.take(i as int));
        i = i + 1;
    }
    push_char(&mut out, '"');
    assert(cs@.take(cs.len() as int) == cs@);
    out
}

/// `parts` joined with `sep` between consecutive parts.
pub open spec fn join(parts: Seq<Seq<char>>, sep: Seq<char>) -> Seq<char>
    decreases parts.len(),
{
    if parts.len() == 0 {
        Seq::empty()
    } else if parts.len() == 1 {
        parts[0]
    } else {
        join(parts.drop_last(), sep) + sep + parts.last()
    }
}

/// The views of a list of strings.
pub open spec fn string_views(v: Seq<String>) -> Seq<Seq<char>> {
    v.map_values(|s: String| s@)
}

/// Writes each value as an LQL string literal and joins them with `", "`.
pub fn quote_list(values: &[String]) -> (r: String)
    ensures
        r@ == join(string_views(values@).map_values(|s: Seq<char>| quoted(s)), ", "@),
{
    let ghost target = string_views(values@).map_values(|s: Seq<char>| quoted(s));
    let mut out = String::new();
    let mut i: usize = 0;
    while i < values.len()
        invariant
            i <= values.len(),
            target == string_views(values@).map_values(|s: Seq<char>| quoted(s)),
            target.len() == values@.len(),
            out@ == join(target.take(i as int), ", "@),
        decreases values.len() - i,
    {
        let q = quote_string(values[i].as_str());
        assert(q@ == target[i as int]);
        if i > 0 {
            out.append(", ");
        }
        out.append(q.as_str());
        proof {
            let t = target.take(i + 1);
            assert(t.drop_last() == target.take(i as int));
            assert(t.last() == q@);
            if i == 0 {
                assert(join(t, ", "@) == t[0]);
            }
        }
        i = i + 1;
    }
    assert(target.take(values.len() as int) == target);
    out
}

/// `c` with `-` and `_` turned into spaces.
pub open spec fn relation_word_char(c: char) -> char {
    if c == '-' || c == '_' {
        ' '
    } else {
        c
    }
}

/// The probe prompt for a relation about a subject:
/// `"The " + relation (dashes and underscores as spaces) + " of " + subject + " is"`.
pub open spec fn relation_prompt(relation: Seq<char>, subject: Seq<char>) -> Seq<char> {
    "The "@ + relation.map_values(|c: char| relation_word_char(c)) + " of "@ + subject + " is"@
}

/// Builds the probe prompt for a relation about a subject. A relation
/// written with a dash, such as `capital-of`, keeps its `of`, so that the
/// prompt reads `"The capital of of X is"`.
pub fn relation_prompt_template(relation: &str, subject: &str) -> (r: String)
    ensures
        r@ == relation_prompt(relation@, subject@),
{
    let cs = chars_of(relation);
    let mut words: Vec<char> = Vec::new();
    let mut i: usize = 0;
    while i < cs.len()
        invariant
            i <= cs.len(),
            cs@ == relation@,
            words@ == cs@.take(i as int).map_values(|c: char| relation_word_char(c)),
        decreases cs.len() - i,
    {
        let c = cs[i];
        if c == '-' || c == '_' {
            words.push(' ');
        } else {
            words.push(c);
        }
        assert(cs@.take(i + 1) == cs@.take(i as int).push(c));
        i = i + 1;
    }
    assert(cs@.take(cs.len() as int) == cs@);
    let mut out = String::new();
    out.append("The ");
    push_chars(&mut out, words.as_slice());
    out.append(" of ");
    out.append(subject);
    out.append(" is");
    out
}

/// Whether two string slices hold the same characters.
pub fn str_eq(a: &str, b: &str) -> (r: bool)
    ensures
        r == (a@ == b@),
{
    let x = chars_of(a);
    let y = chars_of(b);
    crate::text::chars_eq(x.as_slice(), y.as_slice())
}

/// The index of the first condition on `field`, if any.
pub open spec fn first_condition_on(conditions: Seq<Condition>, field: Seq<char>) -> Option<int>
    decreases conditions.len(),
{
    if conditions.len() == 0 {
        None
    } else if conditions[0].field@ == field {
        Some(0)
    } else {
        match first_condition_on(conditions.drop_first(), field) {
            Some(i) => Some(i + 1),
            None => None,
        }
    }
}

proof fn lemma_first_condition_on(conditions: Seq<Condition>, field: Seq<char>, k: int)
    requires
        0 <= k <= conditions.len(),
        forall|j: int| 0 <= j < k ==> (#[trigger] conditions[j]).field@ != field,
    ensures
        k < conditions.len() && conditions[k].field@ == field ==> first_condition_on(
            conditions,
            field,
        ) == Some(k),
        k == conditions.len() ==> first_condition_on(conditions, field) is None,
    decreases k,
{
    if k > 0 {
        let rest = conditions.drop_first();
        assert forall|j: int| 0 <= j < k - 1 implies (#[trigger] rest[j]).field@ != field by {
            assert(rest[j] == conditions[j + 1]);
        }
        if k < conditions.len() {
            assert(rest[k - 1] == conditions[k]);
        }
        lemma_first_condition_on(rest, field, k - 1);
    }
}

/// Position of the first condition on `field`, found by a scan.
fn find_condition(conditions: &[Condition], field: &str) -> (r: Option<usize>)
    ensures
        match r {
            Some(i) => first_condition_on(conditions@, field@) == Some(i as int) && i
                < conditions@.len(),
            None => first_condition_on(conditions@, field@) is None,
        },
{
    let mut i: usize = 0;
    while i < conditions.len()
        invariant
            i <= conditions.len(),
            forall|j: int| 0 <= j < i ==> (#[trigger] conditions@[j]).field@ != field@,
        decreases conditions.len() - i,
    {
        if str_eq(conditions[i].field.as_str(), field) {
            proof {
                lemma_first_condition_on(conditions@, field@, i as int);
            }
            return Some(i);
        }
        i = i + 1;
    }
    proof {
        lemma_first_condition_on(conditions@, field@, i as int);
    }
    None
}

/// The integer of the first condition on `field`, cast to `usize` (the
/// two's-complement bits of a negative integer are kept); `None` when there
/// is no condition on `field` or its value is not an integer.
pub fn condition_usize(conditions: &[Condition], field: &str) -> (r: Option<usize>)
    ensures
        r == match first_condition_on(conditions@, field@) {
            Some(i) => match conditions@[i].value {
                Value::Integer(n) => Some(n as usize),
                _ => None,
            },
            None => None,
        },
{
    match find_condition(conditions, field) {
        Some(i) => match &conditions[i].value {
            Value::Integer(n) => Some(*n as usize),
            _ => None,
        },
        None => None,
    }
}

/// The string of the first condition on `field`; `None` when there is no
/// condition on `field` or its value is not a string.
pub fn condition_string(conditions: &[Condition], field: &str) -> (r: Option<String>)
    ensures
        match first_condition_on(conditions@, field@) {
            Some(i) => match conditions@[i].value {
                Value::String(s) => r is Some && r->0@ == s@,
                _ => r is None,
            },
            None => r is None,
        },
{
    match find_condition(conditions, field) {
        Some(i) => match &conditions[i].value {
            Value::String(s) => Some(s.clone()),
            _ => None,
        },
        None => None,
    }
}

} // verus!

//! What the workbench is told of a `.vindex` workspace: its id, the checks
//! on its path, the previews of its relations, and the capabilities and
//! warnings that follow from what was found in it and from the probes run
//! on it.

use vstd::prelude::*;
use crate::text::{lowercase, owned, str_lowercase};

verus! {

// ───────────────────────── ids ─────────────────────────

/// An ASCII letter or digit.
pub open spec fn is_ascii_alnum(c: char) -> bool {
    ('0' <= c && c <= '9') || ('a' <= c && c <= 'z') || ('A' <= c && c <= 'Z')
}

/// The letters and digits of `cs`, each run of other characters after the
/// first letter or digit written as one `-`; and whether it ends with such
/// a `-`.
pub open spec fn slug_scan(cs: Seq<char>) -> (Seq<char>, bool)
    decreases cs.len(),
{
    if cs.len() == 0 {
        (Seq::empty(), false)
    } else {
        let (out, prev_sep) = slug_scan(cs.drop_last());
        let c = cs.last();
        if is_ascii_alnum(c) {
            (out.push(c), false)
        } else if out.len() > 0 && !prev_sep {
            (out.push('-'), true)
        } else {
            (out, prev_sep)
        }
    }
}

/// `s` without the dashes it starts with.
pub open spec fn strip_leading_dashes(s: Seq<char>) -> Seq<char>
    decreases s.len(),
{
    if s.len() > 0 && s[0] == '-' {
        strip_leading_dashes(s.drop_first())
    } else {
        s
    }
}

/// `s` without the dashes it ends with.
pub open spec fn strip_trailing_dashes(s: Seq<char>) -> Seq<char>
    decreases s.len(),
{
    if s.len() > 0 && s.last() == '-' {
        strip_trailing_dashes(s.drop_last())
    } else {
        s
    }
}

/// The slug of a lowercased name: its scan without dashes at either end,
/// or `item` when nothing is left.
pub open spec fn slug(lower: Seq<char>) -> Seq<char> {
    let t = strip_trailing_dashes(strip_leading_dashes(slug_scan(lower).0));
    if t.len() == 0 {
        "item"@
    } else {
        t
    }
}

fn is_ascii_alnum_exec(c: char) -> (r: bool)
    ensures
        r == is_ascii_alnum(c),
{
    ('0' <= c && c <= '9') || ('a' <= c && c <= 'z') || ('A' <= c && c <= 'Z')
}

/// The slug of a name already in lowercase (`slug`).
pub fn slug_of_lowercase(lower: &str) -> (r: String)
    ensures
        r@ == slug(lower@),
{
    let cs = crate::text::chars_of(lower);
    let mut out: Vec<char> = Vec::new();
    let mut prev_sep = false;
    let mut i: usize = 0;
    while i < cs.len()
        invariant
            i <= cs@.len(),
            cs@ == lower@,
            slug_scan(cs@.take(i as int)) == (out@, prev_sep),
        decreases cs.len() - i,
    {
        assert(cs@.take(i + 1).drop_last() == cs@.take(i as int));
        assert(cs@.take(i + 1).last() == cs@[i as int]);
        let c = cs[i];
        if is_ascii_alnum_exec(c) {
            out.push(c);
            prev_sep = false;
        } else if out.len() > 0 && !prev_sep {
            out.push('-');
            prev_sep = true;
        }
        i = i + 1;
    }
    assert(cs@.take(cs.len() as int) == cs@);
    let ghost scanned = out@;
    assert(scanned.skip(0) == scanned);
    let mut a: usize = 0;
    while a < out.len() && out[a] == '-'
        invariant
            a <= out@.len(),
            out@ == scanned,
            strip_leading_dashes(scanned) == strip_leading_dashes(scanned.skip(a as int)),
        decreases out.len() - a,
    {
        assert(scanned.skip(a as int).drop_first() == scanned.skip(a + 1));
        a = a + 1;
    }
    let ghost lead = scanned.skip(a as int);
    assert(strip_leading_dashes(lead) == lead);
    let mut b: usize = out.len();
    assert(scanned.subrange(a as int, b as int) == lead);
    while b > a && out[b - 1] == '-'
        invariant
            a <= b <= out@.len(),
            out@ == scanned,
            lead == scanned.skip(a as int),
            strip_trailing_dashes(lead) == strip_trailing_dashes(scanned.subrange(a as int, b as int)),
        decreases b,
    {
        assert(scanned.subrange(a as int, b as int).drop_last() == scanned.subrange(
            a as int,
            b - 1,
        ));
        b = b - 1;
    }
    let ghost core = scanned.subrange(a as int, b as int);
    assert(strip_trailing_dashes(core) == core);
    if a == b {
        proof {
            reveal_strlit("item");
        }
        owned("item")
    } else {
        let mut r = String::new();
        crate::text::push_chars(&mut r, crate::text::slice_to_vec(out.as_slice(), a, b).as_slice());
        r
    }
}

/// The id of a workspace: its name lowercased, with runs of characters
/// other than ASCII letters and digits written as one `-` and none at
/// either end; `item` when nothing is left.
pub fn slugify(name: &str) -> (r: String)
    ensures
        r@ == slug(str_lowercase(name@)),
{
    let lower = lowercase(name);
    slug_of_lowercase(lower.as_str())
}

// ───────────────────────── the path ─────────────────────────

/// Checks what was found at a workspace path, in order: that it exists,
/// that it is a directory, that it holds an `index.json` file; the first
/// check that fails gives the error.
pub fn check_workspace_path(path: &str, exists: bool, is_dir: bool, has_index: bool) -> (r: Result<
    (),
    String,
>)
    ensures
        !exists ==> (r matches Err(m) && m@ == "Workspace path does not exist: "@ + path@),
        exists && !is_dir ==> (r matches Err(m) && m@ == "Workspace path is not directory: "@
            + path@),
        exists && is_dir && !has_index ==> (r matches Err(m) && m@
            == "Missing index.json in workspace: "@ + path@),
        exists && is_dir && has_index ==> r is Ok,
{
    let msg: &str = if !exists {
        "Workspace path does not exist: "
    } else if !is_dir {
        "Workspace path is not directory: "
    } else if !has_index {
        "Missing index.json in workspace: "
    } else {
        return Ok(());
    };
    let mut m = owned(msg);
    m.append(path);
    Err(m)
}

// ───────────────────────── previews ─────────────────────────

/// A relation of the cluster catalogue.
pub struct RelationLabel {
    pub name: String,
    pub count: usize,
    pub cluster_id: usize,
    pub top_tokens: Vec<String>,
}

/// At most this many catalogue relations are previewed.
pub const RELATION_LABEL_PREVIEW_CAP: usize = 60;

/// At most this many top tokens of a relation are previewed.
pub const TOP_TOKENS_PER_RELATION: usize = 8;

/// At most this many probe relations are previewed.
pub const PROBE_RELATION_PREVIEW_CAP: usize = 60;

/// The previewed relation: the same, with its first eight top tokens.
pub open spec fn label_preview(r: RelationLabel, p: RelationLabel) -> bool {
    &&& p.name@ == r.name@
    &&& p.count == r.count
    &&& p.cluster_id == r.cluster_id
    &&& p.top_tokens@ == r.top_tokens@.take(
        if r.top_tokens@.len() < 8 {
            r.top_tokens@.len() as int
        } else {
            8
        },
    )
}

/// The relations the workbench previews: the first sixty, each with its
/// first eight top tokens.
pub fn preview_relation_labels(all: Vec<RelationLabel>) -> (r: Vec<RelationLabel>)
    ensures
        r@.len() == if all@.len() < 60 {
            all@.len()
        } else {
            60
        },
        forall|i: int| 0 <= i < r@.len() ==> label_preview(all@[i], #[trigger] r@[i]),
{
    let ghost orig = all@;
    let mut rest = all;
    let mut out: Vec<RelationLabel> = Vec::new();
    while out.len() < RELATION_LABEL_PREVIEW_CAP && rest.len() > 0
        invariant
            out@.len() <= 60,
            out@.len() + rest@.len() == orig.len(),
            rest@ == orig.skip(out@.len() as int),
            forall|i: int| 0 <= i < out@.len() ==> label_preview(orig[i], #[trigger] out@[i]),
        decreases rest.len(),
    {
        let ghost k: int = out@.len() as int;
        let r = rest.remove(0);
        assert(r == orig[k]);
        assert(rest@ =~= orig.skip(k + 1));
        let RelationLabel { name, count, cluster_id, top_tokens } = r;
        let mut tops = top_tokens;
        if tops.len() > TOP_TOKENS_PER_RELATION {
            tops.truncate(TOP_TOKENS_PER_RELATION);
        }
        out.push(RelationLabel { name, count, cluster_id, top_tokens: tops });
        assert(out@[k as int].top_tokens@ =~= orig[k as int].top_tokens@.take(
            if orig[k as int].top_tokens@.len() < 8 {
                orig[k as int].top_tokens@.len() as int
            } else {
                8
            },
        ));
    }
    out
}

/// The probe relations the workbench previews: the first sixty, as given.
pub fn preview_probe_relations(all: Vec<(String, usize)>) -> (r: Vec<(String, usize)>)
    ensures
        r@ == all@.take(
            if all@.len() < 60 {
                all@.len() as int
            } else {
                60
            },
        ),
{
    let mut r = all;
    if r.len() > PROBE_RELATION_PREVIEW_CAP {
        r.truncate(PROBE_RELATION_PREVIEW_CAP);
    }
    r
}

// ───────────────────────── capabilities ─────────────────────────

/// What was found in a workspace and what the probes on it gave: whether
/// it has model weights and layer bands, its catalogue relations and probe
/// labels, whether MLX is installed, the LQL probe's outcome, and the
/// WalkModel probe's outcome (run only when there are weights).
pub struct WorkspaceFindings {
    pub has_model_weights: bool,
    pub has_layer_bands: bool,
    pub relation_count: usize,
    pub num_probe_labels: usize,
    pub mlx_available: bool,
    pub lql_probe: Result<(), String>,
    pub walk_model_probe: Option<Result<(), String>>,
}

/// What the workbench may do with a workspace, and what it is warned of.
pub struct WorkspaceCapabilities {
    pub has_relation_labels: bool,
    pub has_layer_bands: bool,
    pub supports_infer: bool,
    pub supports_trace: bool,
    pub supports_mlx: bool,
    pub supports_streaming: bool,
    pub supports_walk_ffn: bool,
    pub supports_lql: bool,
    pub supports_walk_model: bool,
    pub warnings: Vec<String>,
}

/// Whether the WalkModel probe succeeded.
pub open spec fn walk_model_ok(f: WorkspaceFindings) -> bool {
    f.has_model_weights && f.walk_model_probe matches Some(Ok(_))
}

/// The warnings of a workspace, in order: a failed LQL probe, a failed
/// WalkModel probe, missing weights, a missing catalogue, missing MLX.
pub open spec fn workspace_warnings(f: WorkspaceFindings) -> Seq<Seq<char>> {
    let lql = match f.lql_probe {
        Ok(_) => Seq::empty(),
        Err(e) => seq!["LQL session probe failed: "@ + e@],
    };
    let walk = if f.has_model_weights && !walk_model_ok(f) {
        seq![
            "WalkModel load failed: "@ + match f.walk_model_probe {
                Some(Err(e)) => e@,
                _ => "unknown error"@,
            },
        ]
    } else {
        Seq::empty()
    };
    let weights = if f.has_model_weights {
        Seq::empty()
    } else if f.lql_probe is Ok {
        seq!["No model weights. Browse and LQL ready. Inference, trace, and mmap WalkModel disabled."@]
    } else {
        seq!["No model weights. Inference, trace, and mmap WalkModel disabled."@]
    };
    let catalogue = if f.relation_count == 0 && f.num_probe_labels == 0 {
        seq![
            "No cluster relation catalogue (relations() empty) and no probe labels — describe edges may be sparse."@,
        ]
    } else if f.relation_count == 0 {
        seq![
            "No cluster catalogue (relations() empty); probe labels present — describe may still show relations with source=probe."@,
        ]
    } else {
        Seq::empty()
    };
    let mlx = if f.mlx_available {
        Seq::empty()
    } else {
        seq!["MLX deps missing. MLX generation disabled."@]
    };
    lql + walk + weights + catalogue + mlx
}

fn push_owned(v: &mut Vec<String>, s: &str)
    ensures
        crate::lql::string_views(final(v)@) == crate::lql::string_views(old(v)@).push(s@),
{
    let ghost before = v@;
    v.push(owned(s));
    assert(crate::lql::string_views(v@) =~= crate::lql::string_views(before).push(s@));
}

fn push_joined(v: &mut Vec<String>, a: &str, b: &str)
    ensures
        crate::lql::string_views(final(v)@) == crate::lql::string_views(old(v)@).push(a@ + b@),
{
    let ghost before = v@;
    let mut m = owned(a);
    m.append(b);
    v.push(m);
    assert(crate::lql::string_views(v@) =~= crate::lql::string_views(before).push(a@ + b@));
}

/// What the workbench may do with a workspace: inference, tracing and
/// WalkModel need weights (and WalkModel a probe that succeeded), MLX
/// generation, streaming and the FFN walk need weights and MLX, LQL needs
/// its probe to succeed; relation labels come from the catalogue or the
/// probe labels. The warnings say what is missing (`workspace_warnings`).
pub fn workspace_capabilities(f: &WorkspaceFindings) -> (r: WorkspaceCapabilities)
    ensures
        r.has_relation_labels == (f.relation_count > 0 || f.num_probe_labels > 0),
        r.has_layer_bands == f.has_layer_bands,
        r.supports_infer == f.has_model_weights,
        r.supports_trace == f.has_model_weights,
        r.supports_mlx == (f.mlx_available && f.has_model_weights),
        r.supports_streaming == (f.mlx_available && f.has_model_weights),
        r.supports_walk_ffn == (f.mlx_available && f.has_model_weights),
        r.supports_lql == f.lql_probe is Ok,
        r.supports_walk_model == walk_model_ok(*f),
        crate::lql::string_views(r.warnings@) == workspace_warnings(*f),
{
    let supports_lql = f.lql_probe.is_ok();
    let supports_walk_model = f.has_model_weights && match &f.walk_model_probe {
        Some(Ok(_)) => true,
        _ => false,
    };
    let mut warnings: Vec<String> = Vec::new();
    match &f.lql_probe {
        Ok(_) => {},
        Err(e) => push_joined(&mut warnings, "LQL session probe failed: ", e.as_str()),
    }
    if f.has_model_weights && !supports_walk_model {
        let detail: &str = match &f.walk_model_probe {
            Some(Err(e)) => e.as_str(),
            _ => "unknown error",
        };
        push_joined(&mut warnings, "WalkModel load failed: ", detail);
    }
    if !f.has_model_weights {
        if supports_lql {
            push_owned(
                &mut warnings,
                "No model weights. Browse and LQL ready. Inference, trace, and mmap WalkModel disabled.",
            );
        } else {
            push_owned(&mut warnings, "No model weights. Inference, trace, and mmap WalkModel disabled.");
        }
    }
    if f.relation_count == 0 && f.num_probe_labels == 0 {
        push_owned(
            &mut warnings,
            "No cluster relation catalogue (relations() empty) and no probe labels — describe edges may be sparse.",
        );
    } else if f.relation_count == 0 {
        push_owned(
            &mut warnings,
            "No cluster catalogue (relations() empty); probe labels present — describe may still show relations with source=probe.",
        );
    }
    if !f.mlx_available {
        push_owned(&mut warnings, "MLX deps missing. MLX generation disabled.");
    }
    proof {
        assert(crate::lql::string_views(warnings@) =~= workspace_warnings(*f));
    }
    WorkspaceCapabilities {
        has_relation_labels: f.relation_count > 0 || f.num_probe_labels > 0,
        has_layer_bands: f.has_layer_bands,
        supports_infer: f.has_model_weights,
        supports_trace: f.has_model_weights,
        supports_mlx: f.mlx_available && f.has_model_weights,
        supports_streaming: f.mlx_available && f.has_model_weights,
        supports_walk_ffn: f.mlx_available && f.has_model_weights,
        supports_lql,
        supports_walk_model,
        warnings,
    }
}

/// Law: a workspace with everything (weights whose WalkModel loads, a
/// catalogue, LQL, MLX) draws no warning, and every capability is on.
pub proof fn lemma_complete_workspace_has_no_warnings(f: WorkspaceFindings)
    requires
        f.has_model_weights,
        f.walk_model_probe matches Some(Ok(_)),
        f.relation_count > 0,
        f.lql_probe is Ok,
        f.mlx_available,
    ensures
        workspace_warnings(f) == Seq::<Seq<char>>::empty(),
{
    assert(workspace_warnings(f) =~= Seq::<Seq<char>>::empty());
}

} // verus!

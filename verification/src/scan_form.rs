//! The batch DLA scan form of the workbench: what it checks before it asks
//! the server for an analysis, and the request it sends.

use vstd::prelude::*;
use crate::lql::{str_eq, string_views};
use crate::text::{chars_of, nonempty_trimmed, owned, parse_usize, parse_usize_spec, split_on, split_trimmed_nonempty, trim, trim_str};

verus! {

/// `c` in ASCII lower case.
pub open spec fn ascii_lower(c: char) -> char {
    if 'A' <= c <= 'Z' {
        ((c as u32 + 32) as u32) as char
    } else {
        c
    }
}

/// `str::to_ascii_lowercase`.
pub open spec fn lower(s: Seq<char>) -> Seq<char> {
    s.map_values(|c: char| ascii_lower(c))
}

/// The entries of a comma-separated field: each trimmed, empty ones
/// dropped.
pub open spec fn csv_entries(raw: Seq<char>) -> Seq<Seq<char>> {
    nonempty_trimmed(split_on(raw, ','))
}

/// Why the form cannot be sent, if it cannot: no prompt, an unknown mode,
/// a fact probe with neither truth nor false spans, or a workflow probe
/// without false spans.
pub open spec fn scan_error(
    prompt: Seq<char>,
    mode: Seq<char>,
    truth: Seq<char>,
    false_spans: Seq<char>,
) -> Option<Seq<char>> {
    let m = lower(trim(mode));
    if trim(prompt).len() == 0 {
        Some("Please enter a prompt"@)
    } else if m != "fact_probe"@ && m != "workflow_probe"@ {
        Some("Mode must be fact_probe or workflow_probe"@)
    } else if m == "fact_probe"@ && csv_entries(truth).len() == 0 && csv_entries(false_spans).len()
        == 0 {
        Some("FACT_PROBE requires at least one TRUTH_SPAN or FALSE_SPAN"@)
    } else if m == "workflow_probe"@ && csv_entries(false_spans).len() == 0 {
        Some("WORKFLOW_PROBE requires FALSE_SPANS"@)
    } else {
        None
    }
}

/// What the scan form fills in.
#[derive(Debug, Clone)]
pub struct ScanForm {
    pub server_url: String,
    pub prompt: String,
    pub mode: String,
    pub truth_spans: String,
    pub false_spans: String,
    pub coherence_markers: String,
    pub max_generated_tokens: String,
}

/// The analysis request of a scan: the server, the prompt and mode
/// (trimmed, the mode in lower case), five predictions, the spans and
/// markers, the token budget when it is a number, and the ridge dead zone.
#[derive(Debug, Clone)]
pub struct ScanRequest {
    pub server_url: String,
    pub prompt: String,
    pub top_k: usize,
    pub mode: String,
    pub truth_spans: Vec<String>,
    pub materially_false_spans: Vec<String>,
    pub coherence_markers: Vec<String>,
    pub max_generated_tokens: Option<usize>,
    pub ridge_dead_zone: Option<String>,
}

fn ascii_lower_str(s: &str) -> (r: String)
    ensures
        r@ == lower(s@),
{
    let cs = chars_of(s);
    let mut out: Vec<char> = Vec::new();
    let mut i: usize = 0;
    while i < cs.len()
        invariant
            i <= cs@.len(),
            cs@ == s@,
            out@ == lower(cs@.take(i as int)),
        decreases cs.len() - i,
    {
        let c = cs[i];
        let l = if 'A' <= c && c <= 'Z' {
            let u = ((c as u32) + 32) as u8;
            u as char
        } else {
            c
        };
        assert(l == ascii_lower(c));
        out.push(l);
        assert(cs@.take(i + 1) =~= cs@.take(i as int).push(c));
        assert(lower(cs@.take(i + 1)) =~= lower(cs@.take(i as int)).push(ascii_lower(c)));
        i = i + 1;
    }
    assert(cs@.take(cs.len() as int) =~= cs@);
    crate::text::string_from_chars(out.as_slice())
}

/// The request the form sends, or why it cannot be sent (`scan_error`).
/// `ridge_dead_zone` is the form's ridge dead zone as the `f32` it reads
/// as writes itself, when it reads as one.
pub fn scan_request(form: &ScanForm, ridge_dead_zone: Option<String>) -> (r: Result<ScanRequest, String>)
    ensures
        match scan_error(form.prompt@, form.mode@, form.truth_spans@, form.false_spans@) {
            Some(e) => r matches Err(m) && m@ == e,
            None => r matches Ok(q) && {
                &&& q.server_url@ == trim(form.server_url@)
                &&& q.prompt@ == trim(form.prompt@)
                &&& q.top_k == 5
                &&& q.mode@ == lower(trim(form.mode@))
                &&& string_views(q.truth_spans@) == csv_entries(form.truth_spans@)
                &&& string_views(q.materially_false_spans@) == csv_entries(form.false_spans@)
                &&& string_views(q.coherence_markers@) == csv_entries(form.coherence_markers@)
                &&& q.max_generated_tokens == parse_usize_spec(trim(form.max_generated_tokens@))
                &&& q.ridge_dead_zone == ridge_dead_zone
            },
        },
{
    let server_url = trim_str(form.server_url.as_str());
    let prompt = trim_str(form.prompt.as_str());
    let trimmed_mode = trim_str(form.mode.as_str());
    let mode = ascii_lower_str(trimmed_mode.as_str());
    let truth_spans = split_trimmed_nonempty(form.truth_spans.as_str(), ',');
    let materially_false_spans = split_trimmed_nonempty(form.false_spans.as_str(), ',');
    let coherence_markers = split_trimmed_nonempty(form.coherence_markers.as_str(), ',');
    let budget = trim_str(form.max_generated_tokens.as_str());
    let budget_chars = chars_of(budget.as_str());
    let max_generated_tokens = parse_usize(budget_chars.as_slice());
    let fact = str_eq(mode.as_str(), "fact_probe");
    let workflow = str_eq(mode.as_str(), "workflow_probe");
    if prompt.as_str().unicode_len() == 0 {
        return Err(owned("Please enter a prompt"));
    }
    if !fact && !workflow {
        return Err(owned("Mode must be fact_probe or workflow_probe"));
    }
    if fact && truth_spans.len() == 0 && materially_false_spans.len() == 0 {
        return Err(owned("FACT_PROBE requires at least one TRUTH_SPAN or FALSE_SPAN"));
    }
    if workflow && materially_false_spans.len() == 0 {
        return Err(owned("WORKFLOW_PROBE requires FALSE_SPANS"));
    }
    Ok(ScanRequest {
        server_url,
        prompt,
        top_k: 5,
        mode,
        truth_spans,
        materially_false_spans,
        coherence_markers,
        max_generated_tokens,
        ridge_dead_zone,
    })
}

} // verus!

//! The decisions behind two workbench panels: the Experiment Lab's check of
//! its run form, and the LQL console's query history and saved snippets.

use vstd::prelude::*;
use crate::lql::{str_eq, string_views};
use crate::text::{chars_of, parse_usize, parse_usize_spec, trim, trim_str};

verus! {

// ───────────────────────── the Experiment Lab form ─────────────────────────

/// A checked request to run the Bit-Perfect Eraser protocol.
#[derive(Debug)]
pub struct EraserRunRequest {
    pub workspace_path: String,
    pub top_k: usize,
    pub output_path: Option<String>,
}

/// The message for a top-k field that is not a positive integer.
pub open spec fn top_k_message() -> Seq<char> {
    "top_k must be a positive integer"@
}

/// The message for an empty workspace field.
pub open spec fn workspace_message() -> Seq<char> {
    "Workspace path is required"@
}

/// Checks the run form: the trimmed top-k field must parse as a positive
/// `usize` (checked first), and the trimmed workspace path must not be
/// empty. An empty trimmed output path means no output file.
pub fn eraser_run_request(workspace: &str, top_k: &str, output: &str) -> (r: Result<
    EraserRunRequest,
    String,
>)
    ensures
        match parse_usize_spec(trim(top_k@)) {
            Some(k) if k > 0 => if trim(workspace@).len() == 0 {
                r matches Err(m) && m@ == workspace_message()
            } else {
                r matches Ok(req) && req.workspace_path@ == trim(workspace@) && req.top_k == k
                    && if trim(output@).len() == 0 {
                    req.output_path is None
                } else {
                    req.output_path matches Some(o) && o@ == trim(output@)
                }
            },
            _ => r matches Err(m) && m@ == top_k_message(),
        },
{
    let raw = chars_of(top_k);
    let t = crate::text::trim_chars(raw.as_slice());
    let k = match parse_usize(t.as_slice()) {
        Some(v) if v > 0 => v,
        _ => return Err(crate::text::owned("top_k must be a positive integer")),
    };
    let w = trim_str(workspace);
    if w.as_str().unicode_len() == 0 {
        return Err(crate::text::owned("Workspace path is required"));
    }
    let o = trim_str(output);
    let output_path = if o.as_str().unicode_len() == 0 {
        None
    } else {
        Some(o)
    };
    Ok(EraserRunRequest { workspace_path: w, top_k: k, output_path })
}

// ───────────────────────── the LQL console ─────────────────────────

/// The most queries the console's history keeps.
pub const HISTORY_LIMIT: usize = 12;

/// The most snippets the console keeps.
pub const SNIPPET_LIMIT: usize = 16;

/// `items` without the entries equal to `s`, in order.
pub open spec fn without(items: Seq<Seq<char>>, s: Seq<char>) -> Seq<Seq<char>>
    decreases items.len(),
{
    if items.len() == 0 {
        Seq::empty()
    } else if items.last() == s {
        without(items.drop_last(), s)
    } else {
        without(items.drop_last(), s).push(items.last())
    }
}

/// The first `n` entries of `items` (all of them if there are fewer).
pub open spec fn first_n(items: Seq<Seq<char>>, n: nat) -> Seq<Seq<char>> {
    if items.len() > n {
        items.take(n as int)
    } else {
        items
    }
}

/// The history after running the query `q`: its trimmed text moves to the
/// front (dropping earlier copies) and the history keeps its first
/// `HISTORY_LIMIT` entries; an empty query changes nothing.
pub open spec fn history_after(items: Seq<Seq<char>>, q: Seq<char>) -> Seq<Seq<char>> {
    let s = trim(q);
    if s.len() == 0 {
        items
    } else {
        first_n(seq![s] + without(items, s), HISTORY_LIMIT as nat)
    }
}

/// The snippets after saving the query `q`: its trimmed text goes to the
/// front unless it is already there somewhere, and the list keeps its first
/// `SNIPPET_LIMIT` entries; an empty query changes nothing.
pub open spec fn snippets_after(items: Seq<Seq<char>>, q: Seq<char>) -> Seq<Seq<char>> {
    let s = trim(q);
    if s.len() == 0 {
        items
    } else if items.contains(s) {
        first_n(items, SNIPPET_LIMIT as nat)
    } else {
        first_n(seq![s] + items, SNIPPET_LIMIT as nat)
    }
}

/// `items` without the entries equal to `s`.
fn remove_equal(items: Vec<String>, s: &str) -> (r: Vec<String>)
    ensures
        string_views(r@) == without(string_views(items@), s@),
{
    let ghost all = string_views(items@);
    let mut out: Vec<String> = Vec::new();
    let mut i: usize = 0;
    assert(all.take(0) == Seq::<Seq<char>>::empty());
    while i < items.len()
        invariant
            i <= items@.len(),
            all == string_views(items@),
            string_views(out@) == without(all.take(i as int), s@),
        decreases items.len() - i,
    {
        assert(all.take(i + 1).drop_last() == all.take(i as int));
        assert(all.take(i + 1).last() == items@[i as int]@);
        if !str_eq(items[i].as_str(), s) {
            out.push(items[i].clone());
            assert(string_views(out@) == without(all.take(i as int), s@).push(items@[i as int]@));
        }
        i = i + 1;
    }
    assert(all.take(items.len() as int) == all);
    out
}

/// Whether some entry of `items` equals `s`.
fn contains_equal(items: &Vec<String>, s: &str) -> (r: bool)
    ensures
        r == string_views(items@).contains(s@),
{
    let ghost all = string_views(items@);
    let mut i: usize = 0;
    while i < items.len()
        invariant
            i <= items@.len(),
            all == string_views(items@),
            forall|j: int| 0 <= j < i ==> all[j] != s@,
        decreases items.len() - i,
    {
        if str_eq(items[i].as_str(), s) {
            assert(all[i as int] == s@);
            return true;
        }
        i = i + 1;
    }
    false
}

/// Records a query that ran: the console's history update.
pub fn record_history(items: Vec<String>, query: &str) -> (r: Vec<String>)
    ensures
        string_views(r@) == history_after(string_views(items@), query@),
{
    let s = trim_str(query);
    if s.as_str().unicode_len() == 0 {
        return items;
    }
    let rest = remove_equal(items, s.as_str());
    let mut out: Vec<String> = rest;
    let ghost before = string_views(out@);
    out.insert(0, s);
    assert(string_views(out@) == seq![trim(query@)] + before);
    let ghost full = string_views(out@);
    out.truncate(HISTORY_LIMIT);
    assert(string_views(out@) == first_n(full, HISTORY_LIMIT as nat));
    out
}

/// Saves a query as a snippet: the console's snippet update.
pub fn save_snippet(items: Vec<String>, query: &str) -> (r: Vec<String>)
    ensures
        string_views(r@) == snippets_after(string_views(items@), query@),
{
    let s = trim_str(query);
    if s.as_str().unicode_len() == 0 {
        return items;
    }
    let mut out = items;
    let ghost before = string_views(out@);
    if !contains_equal(&out, s.as_str()) {
        out.insert(0, s);
        assert(string_views(out@) == seq![trim(query@)] + before);
    }
    let ghost full = string_views(out@);
    out.truncate(SNIPPET_LIMIT);
    assert(string_views(out@) == first_n(full, SNIPPET_LIMIT as nat));
    out
}

} // verus!

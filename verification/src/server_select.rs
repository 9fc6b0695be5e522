//! The server's `SELECT` over feature edges (`POST /v1/select`): which
//! features a query keeps, in what order they come, how many it returns,
//! and which fields of each.

use vstd::prelude::*;
use crate::introspection::{contains_chars, contains_text, score_below, score_below_exec};
use crate::lql::string_views;
use crate::text::{chars_of, str_lowercase, trim};
use crate::token_summary::{is_nan_bits, score_key};

verus! {

/// A feature of a scanned layer that has metadata: where it is, its top
/// token, its score (the bits of an `f32`), and its probe label if it has
/// one.
#[derive(Debug, Clone)]
pub struct SelectCandidate {
    pub layer: usize,
    pub feature: usize,
    pub top_token: String,
    pub c_score: u32,
    pub relation: Option<String>,
}

/// A `SELECT` request: the filters on entity (top token), relation label
/// and score, the order, how many edges to return, and which fields.
#[derive(Debug, Clone)]
pub struct SelectQuery {
    pub entity: Option<String>,
    pub relation: Option<String>,
    pub confidence_floor: Option<u32>,
    pub order_by: Option<String>,
    pub order: String,
    pub limit: usize,
    pub fields: Option<Vec<String>>,
}

/// The order edges come in.
#[derive(Debug, Clone, Copy, PartialEq, Eq, Structural)]
pub enum SelectOrder {
    ScoreAscending,
    ScoreDescending,
    LayerAscending,
    LayerDescending,
}

/// `hay`, lowercased, holds `needle`, lowercased.
pub open spec fn holds_folded(hay: Seq<char>, needle: Seq<char>) -> bool {
    contains_text(str_lowercase(hay), str_lowercase(needle))
}

/// A candidate passes the query's filters: its label holds the relation
/// asked for (a feature without a label fails), its top token holds the
/// entity, and its score is not below the floor.
pub open spec fn keeps(c: SelectCandidate, q: SelectQuery) -> bool {
    &&& match q.relation {
        Some(f) => match c.relation {
            Some(r) => holds_folded(r@, f@),
            None => false,
        },
        None => true,
    }
    &&& match q.entity {
        Some(e) => holds_folded(c.top_token@, e@),
        None => true,
    }
    &&& match q.confidence_floor {
        Some(m) => !score_below(c.c_score, m),
        None => true,
    }
}

/// The candidates that pass, in scan order.
pub open spec fn kept(cs: Seq<SelectCandidate>, q: SelectQuery) -> Seq<SelectCandidate>
    decreases cs.len(),
{
    if cs.len() == 0 {
        Seq::empty()
    } else if keeps(cs.last(), q) {
        kept(cs.drop_last(), q).push(cs.last())
    } else {
        kept(cs.drop_last(), q)
    }
}

/// The order a query asks for: by score for `gate_score`, `confidence`
/// and `c_score`, by layer for `layer`, descending when `order` is `desc`;
/// by score descending for any other or no `order_by`.
pub open spec fn select_order(q: SelectQuery) -> SelectOrder {
    let desc = q.order@ == "desc"@;
    match q.order_by {
        Some(f) => if f@ == "gate_score"@ || f@ == "confidence"@ || f@ == "c_score"@ {
            if desc {
                SelectOrder::ScoreDescending
            } else {
                SelectOrder::ScoreAscending
            }
        } else if f@ == "layer"@ {
            if desc {
                SelectOrder::LayerDescending
            } else {
                SelectOrder::LayerAscending
            }
        } else {
            SelectOrder::ScoreDescending
        },
        None => SelectOrder::ScoreDescending,
    }
}

/// The key the order sorts by, ascending.
pub open spec fn order_key(c: SelectCandidate, o: SelectOrder) -> int {
    match o {
        SelectOrder::ScoreAscending => score_key(c.c_score),
        SelectOrder::ScoreDescending => -score_key(c.c_score),
        SelectOrder::LayerAscending => c.layer as int,
        SelectOrder::LayerDescending => -(c.layer as int),
    }
}

/// The order compares scores, which it can only do when none is NaN.
pub open spec fn by_score(o: SelectOrder) -> bool {
    o == SelectOrder::ScoreAscending || o == SelectOrder::ScoreDescending
}

/// `x` placed into `s` after every candidate whose key is not above its
/// own.
pub open spec fn insert_by_key(s: Seq<SelectCandidate>, x: SelectCandidate, o: SelectOrder) -> Seq<
    SelectCandidate,
>
    decreases s.len(),
{
    if s.len() == 0 {
        seq![x]
    } else if order_key(s.last(), o) <= order_key(x, o) {
        s.push(x)
    } else {
        insert_by_key(s.drop_last(), x, o).push(s.last())
    }
}

/// The candidates sorted by key, candidates of equal key keeping their
/// order (a stable sort).
pub open spec fn sort_by_key(s: Seq<SelectCandidate>, o: SelectOrder) -> Seq<SelectCandidate>
    decreases s.len(),
{
    if s.len() == 0 {
        Seq::empty()
    } else {
        insert_by_key(sort_by_key(s.drop_last(), o), s.last(), o)
    }
}

/// An edge as the reply gives it: each field there when the request asks
/// for it (all when it names none), the relation only for a labelled
/// feature, the target trimmed.
#[derive(Debug, Clone)]
pub struct SelectedEdge {
    pub layer: Option<usize>,
    pub feature: Option<usize>,
    pub target: Option<String>,
    pub c_score: Option<u32>,
    pub relation: Option<String>,
}

/// The request asks for the field `name`.
pub open spec fn wants(fields: Option<Vec<String>>, name: Seq<char>) -> bool {
    match fields {
        Some(fs) => string_views(fs@).contains(name),
        None => true,
    }
}

/// `e` is the edge of candidate `c` under the request's fields.
pub open spec fn edge_of(e: SelectedEdge, c: SelectCandidate, fields: Option<Vec<String>>) -> bool {
    &&& e.layer == (if wants(fields, "layer"@) {
        Some(c.layer)
    } else {
        None
    })
    &&& e.feature == (if wants(fields, "feature"@) {
        Some(c.feature)
    } else {
        None
    })
    &&& match e.target {
        Some(t) => wants(fields, "target"@) && t@ == trim(c.top_token@),
        None => !wants(fields, "target"@),
    }
    &&& e.c_score == (if wants(fields, "c_score"@) {
        Some(c.c_score)
    } else {
        None
    })
    &&& match e.relation {
        Some(r) => wants(fields, "relation"@) && (c.relation matches Some(cr) && r@ == cr@),
        None => !wants(fields, "relation"@) || c.relation is None,
    }
}

/// What a `SELECT` returns: the first `limit` of the kept candidates in
/// the order asked for.
pub open spec fn selected(cs: Seq<SelectCandidate>, q: SelectQuery) -> Seq<SelectCandidate> {
    let s = sort_by_key(kept(cs, q), select_order(q));
    s.take(
        if s.len() < q.limit {
            s.len() as int
        } else {
            q.limit as int
        },
    )
}

/// Whether `hay`, lowercased, holds `needle`, lowercased.
fn holds_folded_exec(hay: &str, needle: &str) -> (r: bool)
    ensures
        r == holds_folded(hay@, needle@),
{
    let h = crate::text::lowercase(hay);
    let n = crate::text::lowercase(needle);
    let hc = chars_of(h.as_str());
    let nc = chars_of(n.as_str());
    contains_chars(hc.as_slice(), nc.as_slice())
}

fn keeps_exec(c: &SelectCandidate, q: &SelectQuery) -> (r: bool)
    ensures
        r == keeps(*c, *q),
{
    let relation_ok = match &q.relation {
        Some(f) => match &c.relation {
            Some(r) => holds_folded_exec(r.as_str(), f.as_str()),
            None => false,
        },
        None => true,
    };
    let entity_ok = match &q.entity {
        Some(e) => holds_folded_exec(c.top_token.as_str(), e.as_str()),
        None => true,
    };
    let score_ok = match q.confidence_floor {
        Some(m) => !score_below_exec(c.c_score, m),
        None => true,
    };
    relation_ok && entity_ok && score_ok
}

/// The order a query asks for (`select_order`).
pub fn order_of(q: &SelectQuery) -> (o: SelectOrder)
    ensures
        o == select_order(*q),
{
    let desc = crate::lql::str_eq(q.order.as_str(), "desc");
    match &q.order_by {
        Some(f) => {
            let fs = f.as_str();
            if crate::lql::str_eq(fs, "gate_score") || crate::lql::str_eq(fs, "confidence")
                || crate::lql::str_eq(fs, "c_score") {
                if desc {
                    SelectOrder::ScoreDescending
                } else {
                    SelectOrder::ScoreAscending
                }
            } else if crate::lql::str_eq(fs, "layer") {
                if desc {
                    SelectOrder::LayerDescending
                } else {
                    SelectOrder::LayerAscending
                }
            } else {
                SelectOrder::ScoreDescending
            }
        },
        None => SelectOrder::ScoreDescending,
    }
}

/// Whether `a` sorts after `b`: its key is above `b`'s.
fn key_above(a: &SelectCandidate, b: &SelectCandidate, o: SelectOrder) -> (r: bool)
    ensures
        r == (order_key(*a, o) > order_key(*b, o)),
{
    match o {
        SelectOrder::ScoreAscending => crate::token_summary::score_key_exec(a.c_score)
            > crate::token_summary::score_key_exec(b.c_score),
        SelectOrder::ScoreDescending => crate::token_summary::score_key_exec(a.c_score)
            < crate::token_summary::score_key_exec(b.c_score),
        SelectOrder::LayerAscending => a.layer > b.layer,
        SelectOrder::LayerDescending => a.layer < b.layer,
    }
}

proof fn lemma_insert_at(s: Seq<SelectCandidate>, x: SelectCandidate, o: SelectOrder, p: int)
    requires
        0 <= p <= s.len(),
        forall|i: int| p <= i < s.len() ==> order_key(#[trigger] s[i], o) > order_key(x, o),
        p == 0 || order_key(s[p - 1], o) <= order_key(x, o),
    ensures
        insert_by_key(s, x, o) == s.take(p).push(x) + s.skip(p),
    decreases s.len(),
{
    if s.len() == 0 {
        assert(s.take(p).push(x) + s.skip(p) =~= seq![x]);
    } else if p == s.len() {
        assert(s.take(p) =~= s);
        assert(s.skip(p) =~= Seq::<SelectCandidate>::empty());
        assert(s.take(p).push(x) + s.skip(p) =~= s.push(x));
    } else {
        let d = s.drop_last();
        assert(order_key(s.last(), o) > order_key(x, o));
        assert forall|i: int| p <= i < d.len() implies order_key(#[trigger] d[i], o) > order_key(x, o) by {
            assert(d[i] == s[i]);
        }
        if p > 0 {
            assert(d[p - 1] == s[p - 1]);
        }
        lemma_insert_at(d, x, o, p);
        assert(d.take(p) =~= s.take(p));
        assert((d.take(p).push(x) + d.skip(p)).push(s.last()) =~= s.take(p).push(x) + s.skip(p));
    }
}

/// Sorts the candidates by the order's key, keeping candidates of equal
/// key in their order (`sort_by_key`).
fn sort_candidates(v: Vec<SelectCandidate>, o: SelectOrder) -> (r: Vec<SelectCandidate>)
    ensures
        r@ == sort_by_key(v@, o),
{
    let ghost input = v@;
    let mut rest = v;
    let n = rest.len();
    let mut out: Vec<SelectCandidate> = Vec::new();
    let mut i: usize = 0;
    while rest.len() > 0
        invariant
            input.len() == n,
            i <= input.len(),
            i + rest@.len() == input.len(),
            rest@ == input.skip(i as int),
            out@ == sort_by_key(input.take(i as int), o),
        decreases rest.len(),
    {
        let x = rest.remove(0);
        proof {
            assert(x == input[i as int]);
            assert(rest@ =~= input.skip(i + 1));
        }
        let mut p: usize = out.len();
        while p > 0 && key_above(&out[p - 1], &x, o)
            invariant
                p <= out@.len(),
                forall|k: int| p <= k < out@.len() ==> order_key(#[trigger] out@[k], o) > order_key(x, o),
            decreases p,
        {
            p = p - 1;
        }
        proof {
            lemma_insert_at(out@, x, o, p as int);
            assert(input.take(i + 1).drop_last() =~= input.take(i as int));
            assert(input.take(i + 1).last() == x);
        }
        let ghost before = out@;
        out.insert(p, x);
        proof {
            assert(out@ =~= before.take(p as int).push(x) + before.skip(p as int));
        }
        i = i + 1;
    }
    proof {
        assert(input.skip(i as int).len() == 0);
        assert(input.take(i as int) =~= input);
    }
    out
}

/// The candidates that pass the query's filters, in order (`kept`).
fn keep_candidates(cs: &Vec<SelectCandidate>, q: &SelectQuery) -> (r: Vec<SelectCandidate>)
    ensures
        r@ == kept(cs@, *q),
{
    let mut r: Vec<SelectCandidate> = Vec::new();
    let mut i: usize = 0;
    while i < cs.len()
        invariant
            i <= cs@.len(),
            r@ == kept(cs@.take(i as int), *q),
        decreases cs.len() - i,
    {
        proof {
            assert(cs@.take(i + 1).drop_last() =~= cs@.take(i as int));
            assert(cs@.take(i + 1).last() == cs@[i as int]);
        }
        if keeps_exec(&cs[i], q) {
            r.push(copy_candidate(&cs[i]));
        }
        i = i + 1;
    }
    assert(cs@.take(cs.len() as int) =~= cs@);
    r
}

fn copy_opt_string(s: &Option<String>) -> (r: Option<String>)
    ensures
        r == *s,
{
    match s {
        Some(x) => Some(copy_string(x)),
        None => None,
    }
}

fn copy_string(s: &String) -> (r: String)
    ensures
        r == *s,
{
    s.clone()
}

fn copy_candidate(c: &SelectCandidate) -> (r: SelectCandidate)
    ensures
        r == *c,
{
    SelectCandidate {
        layer: c.layer,
        feature: c.feature,
        top_token: copy_string(&c.top_token),
        c_score: c.c_score,
        relation: copy_opt_string(&c.relation),
    }
}

fn wants_exec(fields: &Option<Vec<String>>, name: &str) -> (r: bool)
    ensures
        r == wants(*fields, name@),
{
    match fields {
        Some(fs) => {
            let ghost views = string_views(fs@);
            let mut i: usize = 0;
            while i < fs.len()
                invariant
                    i <= fs@.len(),
                    *fields == Some(*fs),
                    views == string_views(fs@),
                    forall|j: int| 0 <= j < i ==> views[j] != name@,
                decreases fs.len() - i,
            {
                if crate::lql::str_eq(fs[i].as_str(), name) {
                    assert(views.len() == fs@.len());
                    assert(views[i as int] == name@);
                    assert(views.contains(name@));
                    return true;
                }
                i = i + 1;
            }
            assert(!views.contains(name@));
            false
        },
        None => true,
    }
}

/// The edge of a candidate under the request's fields (`edge_of`).
fn edge_exec(c: &SelectCandidate, fields: &Option<Vec<String>>) -> (e: SelectedEdge)
    ensures
        edge_of(e, *c, *fields),
{
    SelectedEdge {
        layer: if wants_exec(fields, "layer") {
            Some(c.layer)
        } else {
            None
        },
        feature: if wants_exec(fields, "feature") {
            Some(c.feature)
        } else {
            None
        },
        target: if wants_exec(fields, "target") {
            Some(crate::text::trim_str(c.top_token.as_str()))
        } else {
            None
        },
        c_score: if wants_exec(fields, "c_score") {
            Some(c.c_score)
        } else {
            None
        },
        relation: if wants_exec(fields, "relation") {
            match &c.relation {
                Some(r) => Some(r.clone()),
                None => None,
            }
        } else {
            None
        },
    }
}

/// Whether the query can order the candidates it keeps: always by layer,
/// by score only when no kept score is NaN.
pub open spec fn orderable(cs: Seq<SelectCandidate>, q: SelectQuery) -> bool {
    by_score(select_order(q)) ==> forall|i: int|
        0 <= i < kept(cs, q).len() ==> !is_nan_bits(#[trigger] kept(cs, q)[i].c_score)
}

/// A `SELECT` over the features of the scanned layers, given in scan
/// order: the edges of the first `limit` candidates the query keeps, in
/// the order it asks for, and how many it keeps in all.
pub fn select_edges(cands: &Vec<SelectCandidate>, q: &SelectQuery) -> (r: (Vec<SelectedEdge>, usize))
    requires
        orderable(cands@, *q),
    ensures
        r.1 == kept(cands@, *q).len(),
        r.0@.len() == selected(cands@, *q).len(),
        forall|i: int| 0 <= i < r.0@.len() ==> edge_of(#[trigger] r.0@[i], selected(cands@, *q)[i], q.fields),
{
    let rows = keep_candidates(cands, q);
    let total = rows.len();
    let o = order_of(q);
    let sorted = sort_candidates(rows, o);
    let ghost sel = selected(cands@, *q);
    let n = if sorted.len() < q.limit {
        sorted.len()
    } else {
        q.limit
    };
    let mut edges: Vec<SelectedEdge> = Vec::new();
    let mut i: usize = 0;
    while i < n
        invariant
            i <= n,
            n <= sorted@.len(),
            sel == sorted@.take(n as int),
            edges@.len() == i,
            forall|j: int| 0 <= j < i ==> edge_of(#[trigger] edges@[j], sel[j], q.fields),
        decreases n - i,
    {
        let e = edge_exec(&sorted[i], &q.fields);
        edges.push(e);
        i = i + 1;
    }
    (edges, total)
}

/// Whether the candidates can be ordered as the query asks
/// (`orderable`): a caller checks this before `select_edges`.
pub fn select_orderable(cands: &Vec<SelectCandidate>, q: &SelectQuery) -> (r: bool)
    ensures
        r == orderable(cands@, *q),
{
    let o = order_of(q);
    let score_order = match o {
        SelectOrder::ScoreAscending => true,
        SelectOrder::ScoreDescending => true,
        _ => false,
    };
    if !score_order {
        return true;
    }
    let rows = keep_candidates(cands, q);
    let mut i: usize = 0;
    while i < rows.len()
        invariant
            i <= rows@.len(),
            rows@ == kept(cands@, *q),
            by_score(select_order(*q)),
            forall|j: int| 0 <= j < i ==> !is_nan_bits(#[trigger] rows@[j].c_score),
        decreases rows.len() - i,
    {
        if crate::token_summary::is_nan_exec(rows[i].c_score) {
            assert(by_score(select_order(*q)));
            assert(is_nan_bits(kept(cands@, *q)[i as int].c_score));
            return false;
        }
        i = i + 1;
    }
    true
}

// ───────────────────────── the order, proved ─────────────────────────

/// Every candidate comes no later than the ones after it under the order.
pub open spec fn sorted_by(s: Seq<SelectCandidate>, o: SelectOrder) -> bool {
    forall|i: int, j: int| 0 <= i < j < s.len() ==> order_key(#[trigger] s[i], o) <= order_key(#[trigger] s[j], o)
}

/// The candidates of `s` whose key under `o` is `k`, in their order.
pub open spec fn with_key(s: Seq<SelectCandidate>, o: SelectOrder, k: int) -> Seq<SelectCandidate>
    decreases s.len(),
{
    if s.len() == 0 {
        Seq::empty()
    } else if order_key(s.last(), o) == k {
        with_key(s.drop_last(), o, k).push(s.last())
    } else {
        with_key(s.drop_last(), o, k)
    }
}

proof fn lemma_insert_bound(t: Seq<SelectCandidate>, x: SelectCandidate, o: SelectOrder, b: int)
    requires
        forall|i: int| 0 <= i < t.len() ==> order_key(#[trigger] t[i], o) <= b,
        order_key(x, o) <= b,
    ensures
        insert_by_key(t, x, o).len() == t.len() + 1,
        forall|i: int| 0 <= i < insert_by_key(t, x, o).len() ==> order_key(#[trigger] insert_by_key(t, x, o)[i], o) <= b,
    decreases t.len(),
{
    if t.len() > 0 && order_key(t.last(), o) > order_key(x, o) {
        let d = t.drop_last();
        assert forall|i: int| 0 <= i < d.len() implies order_key(#[trigger] d[i], o) <= b by {
            assert(d[i] == t[i]);
        }
        lemma_insert_bound(d, x, o, b);
    }
}

proof fn lemma_insert_sorted(t: Seq<SelectCandidate>, x: SelectCandidate, o: SelectOrder)
    requires
        sorted_by(t, o),
    ensures
        sorted_by(insert_by_key(t, x, o), o),
    decreases t.len(),
{
    if t.len() == 0 {
    } else if order_key(t.last(), o) <= order_key(x, o) {
        let r = t.push(x);
        assert forall|i: int, j: int| 0 <= i < j < r.len() implies order_key(#[trigger] r[i], o) <= order_key(#[trigger] r[j], o) by {
            if j == t.len() {
                if i < t.len() - 1 {
                    assert(order_key(t[i], o) <= order_key(t[t.len() - 1], o));
                }
            } else {
                assert(r[i] == t[i] && r[j] == t[j]);
            }
        }
    } else {
        let d = t.drop_last();
        assert(sorted_by(d, o)) by {
            assert forall|i: int, j: int| 0 <= i < j < d.len() implies order_key(#[trigger] d[i], o) <= order_key(#[trigger] d[j], o) by {
                assert(d[i] == t[i] && d[j] == t[j]);
            }
        }
        lemma_insert_sorted(d, x, o);
        assert forall|i: int| 0 <= i < d.len() implies order_key(#[trigger] d[i], o) <= order_key(t.last(), o) by {
            assert(d[i] == t[i]);
        }
        lemma_insert_bound(d, x, o, order_key(t.last(), o));
        let m = insert_by_key(d, x, o);
        let r = m.push(t.last());
        assert forall|i: int, j: int| 0 <= i < j < r.len() implies order_key(#[trigger] r[i], o) <= order_key(#[trigger] r[j], o) by {
            if j == m.len() {
                assert(r[i] == m[i]);
            } else {
                assert(r[i] == m[i] && r[j] == m[j]);
            }
        }
    }
}

proof fn lemma_insert_multiset(t: Seq<SelectCandidate>, x: SelectCandidate, o: SelectOrder)
    ensures
        insert_by_key(t, x, o).to_multiset() == t.to_multiset().insert(x),
    decreases t.len(),
{
    broadcast use vstd::seq_lib::to_multiset_build;
    if t.len() == 0 {
        assert(seq![x] =~= t.push(x));
    } else if order_key(t.last(), o) <= order_key(x, o) {
    } else {
        let d = t.drop_last();
        lemma_insert_multiset(d, x, o);
        assert(t =~= d.push(t.last()));
        assert(insert_by_key(t, x, o).to_multiset() =~= t.to_multiset().insert(x));
    }
}

proof fn lemma_insert_with_key(t: Seq<SelectCandidate>, x: SelectCandidate, o: SelectOrder, k: int)
    ensures
        with_key(insert_by_key(t, x, o), o, k) == (if order_key(x, o) == k {
            with_key(t, o, k).push(x)
        } else {
            with_key(t, o, k)
        }),
    decreases t.len(),
{
    if t.len() == 0 {
        let r = seq![x];
        assert(r.drop_last() =~= t);
        assert(r.last() == x);
        assert(with_key(t, o, k) == Seq::<SelectCandidate>::empty());
    } else if order_key(t.last(), o) <= order_key(x, o) {
        assert(t.push(x).drop_last() =~= t);
        assert(t.push(x).last() == x);
    } else {
        let d = t.drop_last();
        lemma_insert_with_key(d, x, o, k);
        let m = insert_by_key(d, x, o);
        assert(m.push(t.last()).drop_last() =~= m);
        assert(m.push(t.last()).last() == t.last());
        assert(insert_by_key(t, x, o) == m.push(t.last()));
    }
}

/// Sorting by key puts the candidates in the order (`sorted_by`), keeps
/// each of them (as many times as it occurs), and keeps candidates of
/// equal key in their order: the candidates of any one key come as they
/// came in.
pub proof fn lemma_sort_by_key(s: Seq<SelectCandidate>, o: SelectOrder)
    ensures
        sorted_by(sort_by_key(s, o), o),
        sort_by_key(s, o).to_multiset() == s.to_multiset(),
        forall|k: int| #[trigger] with_key(sort_by_key(s, o), o, k) == with_key(s, o, k),
    decreases s.len(),
{
    broadcast use vstd::seq_lib::to_multiset_build;
    if s.len() == 0 {
        assert(s =~= Seq::<SelectCandidate>::empty());
        assert forall|k: int| #[trigger] with_key(sort_by_key(s, o), o, k) == with_key(s, o, k) by {}
    } else {
        let d = s.drop_last();
        lemma_sort_by_key(d, o);
        lemma_insert_sorted(sort_by_key(d, o), s.last(), o);
        lemma_insert_multiset(sort_by_key(d, o), s.last(), o);
        assert(s =~= d.push(s.last()));
        assert forall|k: int| #[trigger] with_key(sort_by_key(s, o), o, k) == with_key(s, o, k) by {
            lemma_insert_with_key(sort_by_key(d, o), s.last(), o, k);
        }
    }
}

/// The edges a `SELECT` returns are the first of its kept candidates put
/// in the order it asks for: that order holds between them, no candidate
/// is lost or made up by the ordering, and candidates the order ties come
/// in scan order.
pub proof fn lemma_select_order(cands: Seq<SelectCandidate>, q: SelectQuery)
    ensures
        sorted_by(selected(cands, q), select_order(q)),
        sort_by_key(kept(cands, q), select_order(q)).to_multiset() == kept(cands, q).to_multiset(),
        forall|k: int|
            #[trigger] with_key(sort_by_key(kept(cands, q), select_order(q)), select_order(q), k)
                == with_key(kept(cands, q), select_order(q), k),
        selected(cands, q).len() == (if kept(cands, q).len() < q.limit {
            kept(cands, q).len() as int
        } else {
            q.limit as int
        }),
{
    let o = select_order(q);
    let s = sort_by_key(kept(cands, q), o);
    lemma_sort_by_key(kept(cands, q), o);
    broadcast use vstd::seq_lib::to_multiset_len;
    assert(s.len() == s.to_multiset().len());
    assert(kept(cands, q).len() == kept(cands, q).to_multiset().len());
    let t = selected(cands, q);
    assert forall|i: int, j: int| 0 <= i < j < t.len() implies order_key(#[trigger] t[i], o) <= order_key(#[trigger] t[j], o) by {
        assert(t[i] == s[i] && t[j] == s[j]);
    }
}

} // verus!

//! A local `SHOW RELATIONS`: the probe labels of the scanned features,
//! counted, and the content tokens the features write, gathered by token
//! (case aside), with their counts, best score, layer span and examples.

use vstd::prelude::*;
use crate::introspection::{score_below, score_below_exec};
use crate::lql::{join, str_eq, string_views, DescribeMode};
use crate::server::max_score;
use crate::text::{decimal, lowercase, owned, str_lowercase, trim, trim_str};
use crate::token_summary::{dashes, pad_left, pad_right};

verus! {

/// The layers a local `SHOW RELATIONS` scans: the one asked for, else the
/// loaded layers from 14 to 27.
pub open spec fn scan_layers_spec(layer: Option<u32>, loaded: Seq<usize>) -> Seq<usize> {
    match layer {
        Some(l) => seq![l as usize],
        None => loaded.filter(|x: usize| 14 <= x <= 27),
    }
}

/// The layers a local `SHOW RELATIONS` scans (`scan_layers_spec`).
pub fn relation_scan_layers(layer: Option<u32>, loaded: &Vec<usize>) -> (r: Vec<usize>)
    ensures
        r@ == scan_layers_spec(layer, loaded@),
{
    match layer {
        Some(l) => {
            let mut r: Vec<usize> = Vec::new();
            r.push(l as usize);
            r
        },
        None => {
            let mut r: Vec<usize> = Vec::new();
            let mut i: usize = 0;
            while i < loaded.len()
                invariant
                    i <= loaded@.len(),
                    r@ == loaded@.take(i as int).filter(|x: usize| 14 <= x <= 27),
                decreases loaded.len() - i,
            {
                proof {
                    assert(loaded@.take(i + 1).drop_last() =~= loaded@.take(i as int));
                    reveal(Seq::filter);
                }
                if 14 <= loaded[i] && loaded[i] <= 27 {
                    r.push(loaded[i]);
                }
                i = i + 1;
            }
            assert(loaded@.take(loaded.len() as int) =~= loaded@);
            r
        },
    }
}

/// A scanned feature: its layer, top token, whether that token (trimmed)
/// is a content token, its score (`f32` bits), and the tokens it writes
/// most, each with whether it (trimmed) is a content token.
#[derive(Debug, Clone)]
pub struct RelationMeta {
    pub layer: usize,
    pub top_token: String,
    pub content: bool,
    pub c_score: u32,
    pub top_k: Vec<(String, bool)>,
}

/// `0.2` as `f32` bits: the score a feature needs to count.
pub open spec fn score_floor() -> u32 {
    0x3E4C_CCCD
}

/// The feature counts: its top token is a content token and its score is
/// not below the floor.
pub open spec fn meta_counted(m: RelationMeta) -> bool {
    m.content && !score_below(m.c_score, score_floor())
}

/// The trimmed content tokens among `ks` other than `top`, in order.
pub open spec fn example_candidates(ks: Seq<(String, bool)>, top: Seq<char>) -> Seq<Seq<char>>
    decreases ks.len(),
{
    if ks.len() == 0 {
        Seq::empty()
    } else {
        let prev = example_candidates(ks.drop_last(), top);
        let t = trim(ks.last().0@);
        if ks.last().1 && t != top {
            prev.push(t)
        } else {
            prev
        }
    }
}

/// The first three of them.
pub open spec fn meta_examples(m: RelationMeta) -> Seq<Seq<char>> {
    let c = example_candidates(m.top_k@, trim(m.top_token@));
    c.take(
        if c.len() < 3 {
            c.len() as int
        } else {
            3
        },
    )
}

/// A token row: the lowercased token, the token as first met, how many
/// features write it, their best score, the lowest and highest layer, and
/// the examples of the first.
pub type TokenView = (Seq<char>, Seq<char>, nat, u32, nat, nat, Seq<Seq<char>>);

/// The position of the row of `key`.
pub open spec fn token_index(rows: Seq<TokenView>, key: Seq<char>) -> Option<int>
    decreases rows.len(),
{
    if rows.len() == 0 {
        None
    } else if rows.last().0 == key {
        Some(rows.len() - 1)
    } else {
        token_index(rows.drop_last(), key)
    }
}

/// The token rows of the scanned features, in the order first met.
pub open spec fn token_rows(ms: Seq<RelationMeta>) -> Seq<TokenView>
    decreases ms.len(),
{
    if ms.len() == 0 {
        Seq::empty()
    } else {
        let rows = token_rows(ms.drop_last());
        let m = ms.last();
        if !meta_counted(m) {
            rows
        } else {
            let t = trim(m.top_token@);
            let key = str_lowercase(t);
            let l = m.layer as nat;
            match token_index(rows, key) {
                Some(j) => {
                    let r = rows[j];
                    rows.update(
                        j,
                        (
                            r.0,
                            r.1,
                            r.2 + 1,
                            max_score(r.3, m.c_score),
                            if l < r.4 {
                                l
                            } else {
                                r.4
                            },
                            if l > r.5 {
                                l
                            } else {
                                r.5
                            },
                            r.6,
                        ),
                    )
                },
                None => rows.push((key, t, 1nat, max_score(0, m.c_score), l, l, meta_examples(m))),
            }
        }
    }
}

/// `x` placed into `s` (ordered by count, highest first) after every row
/// with at least its count.
pub open spec fn insert_token_row(s: Seq<TokenView>, x: TokenView) -> Seq<TokenView>
    decreases s.len(),
{
    if s.len() == 0 {
        seq![x]
    } else if s.last().2 >= x.2 {
        s.push(x)
    } else {
        insert_token_row(s.drop_last(), x).push(s.last())
    }
}

/// The rows by count, highest first, rows of equal count in the order met.
pub open spec fn sort_token_rows(s: Seq<TokenView>) -> Seq<TokenView>
    decreases s.len(),
{
    if s.len() == 0 {
        Seq::empty()
    } else {
        insert_token_row(sort_token_rows(s.drop_last()), s.last())
    }
}

/// A probe label row: the label and how many scanned features carry it.
pub type LabelView = (Seq<char>, nat);

/// The position of the row of `label`.
pub open spec fn label_index(rows: Seq<LabelView>, label: Seq<char>) -> Option<int>
    decreases rows.len(),
{
    if rows.len() == 0 {
        None
    } else if rows.last().0 == label {
        Some(rows.len() - 1)
    } else {
        label_index(rows.drop_last(), label)
    }
}

/// The labels counted, in the order first met.
pub open spec fn label_rows(labels: Seq<Seq<char>>) -> Seq<LabelView>
    decreases labels.len(),
{
    if labels.len() == 0 {
        Seq::empty()
    } else {
        let rows = label_rows(labels.drop_last());
        match label_index(rows, labels.last()) {
            Some(j) => rows.update(j, (rows[j].0, rows[j].1 + 1)),
            None => rows.push((labels.last(), 1nat)),
        }
    }
}

/// `x` placed into `s` after every row with at least its count.
pub open spec fn insert_label_row(s: Seq<LabelView>, x: LabelView) -> Seq<LabelView>
    decreases s.len(),
{
    if s.len() == 0 {
        seq![x]
    } else if s.last().1 >= x.1 {
        s.push(x)
    } else {
        insert_label_row(s.drop_last(), x).push(s.last())
    }
}

/// The label rows by count, highest first, ties in the order met.
pub open spec fn sort_label_rows(s: Seq<LabelView>) -> Seq<LabelView>
    decreases s.len(),
{
    if s.len() == 0 {
        Seq::empty()
    } else {
        insert_label_row(sort_label_rows(s.drop_last()), s.last())
    }
}

/// The first `n` of `s`, or all of it.
pub open spec fn first_n<T>(s: Seq<T>, n: nat) -> Seq<T> {
    s.take(
        if s.len() < n {
            s.len() as int
        } else {
            n as int
        },
    )
}

/// A token row (`TokenView`).
#[derive(Debug, Clone)]
pub struct RelationToken {
    pub key: String,
    pub original: String,
    pub count: usize,
    pub max_score: u32,
    pub min_layer: usize,
    pub max_layer: usize,
    pub examples: Vec<String>,
}

/// What a token row says.
pub open spec fn token_view(r: RelationToken) -> TokenView {
    (r.key@, r.original@, r.count as nat, r.max_score, r.min_layer as nat, r.max_layer as nat, string_views(r.examples@))
}

/// What a list of token rows says.
pub open spec fn token_views(v: Seq<RelationToken>) -> Seq<TokenView> {
    v.map_values(|r: RelationToken| token_view(r))
}

proof fn lemma_token_index(rows: Seq<TokenView>, key: Seq<char>)
    ensures
        match token_index(rows, key) {
            Some(j) => 0 <= j < rows.len() && rows[j].0 == key,
            None => forall|j: int| 0 <= j < rows.len() ==> (#[trigger] rows[j]).0 != key,
        },
    decreases rows.len(),
{
    if rows.len() > 0 {
        lemma_token_index(rows.drop_last(), key);
        if rows.last().0 != key {
            assert forall|j: int| 0 <= j < rows.len() - 1 implies (#[trigger] rows[j]).0 == rows.drop_last()[j].0 by {}
        }
    }
}

proof fn lemma_token_counts_bounded(ms: Seq<RelationMeta>)
    ensures
        forall|j: int| 0 <= j < token_rows(ms).len() ==> (#[trigger] token_rows(ms)[j]).2 <= ms.len(),
    decreases ms.len(),
{
    if ms.len() > 0 {
        let p = ms.drop_last();
        lemma_token_counts_bounded(p);
        let rows = token_rows(p);
        let m = ms.last();
        if meta_counted(m) {
            let key = str_lowercase(trim(m.top_token@));
            lemma_token_index(rows, key);
            let r = token_rows(ms);
            assert forall|j: int| 0 <= j < r.len() implies (#[trigger] r[j]).2 <= ms.len() by {
                if j < rows.len() {
                    assert(rows[j].2 <= p.len());
                }
            }
        }
    }
}

/// The examples of a feature (`meta_examples`).
fn meta_examples_exec(m: &RelationMeta) -> (r: Vec<String>)
    ensures
        string_views(r@) == meta_examples(*m),
{
    let top = trim_str(m.top_token.as_str());
    let mut c: Vec<String> = Vec::new();
    let mut i: usize = 0;
    while i < m.top_k.len()
        invariant
            i <= m.top_k@.len(),
            top@ == trim(m.top_token@),
            string_views(c@) == example_candidates(m.top_k@.take(i as int), top@),
        decreases m.top_k.len() - i,
    {
        proof {
            assert(m.top_k@.take(i + 1).drop_last() =~= m.top_k@.take(i as int));
        }
        let t = trim_str(m.top_k[i].0.as_str());
        if m.top_k[i].1 && !str_eq(t.as_str(), top.as_str()) {
            let ghost prev = string_views(c@);
            c.push(t);
            assert(string_views(c@) =~= prev.push(trim(m.top_k@[i as int].0@)));
        }
        i = i + 1;
    }
    assert(m.top_k@.take(m.top_k.len() as int) =~= m.top_k@);
    let n: usize = if c.len() < 3 {
        c.len()
    } else {
        3
    };
    let mut r: Vec<String> = Vec::new();
    let mut k: usize = 0;
    while k < n
        invariant
            k <= n <= c@.len(),
            string_views(r@) == string_views(c@).take(k as int),
        decreases n - k,
    {
        let ghost prev = string_views(r@);
        let x = c[k].clone();
        r.push(x);
        assert(string_views(r@) =~= prev.push(c@[k as int]@));
        assert(string_views(c@).take(k + 1) =~= string_views(c@).take(k as int).push(c@[k as int]@));
        k = k + 1;
    }
    r
}

fn copy_strings(v: &Vec<String>) -> (r: Vec<String>)
    ensures
        string_views(r@) == string_views(v@),
{
    let r = crate::batch_dla::copy_strings(v);
    r
}

/// The token rows of the scanned features (`token_rows`).
pub fn count_relation_tokens(metas: &Vec<RelationMeta>) -> (r: Vec<RelationToken>)
    ensures
        token_views(r@) == token_rows(metas@),
{
    let mut rows: Vec<RelationToken> = Vec::new();
    let mut i: usize = 0;
    while i < metas.len()
        invariant
            i <= metas@.len(),
            token_views(rows@) == token_rows(metas@.take(i as int)),
        decreases metas.len() - i,
    {
        let ghost pre = metas@.take(i as int);
        let m = &metas[i];
        proof {
            assert(metas@.take(i + 1).drop_last() =~= pre);
            assert(metas@.take(i + 1).last() == *m);
            lemma_token_counts_bounded(pre);
        }
        let counted = m.content && !score_below_exec(m.c_score, 0x3E4C_CCCD);
        if counted {
            let t = trim_str(m.top_token.as_str());
            let key = lowercase(t.as_str());
            proof {
                lemma_token_index(token_rows(pre), key@);
            }
            let ghost v = token_views(rows@);
            let mut j: usize = rows.len();
            assert(v.take(j as int) =~= v);
            while j > 0 && !str_eq(rows[j - 1].key.as_str(), key.as_str())
                invariant
                    j <= rows@.len(),
                    v == token_views(rows@),
                    token_index(v, key@) == token_index(v.take(j as int), key@),
                decreases j,
            {
                assert(v.take(j as int).drop_last() =~= v.take(j - 1));
                assert(v.take(j as int).last() == v[j - 1]);
                j = j - 1;
            }
            if j == 0 {
                assert(v.take(0) =~= Seq::<TokenView>::empty());
                let ex = meta_examples_exec(m);
                let row = RelationToken {
                    key,
                    original: t,
                    count: 1,
                    max_score: crate::server::max_score_exec(0, m.c_score),
                    min_layer: m.layer,
                    max_layer: m.layer,
                    examples: ex,
                };
                rows.push(row);
                assert(token_views(rows@) =~= token_rows(metas@.take(i + 1)));
            } else {
                assert(v.take(j as int).last() == v[j - 1]);
                assert(token_index(v, key@) == Some((j - 1) as int));
                assert(rows@[j - 1].count <= i);
                let old = &rows[j - 1];
                let nr = RelationToken {
                    key: old.key.clone(),
                    original: old.original.clone(),
                    count: old.count + 1,
                    max_score: crate::server::max_score_exec(old.max_score, m.c_score),
                    min_layer: if m.layer < old.min_layer {
                        m.layer
                    } else {
                        old.min_layer
                    },
                    max_layer: if m.layer > old.max_layer {
                        m.layer
                    } else {
                        old.max_layer
                    },
                    examples: copy_strings(&old.examples),
                };
                rows.set(j - 1, nr);
                assert(token_views(rows@) =~= token_rows(metas@.take(i + 1)));
            }
        } else {
            assert(token_rows(metas@.take(i + 1)) == token_rows(pre));
        }
        i = i + 1;
    }
    assert(metas@.take(metas.len() as int) =~= metas@);
    rows
}

proof fn lemma_insert_token_at(s: Seq<TokenView>, x: TokenView, p: int)
    requires
        0 <= p <= s.len(),
        forall|i: int| p <= i < s.len() ==> (#[trigger] s[i]).2 < x.2,
        p == 0 || s[p - 1].2 >= x.2,
    ensures
        insert_token_row(s, x) == s.take(p).push(x) + s.skip(p),
    decreases s.len(),
{
    if s.len() == 0 {
        assert(s.take(p).push(x) + s.skip(p) =~= seq![x]);
    } else if p == s.len() {
        assert(s.take(p).push(x) + s.skip(p) =~= s.push(x));
    } else {
        let d = s.drop_last();
        assert(s.last().2 < x.2);
        assert forall|i: int| p <= i < d.len() implies (#[trigger] d[i]).2 < x.2 by {
            assert(d[i] == s[i]);
        }
        if p > 0 {
            assert(d[p - 1] == s[p - 1]);
        }
        lemma_insert_token_at(d, x, p);
        assert((d.take(p).push(x) + d.skip(p)).push(s.last()) =~= s.take(p).push(x) + s.skip(p));
    }
}

/// The token rows by count, highest first, ties in the order given
/// (`sort_token_rows`).
fn sort_relation_tokens(v: Vec<RelationToken>) -> (r: Vec<RelationToken>)
    ensures
        token_views(r@) == sort_token_rows(token_views(v@)),
{
    let ghost input = token_views(v@);
    let mut rest = v;
    let n = rest.len();
    let mut out: Vec<RelationToken> = Vec::new();
    let mut i: usize = 0;
    while rest.len() > 0
        invariant
            input.len() == n,
            i + rest@.len() == n,
            token_views(rest@) == input.skip(i as int),
            token_views(out@) == sort_token_rows(input.take(i as int)),
        decreases rest.len(),
    {
        let ghost before = rest@;
        let x = rest.remove(0);
        proof {
            assert(x == before[0]);
            assert(token_views(before)[0] == input.skip(i as int)[0]);
            assert(token_view(x) == input[i as int]);
            assert forall|k: int| 0 <= k < rest@.len() implies token_views(rest@)[k] == input.skip(i + 1)[k] by {
                assert(rest@[k] == before[k + 1]);
                assert(token_views(before)[k + 1] == input.skip(i as int)[k + 1]);
            }
            assert(token_views(rest@) =~= input.skip(i + 1));
        }
        let mut p: usize = out.len();
        while p > 0 && out[p - 1].count < x.count
            invariant
                p <= out@.len(),
                forall|k: int| p <= k < out@.len() ==> (#[trigger] out@[k]).count < x.count,
            decreases p,
        {
            p = p - 1;
        }
        let ghost ov = token_views(out@);
        proof {
            assert forall|k: int| p <= k < ov.len() implies (#[trigger] ov[k]).2 < token_view(x).2 by {
                assert(ov[k] == token_view(out@[k]));
            }
            if p > 0 {
                assert(ov[p - 1] == token_view(out@[p - 1]));
            }
            lemma_insert_token_at(ov, token_view(x), p as int);
            assert(input.take(i + 1).drop_last() =~= input.take(i as int));
        }
        out.insert(p, x);
        proof {
            assert(token_views(out@) =~= ov.take(p as int).push(input[i as int]) + ov.skip(p as int));
        }
        i = i + 1;
    }
    proof {
        assert(input.take(i as int) =~= input);
    }
    out
}

proof fn lemma_label_index(rows: Seq<LabelView>, label: Seq<char>)
    ensures
        match label_index(rows, label) {
            Some(j) => 0 <= j < rows.len() && rows[j].0 == label,
            None => forall|j: int| 0 <= j < rows.len() ==> (#[trigger] rows[j]).0 != label,
        },
    decreases rows.len(),
{
    if rows.len() > 0 {
        lemma_label_index(rows.drop_last(), label);
        if rows.last().0 != label {
            assert forall|j: int| 0 <= j < rows.len() - 1 implies (#[trigger] rows[j]).0 == rows.drop_last()[j].0 by {}
        }
    }
}

proof fn lemma_label_counts_bounded(labels: Seq<Seq<char>>)
    ensures
        forall|j: int| 0 <= j < label_rows(labels).len() ==> (#[trigger] label_rows(labels)[j]).1 <= labels.len(),
    decreases labels.len(),
{
    if labels.len() > 0 {
        let p = labels.drop_last();
        lemma_label_counts_bounded(p);
        let rows = label_rows(p);
        lemma_label_index(rows, labels.last());
        let r = label_rows(labels);
        assert forall|j: int| 0 <= j < r.len() implies (#[trigger] r[j]).1 <= labels.len() by {
            if j < rows.len() {
                assert(rows[j].1 <= p.len());
            }
        }
    }
}

/// What a list of label rows says.
pub open spec fn label_views(v: Seq<(String, usize)>) -> Seq<LabelView> {
    v.map_values(|r: (String, usize)| (r.0@, r.1 as nat))
}

/// The probe labels counted, in the order first met (`label_rows`).
fn count_labels(labels: &Vec<String>) -> (r: Vec<(String, usize)>)
    ensures
        label_views(r@) == label_rows(string_views(labels@)),
{
    let ghost ls = string_views(labels@);
    let mut rows: Vec<(String, usize)> = Vec::new();
    let mut i: usize = 0;
    while i < labels.len()
        invariant
            i <= labels@.len(),
            ls == string_views(labels@),
            label_views(rows@) == label_rows(ls.take(i as int)),
        decreases labels.len() - i,
    {
        let ghost pre = ls.take(i as int);
        proof {
            assert(ls.take(i + 1).drop_last() =~= pre);
            assert(ls.take(i + 1).last() == labels@[i as int]@);
            lemma_label_counts_bounded(pre);
            lemma_label_index(label_rows(pre), labels@[i as int]@);
        }
        let ghost v = label_views(rows@);
        let mut j: usize = rows.len();
        assert(v.take(j as int) =~= v);
        while j > 0 && !str_eq(rows[j - 1].0.as_str(), labels[i].as_str())
            invariant
                j <= rows@.len(),
                i < labels@.len(),
                v == label_views(rows@),
                label_index(v, labels@[i as int]@) == label_index(v.take(j as int), labels@[i as int]@),
            decreases j,
        {
            assert(v.take(j as int).drop_last() =~= v.take(j - 1));
            assert(v.take(j as int).last() == v[j - 1]);
            j = j - 1;
        }
        if j == 0 {
            assert(v.take(0) =~= Seq::<LabelView>::empty());
            rows.push((labels[i].clone(), 1));
            assert(label_views(rows@) =~= label_rows(ls.take(i + 1)));
        } else {
            assert(v.take(j as int).last() == v[j - 1]);
            assert(rows@[j - 1].1 <= i);
            let name = rows[j - 1].0.clone();
            let c = rows[j - 1].1;
            rows.set(j - 1, (name, c + 1));
            assert(label_views(rows@) =~= label_rows(ls.take(i + 1)));
        }
        i = i + 1;
    }
    assert(ls.take(labels.len() as int) =~= ls);
    rows
}

proof fn lemma_insert_label_at(s: Seq<LabelView>, x: LabelView, p: int)
    requires
        0 <= p <= s.len(),
        forall|i: int| p <= i < s.len() ==> (#[trigger] s[i]).1 < x.1,
        p == 0 || s[p - 1].1 >= x.1,
    ensures
        insert_label_row(s, x) == s.take(p).push(x) + s.skip(p),
    decreases s.len(),
{
    if s.len() == 0 {
        assert(s.take(p).push(x) + s.skip(p) =~= seq![x]);
    } else if p == s.len() {
        assert(s.take(p).push(x) + s.skip(p) =~= s.push(x));
    } else {
        let d = s.drop_last();
        assert(s.last().1 < x.1);
        assert forall|i: int| p <= i < d.len() implies (#[trigger] d[i]).1 < x.1 by {
            assert(d[i] == s[i]);
        }
        if p > 0 {
            assert(d[p - 1] == s[p - 1]);
        }
        lemma_insert_label_at(d, x, p);
        assert((d.take(p).push(x) + d.skip(p)).push(s.last()) =~= s.take(p).push(x) + s.skip(p));
    }
}

/// The label rows by count, highest first (`sort_label_rows`).
fn sort_labels(v: Vec<(String, usize)>) -> (r: Vec<(String, usize)>)
    ensures
        label_views(r@) == sort_label_rows(label_views(v@)),
{
    let ghost input = label_views(v@);
    let mut rest = v;
    let n = rest.len();
    let mut out: Vec<(String, usize)> = Vec::new();
    let mut i: usize = 0;
    while rest.len() > 0
        invariant
            input.len() == n,
            i + rest@.len() == n,
            label_views(rest@) == input.skip(i as int),
            label_views(out@) == sort_label_rows(input.take(i as int)),
        decreases rest.len(),
    {
        let ghost before = rest@;
        let x = rest.remove(0);
        proof {
            assert(x == before[0]);
            assert(label_views(before)[0] == input.skip(i as int)[0]);
            assert((x.0@, x.1 as nat) == input[i as int]);
            assert forall|k: int| 0 <= k < rest@.len() implies label_views(rest@)[k] == input.skip(i + 1)[k] by {
                assert(rest@[k] == before[k + 1]);
                assert(label_views(before)[k + 1] == input.skip(i as int)[k + 1]);
            }
            assert(label_views(rest@) =~= input.skip(i + 1));
        }
        let mut p: usize = out.len();
        while p > 0 && out[p - 1].1 < x.1
            invariant
                p <= out@.len(),
                forall|k: int| p <= k < out@.len() ==> (#[trigger] out@[k]).1 < x.1,
            decreases p,
        {
            p = p - 1;
        }
        let ghost ov = label_views(out@);
        proof {
            assert forall|k: int| p <= k < ov.len() implies (#[trigger] ov[k]).1 < x.1 by {
                assert(ov[k] == (out@[k].0@, out@[k].1 as nat));
            }
            if p > 0 {
                assert(ov[p - 1] == (out@[p - 1].0@, out@[p - 1].1 as nat));
            }
            lemma_insert_label_at(ov, (x.0@, x.1 as nat), p as int);
            assert(input.take(i + 1).drop_last() =~= input.take(i as int));
        }
        out.insert(p, x);
        proof {
            assert(label_views(out@) =~= ov.take(p as int).push(input[i as int]) + ov.skip(p as int));
        }
        i = i + 1;
    }
    proof {
        assert(input.take(i as int) =~= input);
    }
    out
}

/// The probe labels and content tokens a local `SHOW RELATIONS` lists.
#[derive(Debug, Clone)]
pub struct RelationSummary {
    pub probes: Vec<(String, usize)>,
    pub total_labels: usize,
    pub tokens: Vec<RelationToken>,
}

/// The probe rows it lists: none in raw mode; else the labels by count,
/// highest first, thirty of them in brief mode.
pub open spec fn probe_rows(labels: Seq<Seq<char>>, mode: DescribeMode) -> Seq<LabelView> {
    if mode == DescribeMode::Raw {
        Seq::empty()
    } else {
        let all = sort_label_rows(label_rows(labels));
        if mode == DescribeMode::Brief {
            first_n(all, 30)
        } else {
            all
        }
    }
}

/// Whether it lists the tokens: in raw and verbose mode, or when there is
/// no probe label.
pub open spec fn shows_tokens(labels: Seq<Seq<char>>, mode: DescribeMode) -> bool {
    mode == DescribeMode::Raw || mode == DescribeMode::Verbose || labels.len() == 0
}

/// The token rows it lists: the tokens by count, highest first, fifty in
/// verbose mode and thirty otherwise; none when it does not list tokens.
pub open spec fn listed_tokens(metas: Seq<RelationMeta>, labels: Seq<Seq<char>>, mode: DescribeMode) -> Seq<TokenView> {
    if shows_tokens(labels, mode) {
        first_n(sort_token_rows(token_rows(metas)), if mode == DescribeMode::Verbose { 50 } else { 30 })
    } else {
        Seq::empty()
    }
}

proof fn lemma_label_rows_nonempty(labels: Seq<Seq<char>>)
    ensures
        (label_rows(labels).len() == 0) == (labels.len() == 0),
        label_rows(labels).len() <= labels.len(),
    decreases labels.len(),
{
    if labels.len() > 0 {
        lemma_label_rows_nonempty(labels.drop_last());
        lemma_label_index(label_rows(labels.drop_last()), labels.last());
    }
}

proof fn lemma_sort_label_len(s: Seq<LabelView>)
    ensures
        sort_label_rows(s).len() == s.len(),
    decreases s.len(),
{
    if s.len() > 0 {
        lemma_sort_label_len(s.drop_last());
        lemma_insert_label_len(sort_label_rows(s.drop_last()), s.last());
    }
}

proof fn lemma_insert_label_len(s: Seq<LabelView>, x: LabelView)
    ensures
        insert_label_row(s, x).len() == s.len() + 1,
    decreases s.len(),
{
    if s.len() > 0 && s.last().1 < x.1 {
        lemma_insert_label_len(s.drop_last(), x);
    }
}

fn first_tokens(v: Vec<RelationToken>, n: usize) -> (r: Vec<RelationToken>)
    ensures
        token_views(r@) == first_n(token_views(v@), n as nat),
{
    let ghost orig = v@;
    let mut v = v;
    if n < v.len() {
        v.truncate(n);
    }
    assert(token_views(v@) =~= first_n(token_views(orig), n as nat));
    v
}

/// What a local `SHOW RELATIONS` in `mode` lists of the scanned features
/// `metas` and the probe labels `labels` found on them: the probe rows,
/// how many labels there are, and the token rows.
pub fn relation_summary(metas: &Vec<RelationMeta>, labels: &Vec<String>, mode: DescribeMode) -> (r: RelationSummary)
    ensures
        label_views(r.probes@) == probe_rows(string_views(labels@), mode),
        r.total_labels == (if mode == DescribeMode::Raw { 0 } else { labels@.len() }),
        token_views(r.tokens@) == listed_tokens(metas@, string_views(labels@), mode),
{
    let raw = match mode {
        DescribeMode::Raw => true,
        _ => false,
    };
    let brief = match mode {
        DescribeMode::Brief => true,
        _ => false,
    };
    let verbose = match mode {
        DescribeMode::Verbose => true,
        _ => false,
    };
    let probes = if raw {
        Vec::new()
    } else {
        let counted = count_labels(labels);
        proof {
            lemma_label_rows_nonempty(string_views(labels@));
        }
        let sorted = sort_labels(counted);
        if brief && sorted.len() > 30 {
            let ghost orig = sorted@;
            let mut t = sorted;
            t.truncate(30);
            assert(label_views(t@) =~= first_n(label_views(orig), 30));
            t
        } else {
            proof {
                if brief {
                    assert(label_views(sorted@).take(label_views(sorted@).len() as int) =~= label_views(sorted@));
                }
            }
            sorted
        }
    };
    let show = raw || verbose || labels.len() == 0;
    let tokens = if show {
        let rows = count_relation_tokens(metas);
        let sorted = sort_relation_tokens(rows);
        first_tokens(sorted, if verbose { 50 } else { 30 })
    } else {
        Vec::new()
    };
    proof {
        assert(string_views(labels@).len() == labels@.len());
    }
    RelationSummary { probes, total_labels: if raw { 0 } else { labels.len() }, tokens }
}

/// The line of a token row, with its best score written with two
/// decimals.
pub open spec fn token_line(t: TokenView, score: Seq<char>, with_examples: bool) -> Seq<char> {
    pad_right(t.1, 25) + " "@ + pad_left(decimal(t.2), 8) + " "@ + pad_left(score, 8) + " "@ + pad_left(
        decimal(t.4),
        5,
    ) + "-"@ + decimal(t.5) + if with_examples && t.6.len() > 0 {
        "  e.g. "@ + join(t.6, ", "@)
    } else {
        Seq::empty()
    }
}

/// The layers the listing names: the one asked for, else 14 to 27.
pub open spec fn layer_label(layer: Option<u32>) -> Seq<char> {
    match layer {
        Some(l) => "L"@ + decimal(l as nat),
        None => "L14-27"@,
    }
}

/// What a local `SHOW RELATIONS` prints: the probe section when there are
/// probe labels, the token section (after a blank line when both show)
/// when there are tokens, and `(no relations found)` when neither.
pub open spec fn relations_local_lines(
    probes: Seq<LabelView>,
    total: nat,
    tokens: Seq<TokenView>,
    scores: Seq<Seq<char>>,
    with_examples: bool,
    layer: Option<u32>,
) -> Seq<Seq<char>> {
    let p = if probes.len() > 0 {
        seq![
            "Probe-confirmed relations ("@ + decimal(total) + " labels):"@,
            pad_right("Relation"@, 25) + " "@ + pad_left("Features"@, 8),
            dashes(35),
        ] + probes.map_values(|r: LabelView| pad_right(r.0, 25) + " "@ + pad_left(decimal(r.1), 8))
    } else {
        Seq::empty()
    };
    let t = if tokens.len() > 0 {
        (if probes.len() > 0 {
            seq![Seq::<char>::empty()]
        } else {
            Seq::empty()
        }) + seq![
            "Top output tokens ("@ + layer_label(layer) + "):"@,
            pad_right("Token"@, 25) + " "@ + pad_left("Count"@, 8) + " "@ + pad_left("Score"@, 8) + " "@
                + pad_left("Layers"@, 10),
            dashes(55),
        ] + Seq::new(tokens.len(), |i: int| token_line(tokens[i], scores[i], with_examples))
    } else {
        Seq::empty()
    };
    if p.len() + t.len() == 0 {
        seq!["  (no relations found)"@]
    } else {
        p + t
    }
}

fn decimal_string(n: u64) -> (r: String)
    ensures
        r@ == decimal(n as nat),
{
    crate::text::string_from_chars(crate::text::u64_decimal(n).as_slice())
}

fn push_line(out: &mut Vec<String>, line: String)
    ensures
        string_views(final(out)@) == string_views(old(out)@).push(line@),
{
    let ghost prev = out@;
    let ghost l = line@;
    out.push(line);
    assert(string_views(out@) =~= string_views(prev).push(l));
}

fn token_line_exec(t: &RelationToken, score: &str, with_examples: bool) -> (r: String)
    ensures
        r@ == token_line(token_view(*t), score@, with_examples),
{
    let mut out = String::new();
    crate::token_summary::append_pad_right(&mut out, t.original.as_str(), 25);
    out.append(" ");
    let c = decimal_string(t.count as u64);
    crate::token_summary::append_pad_left(&mut out, c.as_str(), 8);
    out.append(" ");
    crate::token_summary::append_pad_left(&mut out, score, 8);
    out.append(" ");
    let lo = decimal_string(t.min_layer as u64);
    crate::token_summary::append_pad_left(&mut out, lo.as_str(), 5);
    out.append("-");
    let hi = decimal_string(t.max_layer as u64);
    out.append(hi.as_str());
    if with_examples && t.examples.len() > 0 {
        out.append("  e.g. ");
        let j = crate::token_summary::join_strings(&t.examples, ", ");
        out.append(j.as_str());
    }
    out
}

/// The lines of a local `SHOW RELATIONS` (`relations_local_lines`), with
/// `score_texts` the best score of each token row written with two
/// decimals, in the order of the rows.
pub fn show_relations_lines(
    summary: &RelationSummary,
    score_texts: &Vec<String>,
    with_examples: bool,
    layer: Option<u32>,
) -> (out: Vec<String>)
    requires
        score_texts@.len() == summary.tokens@.len(),
    ensures
        string_views(out@) == relations_local_lines(
            label_views(summary.probes@),
            summary.total_labels as nat,
            token_views(summary.tokens@),
            string_views(score_texts@),
            with_examples,
            layer,
        ),
{
    let ghost pv = label_views(summary.probes@);
    let ghost tv = token_views(summary.tokens@);
    let ghost sc = string_views(score_texts@);
    let mut out: Vec<String> = Vec::new();
    if summary.probes.len() > 0 {
        let mut head = owned("Probe-confirmed relations (");
        let n = decimal_string(summary.total_labels as u64);
        head.append(n.as_str());
        head.append(" labels):");
        push_line(&mut out, head);
        let mut h = String::new();
        crate::token_summary::append_pad_right(&mut h, "Relation", 25);
        h.append(" ");
        crate::token_summary::append_pad_left(&mut h, "Features", 8);
        push_line(&mut out, h);
        push_line(&mut out, crate::token_summary::dashes_exec(35));
        let ghost start = string_views(out@);
        let mut i: usize = 0;
        while i < summary.probes.len()
            invariant
                i <= summary.probes@.len(),
                pv == label_views(summary.probes@),
                string_views(out@) == start + pv.take(i as int).map_values(
                    |r: LabelView| pad_right(r.0, 25) + " "@ + pad_left(decimal(r.1), 8),
                ),
            decreases summary.probes.len() - i,
        {
            let mut line = String::new();
            crate::token_summary::append_pad_right(&mut line, summary.probes[i].0.as_str(), 25);
            line.append(" ");
            let c = decimal_string(summary.probes[i].1 as u64);
            crate::token_summary::append_pad_left(&mut line, c.as_str(), 8);
            push_line(&mut out, line);
            proof {
                assert(pv.take(i + 1) =~= pv.take(i as int).push(pv[i as int]));
                assert(pv.take(i + 1).map_values(|r: LabelView| pad_right(r.0, 25) + " "@ + pad_left(decimal(r.1), 8))
                    =~= pv.take(i as int).map_values(|r: LabelView| pad_right(r.0, 25) + " "@ + pad_left(decimal(r.1), 8)).push(
                    pad_right(pv[i as int].0, 25) + " "@ + pad_left(decimal(pv[i as int].1), 8),
                ));
            }
            i = i + 1;
        }
        proof {
            assert(pv.take(pv.len() as int) =~= pv);
        }
    }
    let ghost s1 = string_views(out@);
    let ghost pp = if pv.len() > 0 {
        seq![
            "Probe-confirmed relations ("@ + decimal(summary.total_labels as nat) + " labels):"@,
            pad_right("Relation"@, 25) + " "@ + pad_left("Features"@, 8),
            dashes(35),
        ] + pv.map_values(|r: LabelView| pad_right(r.0, 25) + " "@ + pad_left(decimal(r.1), 8))
    } else {
        Seq::empty()
    };
    assert(s1 =~= pp);
    let ghost tt = if tv.len() > 0 {
        (if pv.len() > 0 {
            seq![Seq::<char>::empty()]
        } else {
            Seq::empty()
        }) + seq![
            "Top output tokens ("@ + layer_label(layer) + "):"@,
            pad_right("Token"@, 25) + " "@ + pad_left("Count"@, 8) + " "@ + pad_left("Score"@, 8) + " "@
                + pad_left("Layers"@, 10),
            dashes(55),
        ] + Seq::new(tv.len(), |i: int| token_line(tv[i], sc[i], with_examples))
    } else {
        Seq::empty()
    };
    if summary.tokens.len() > 0 {
        if summary.probes.len() > 0 {
            push_line(&mut out, String::new());
        }
        let mut head = owned("Top output tokens (");
        match layer {
            Some(l) => {
                head.append("L");
                let d = decimal_string(l as u64);
                head.append(d.as_str());
            },
            None => head.append("L14-27"),
        }
        head.append("):");
        assert(head@ == "Top output tokens ("@ + layer_label(layer) + "):"@);
        push_line(&mut out, head);
        let mut h = String::new();
        crate::token_summary::append_pad_right(&mut h, "Token", 25);
        h.append(" ");
        crate::token_summary::append_pad_left(&mut h, "Count", 8);
        h.append(" ");
        crate::token_summary::append_pad_left(&mut h, "Score", 8);
        h.append(" ");
        crate::token_summary::append_pad_left(&mut h, "Layers", 10);
        push_line(&mut out, h);
        push_line(&mut out, crate::token_summary::dashes_exec(55));
        let ghost start = string_views(out@);
        let mut i: usize = 0;
        while i < summary.tokens.len()
            invariant
                i <= summary.tokens@.len(),
                tv == token_views(summary.tokens@),
                sc == string_views(score_texts@),
                score_texts@.len() == summary.tokens@.len(),
                string_views(out@) == start + Seq::new(i as nat, |k: int| token_line(tv[k], sc[k], with_examples)),
            decreases summary.tokens.len() - i,
        {
            let line = token_line_exec(&summary.tokens[i], score_texts[i].as_str(), with_examples);
            push_line(&mut out, line);
            proof {
                assert(string_views(out@) =~= start + Seq::new((i + 1) as nat, |k: int| token_line(tv[k], sc[k], with_examples)));
            }
            i = i + 1;
        }
        assert(string_views(out@) =~= s1 + tt);
    }
    assert(string_views(out@) =~= pp + tt);
    if out.len() == 0 {
        push_line(&mut out, owned("  (no relations found)"));
    }
    proof {
        assert(string_views(out@) =~= relations_local_lines(pv, summary.total_labels as nat, tv, sc, with_examples, layer));
    }
    out
}

} // verus!

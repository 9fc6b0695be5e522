//! Why a remote `SHOW TOKENS` prints what a local one prints: the server
//! hands the tokens over in the order of the verbose listing, and the
//! summary does not depend on the order the tokens come in (as long as no
//! group has more than four examples to choose from, and no score is NaN).

use vstd::prelude::*;
use crate::policy::{lemma_sort_strs, lex_le, sort_strs, strs_sorted};
use crate::lql::TokenSortBy;
use crate::token_summary::{
    export_view, group_distinct, group_entity_like, group_examples, group_hits, group_key,
    group_max_key, group_row, groups_in, in_group, insert_row, is_nan_bits, lemma_groups_unique,
    lemma_sort_rows, row_le, row_rank, rows_sorted, score_key, sort_rows, table_rows, zero_key,
    RowView, TokenHit, class_line, class_table, insert_token, lemma_sort_tokens, limited,
    shape_line, shape_table, sort_tokens, summary_lines, token_le, token_table, tokens_sorted,
    export_rows,
};

verus! {

// ───────────────────────── sums and maxima over tokens ─────────────────────────

/// The sum of `f` over the tokens.
pub open spec fn sum_by(s: Seq<(String, TokenHit)>, f: spec_fn((String, TokenHit)) -> nat) -> nat
    decreases s.len(),
{
    if s.len() == 0 {
        0
    } else {
        sum_by(s.drop_last(), f) + f(s.last())
    }
}

/// The largest of `base` and `f` over the tokens.
pub open spec fn max_by(s: Seq<(String, TokenHit)>, f: spec_fn((String, TokenHit)) -> int, base: int) -> int
    decreases s.len(),
{
    if s.len() == 0 {
        base
    } else {
        let m = max_by(s.drop_last(), f, base);
        if f(s.last()) > m {
            f(s.last())
        } else {
            m
        }
    }
}

/// Splits a permutation: the last token of `s` stands somewhere in `t`, and
/// the rest of `s` is a permutation of the rest of `t`.
proof fn lemma_perm_split<A>(s: Seq<A>, t: Seq<A>) -> (i: int)
    requires
        s.len() > 0,
        s.to_multiset() == t.to_multiset(),
    ensures
        0 <= i < t.len(),
        t[i] == s.last(),
        s.drop_last().to_multiset() == t.remove(i).to_multiset(),
{
    broadcast use vstd::seq_lib::group_to_multiset_ensures;
    broadcast use vstd::multiset::group_multiset_axioms;

    let x = s.last();
    assert(s == s.drop_last().push(x));
    assert(s.to_multiset() == s.drop_last().to_multiset().insert(x));
    assert(t.to_multiset().count(x) > 0);
    assert(t.contains(x));
    let i = choose|i: int| 0 <= i < t.len() && t[i] == x;
    assert(t.remove(i).to_multiset() == t.to_multiset().remove(x));
    assert(s.drop_last().to_multiset() =~= s.to_multiset().remove(x));
    i
}

proof fn lemma_sum_by_remove(s: Seq<(String, TokenHit)>, f: spec_fn((String, TokenHit)) -> nat, i: int)
    requires
        0 <= i < s.len(),
    ensures
        sum_by(s, f) == sum_by(s.remove(i), f) + f(s[i]),
    decreases s.len(),
{
    if i < s.len() - 1 {
        lemma_sum_by_remove(s.drop_last(), f, i);
        assert(s.remove(i).drop_last() == s.drop_last().remove(i));
        assert(s.remove(i).last() == s.last());
    } else {
        assert(s.remove(i) == s.drop_last());
    }
}

/// A sum over the tokens does not depend on their order.
pub proof fn lemma_sum_by_perm(
    s: Seq<(String, TokenHit)>,
    t: Seq<(String, TokenHit)>,
    f: spec_fn((String, TokenHit)) -> nat,
)
    requires
        s.to_multiset() == t.to_multiset(),
    ensures
        sum_by(s, f) == sum_by(t, f),
    decreases s.len(),
{
    broadcast use vstd::seq_lib::group_to_multiset_ensures;

    if s.len() == 0 {
        assert(t.to_multiset().len() == 0);
    } else {
        let i = lemma_perm_split(s, t);
        lemma_sum_by_perm(s.drop_last(), t.remove(i), f);
        lemma_sum_by_remove(t, f, i);
    }
}

proof fn lemma_max_by_base(s: Seq<(String, TokenHit)>, f: spec_fn((String, TokenHit)) -> int, base: int)
    ensures
        max_by(s, f, base) >= base,
    decreases s.len(),
{
    if s.len() > 0 {
        lemma_max_by_base(s.drop_last(), f, base);
    }
}

proof fn lemma_max_by_remove(
    s: Seq<(String, TokenHit)>,
    f: spec_fn((String, TokenHit)) -> int,
    base: int,
    i: int,
)
    requires
        0 <= i < s.len(),
    ensures
        max_by(s, f, base) == if f(s[i]) > max_by(s.remove(i), f, base) {
            f(s[i])
        } else {
            max_by(s.remove(i), f, base)
        },
    decreases s.len(),
{
    if i < s.len() - 1 {
        lemma_max_by_remove(s.drop_last(), f, base, i);
        assert(s.remove(i).drop_last() == s.drop_last().remove(i));
        assert(s.remove(i).last() == s.last());
    } else {
        assert(s.remove(i) == s.drop_last());
    }
}

/// A maximum over the tokens does not depend on their order.
pub proof fn lemma_max_by_perm(
    s: Seq<(String, TokenHit)>,
    t: Seq<(String, TokenHit)>,
    f: spec_fn((String, TokenHit)) -> int,
    base: int,
)
    requires
        s.to_multiset() == t.to_multiset(),
    ensures
        max_by(s, f, base) == max_by(t, f, base),
    decreases s.len(),
{
    broadcast use vstd::seq_lib::group_to_multiset_ensures;

    if s.len() == 0 {
        assert(t.to_multiset().len() == 0);
    } else {
        let i = lemma_perm_split(s, t);
        lemma_max_by_perm(s.drop_last(), t.remove(i), f, base);
        lemma_max_by_remove(t, f, base, i);
    }
}

// ───────────────────────── the groups' counts ─────────────────────────

/// One for a token of group `g`.
pub open spec fn member_count(by_kind: bool, g: Seq<char>) -> spec_fn((String, TokenHit)) -> nat {
    |e: (String, TokenHit)| if in_group(e, by_kind, g) {
        1nat
    } else {
        0nat
    }
}

/// The features of a token of group `g`.
pub open spec fn member_hits(by_kind: bool, g: Seq<char>) -> spec_fn((String, TokenHit)) -> nat {
    |e: (String, TokenHit)| if in_group(e, by_kind, g) {
        e.1.hits as nat
    } else {
        0nat
    }
}

/// One for a token of group `g` that names an entity.
pub open spec fn member_entity(by_kind: bool, g: Seq<char>) -> spec_fn((String, TokenHit)) -> nat {
    |e: (String, TokenHit)| if in_group(e, by_kind, g) && e.1.kind is Some {
        1nat
    } else {
        0nat
    }
}

/// The score key of a token of group `g` (of `0.0` for others and NaN).
pub open spec fn member_key(by_kind: bool, g: Seq<char>) -> spec_fn((String, TokenHit)) -> int {
    |e: (String, TokenHit)| if in_group(e, by_kind, g) && !is_nan_bits(e.1.max_score) {
        score_key(e.1.max_score)
    } else {
        zero_key()
    }
}

proof fn lemma_group_counts_are_sums(s: Seq<(String, TokenHit)>, by_kind: bool, g: Seq<char>)
    ensures
        group_distinct(s, by_kind, g) == sum_by(s, member_count(by_kind, g)),
        group_hits(s, by_kind, g) == sum_by(s, member_hits(by_kind, g)),
        group_entity_like(s, by_kind, g) == sum_by(s, member_entity(by_kind, g)),
        group_max_key(s, by_kind, g) == max_by(s, member_key(by_kind, g), zero_key()),
    decreases s.len(),
{
    if s.len() > 0 {
        lemma_group_counts_are_sums(s.drop_last(), by_kind, g);
        lemma_max_by_base(s.drop_last(), member_key(by_kind, g), zero_key());
    }
}

/// The non-empty tokens of group `g`, in order.
pub open spec fn group_nonempty(s: Seq<(String, TokenHit)>, by_kind: bool, g: Seq<char>) -> Seq<
    Seq<char>,
>
    decreases s.len(),
{
    if s.len() == 0 {
        Seq::empty()
    } else {
        let p = group_nonempty(s.drop_last(), by_kind, g);
        if in_group(s.last(), by_kind, g) && s.last().0@.len() > 0 {
            p.push(s.last().0@)
        } else {
            p
        }
    }
}

proof fn lemma_examples_are_all_when_few(s: Seq<(String, TokenHit)>, by_kind: bool, g: Seq<char>)
    requires
        group_nonempty(s, by_kind, g).len() <= 4,
    ensures
        group_examples(s, by_kind, g) == group_nonempty(s, by_kind, g),
    decreases s.len(),
{
    if s.len() > 0 {
        let p = s.drop_last();
        assert(group_nonempty(p, by_kind, g).len() <= group_nonempty(s, by_kind, g).len());
        lemma_examples_are_all_when_few(p, by_kind, g);
    }
}

proof fn lemma_nonempty_remove(s: Seq<(String, TokenHit)>, by_kind: bool, g: Seq<char>, i: int)
    requires
        0 <= i < s.len(),
    ensures
        group_nonempty(s, by_kind, g).to_multiset() == if in_group(s[i], by_kind, g) && s[i].0@.len()
            > 0 {
            group_nonempty(s.remove(i), by_kind, g).to_multiset().insert(s[i].0@)
        } else {
            group_nonempty(s.remove(i), by_kind, g).to_multiset()
        },
    decreases s.len(),
{
    broadcast use vstd::seq_lib::group_to_multiset_ensures;
    broadcast use vstd::multiset::group_multiset_axioms;

    if i < s.len() - 1 {
        lemma_nonempty_remove(s.drop_last(), by_kind, g, i);
        assert(s.remove(i).drop_last() == s.drop_last().remove(i));
        assert(s.remove(i).last() == s.last());
        assert(s.drop_last()[i] == s[i]);
        let a = group_nonempty(s.drop_last().remove(i), by_kind, g).to_multiset();
        let x = s[i].0@;
        let y = s.last().0@;
        assert(a.insert(x).insert(y) =~= a.insert(y).insert(x));
    } else {
        assert(s.remove(i) == s.drop_last());
    }
}

/// The non-empty tokens of a group are the same, whatever their order.
proof fn lemma_nonempty_perm(
    s: Seq<(String, TokenHit)>,
    t: Seq<(String, TokenHit)>,
    by_kind: bool,
    g: Seq<char>,
)
    requires
        s.to_multiset() == t.to_multiset(),
    ensures
        group_nonempty(s, by_kind, g).to_multiset() == group_nonempty(t, by_kind, g).to_multiset(),
    decreases s.len(),
{
    broadcast use vstd::seq_lib::group_to_multiset_ensures;

    if s.len() == 0 {
        assert(t.to_multiset().len() == 0);
        assert(t.len() == 0);
    } else {
        let i = lemma_perm_split(s, t);
        lemma_nonempty_perm(s.drop_last(), t.remove(i), by_kind, g);
        lemma_nonempty_remove(t, by_kind, g, i);
    }
}

/// Group `g` is among the groups exactly when some token falls in it.
proof fn lemma_groups_in_contains(s: Seq<(String, TokenHit)>, by_kind: bool, g: Seq<char>)
    ensures
        groups_in(s, by_kind).contains(g) <==> exists|j: int|
            0 <= j < s.len() && group_key(#[trigger] s[j], by_kind) == Some(g),
    decreases s.len(),
{
    if s.len() > 0 {
        let p = s.drop_last();
        let d = groups_in(p, by_kind);
        lemma_groups_in_contains(p, by_kind, g);
        if groups_in(s, by_kind).contains(g) {
            if d.contains(g) {
                let j = choose|j: int| 0 <= j < p.len() && group_key(p[j], by_kind) == Some(g);
                assert(s[j] == p[j]);
            } else {
                assert(group_key(s.last(), by_kind) == Some(g)) by {
                    match group_key(s.last(), by_kind) {
                        Some(h) => {
                            if h != g {
                                assert(groups_in(s, by_kind) == d || groups_in(s, by_kind) == d.push(h));
                                if groups_in(s, by_kind) == d.push(h) {
                                    let q = choose|q: int| 0 <= q < d.push(h).len() && d.push(h)[q] == g;
                                    if q < d.len() {
                                        assert(d[q] == g);
                                    }
                                }
                            }
                        },
                        None => {},
                    }
                }
                assert(s[s.len() - 1] == s.last());
            }
        }
        if exists|j: int| 0 <= j < s.len() && group_key(#[trigger] s[j], by_kind) == Some(g) {
            let j = choose|j: int| 0 <= j < s.len() && group_key(s[j], by_kind) == Some(g);
            if j < s.len() - 1 {
                assert(p[j] == s[j]);
                assert(d.contains(g));
                match group_key(s.last(), by_kind) {
                    Some(h) => {
                        if !d.contains(h) {
                            let q = choose|q: int| 0 <= q < d.len() && d[q] == g;
                            assert(d.push(h)[q] == g);
                        }
                    },
                    None => {},
                }
            } else {
                assert(s[j] == s.last());
                if !d.contains(g) {
                    assert(d.push(g)[d.len() as int] == g);
                }
            }
        }
    }
}

// ───────────────────────── sorted orders are unique ─────────────────────────

/// Strings each sorting before or equal to the other are equal.
pub proof fn lemma_lex_antisym(a: Seq<char>, b: Seq<char>)
    requires
        lex_le(a, b),
        lex_le(b, a),
    ensures
        a == b,
    decreases a.len(),
{
    if a.len() > 0 && b.len() > 0 {
        lemma_lex_antisym(a.drop_first(), b.drop_first());
        assert(a == seq![a[0]] + a.drop_first());
        assert(b == seq![b[0]] + b.drop_first());
    } else {
        assert(a.len() == 0 && b.len() == 0);
        assert(a =~= b);
    }
}

/// Two sorted lists of the same strings are the same list.
proof fn lemma_sorted_strs_unique(x: Seq<Seq<char>>, y: Seq<Seq<char>>)
    requires
        strs_sorted(x),
        strs_sorted(y),
        x.to_multiset() == y.to_multiset(),
    ensures
        x == y,
    decreases x.len(),
{
    broadcast use vstd::seq_lib::group_to_multiset_ensures;
    broadcast use vstd::multiset::group_multiset_axioms;

    if x.len() == 0 {
        vstd::seq_lib::to_multiset_len(x);
        vstd::seq_lib::to_multiset_len(y);
        assert(y.len() == 0);
        assert(x =~= y);
    } else {
        vstd::seq_lib::to_multiset_len(x);
        vstd::seq_lib::to_multiset_len(y);
        assert(y.len() == x.len());
        let a = x[0];
        let b = y[0];
        assert(x.to_multiset().count(b) > 0);
        let j = choose|j: int| 0 <= j < x.len() && x[j] == b;
        if j > 0 {
            assert(lex_le(x[0], x[j]));
        } else {
            crate::policy::lemma_lex_refl(a);
        }
        assert(y.to_multiset().count(a) > 0);
        let k = choose|k: int| 0 <= k < y.len() && y[k] == a;
        if k > 0 {
            assert(lex_le(y[0], y[k]));
        } else {
            crate::policy::lemma_lex_refl(b);
        }
        lemma_lex_antisym(a, b);
        let xr = x.drop_first();
        let yr = y.drop_first();
        assert(x.remove(0) == xr);
        assert(y.remove(0) == yr);
        assert(xr.to_multiset() == yr.to_multiset());
        assert forall|p: int, q: int| 0 <= p < q < xr.len() implies lex_le(
            #[trigger] xr[p],
            #[trigger] xr[q],
        ) by {
            assert(xr[p] == x[p + 1] && xr[q] == x[q + 1]);
        }
        assert forall|p: int, q: int| 0 <= p < q < yr.len() implies lex_le(
            #[trigger] yr[p],
            #[trigger] yr[q],
        ) by {
            assert(yr[p] == y[p + 1] && yr[q] == y[q + 1]);
        }
        lemma_sorted_strs_unique(xr, yr);
        assert(x == seq![a] + xr);
        assert(y == seq![b] + yr);
    }
}

/// Sorting the same strings, in whatever order, gives the same list; and
/// sorting sorted strings changes nothing.
pub proof fn lemma_sort_strs_perm(a: Seq<Seq<char>>, b: Seq<Seq<char>>)
    requires
        a.to_multiset() == b.to_multiset(),
    ensures
        sort_strs(a) == sort_strs(b),
        sort_strs(sort_strs(a)) == sort_strs(a),
{
    lemma_sort_strs(a);
    lemma_sort_strs(b);
    lemma_sorted_strs_unique(sort_strs(a), sort_strs(b));
    lemma_sort_strs(sort_strs(a));
    lemma_sorted_strs_unique(sort_strs(sort_strs(a)), sort_strs(a));
}

// ───────────────────────── rows in table order are unique ─────────────────────────

/// Rows each of which may come before the other have the same name.
proof fn lemma_row_le_names(a: RowView, b: RowView, order: Option<TokenSortBy>, classes: bool)
    requires
        row_le(a, b, order, classes),
        row_le(b, a, order, classes),
    ensures
        a.0 == b.0,
{
    lemma_lex_antisym(a.0, b.0);
}

/// Rows that share a name are the same row.
pub open spec fn names_identify(x: Seq<RowView>) -> bool {
    forall|i: int, j: int|
        0 <= i < x.len() && 0 <= j < x.len() && (#[trigger] x[i]).0 == (#[trigger] x[j]).0 ==> x[i]
            == x[j]
}

/// Two tables in table order with the same rows, where a name identifies a
/// row, are the same table.
proof fn lemma_sorted_rows_unique(
    x: Seq<RowView>,
    y: Seq<RowView>,
    order: Option<TokenSortBy>,
    classes: bool,
)
    requires
        rows_sorted(x, order, classes),
        rows_sorted(y, order, classes),
        x.to_multiset() == y.to_multiset(),
        names_identify(x),
    ensures
        x == y,
    decreases x.len(),
{
    broadcast use vstd::seq_lib::group_to_multiset_ensures;
    broadcast use vstd::multiset::group_multiset_axioms;

    vstd::seq_lib::to_multiset_len(x);
    vstd::seq_lib::to_multiset_len(y);
    if x.len() == 0 {
        assert(x =~= y);
    } else {
        let a = x[0];
        let b = y[0];
        assert(x.to_multiset().count(b) > 0);
        let j = choose|j: int| 0 <= j < x.len() && x[j] == b;
        assert(y.to_multiset().count(a) > 0);
        let k = choose|k: int| 0 <= k < y.len() && y[k] == a;
        if j > 0 && k > 0 {
            assert(row_le(x[0], x[j], order, classes));
            assert(row_le(y[0], y[k], order, classes));
            lemma_row_le_names(a, b, order, classes);
            assert(x[0].0 == x[j].0);
        }
        assert(a == b);
        let xr = x.drop_first();
        let yr = y.drop_first();
        assert(x.remove(0) == xr);
        assert(y.remove(0) == yr);
        assert(xr.to_multiset() == yr.to_multiset());
        assert forall|p: int, q: int| 0 <= p < q < xr.len() implies row_le(
            #[trigger] xr[p],
            #[trigger] xr[q],
            order,
            classes,
        ) by {
            assert(xr[p] == x[p + 1] && xr[q] == x[q + 1]);
        }
        assert forall|p: int, q: int| 0 <= p < q < yr.len() implies row_le(
            #[trigger] yr[p],
            #[trigger] yr[q],
            order,
            classes,
        ) by {
            assert(yr[p] == y[p + 1] && yr[q] == y[q + 1]);
        }
        assert forall|p: int, q: int|
            0 <= p < xr.len() && 0 <= q < xr.len() && (#[trigger] xr[p]).0 == (
            #[trigger] xr[q]).0 implies xr[p] == xr[q] by {
            assert(xr[p] == x[p + 1] && xr[q] == x[q + 1]);
        }
        lemma_sorted_rows_unique(xr, yr, order, classes);
        assert(x == seq![a] + xr);
        assert(y == seq![b] + yr);
    }
}

/// A row with its examples in order.
pub open spec fn canon_rows(s: Seq<RowView>) -> Seq<RowView> {
    s.map_values(|v: RowView| export_view(v))
}

proof fn lemma_insert_row_canon(s: Seq<RowView>, x: RowView, order: Option<TokenSortBy>, classes: bool)
    ensures
        insert_row(canon_rows(s), export_view(x), order, classes) == canon_rows(
            insert_row(s, x, order, classes),
        ),
    decreases s.len(),
{
    if s.len() > 0 {
        let cs = canon_rows(s);
        assert(cs[0] == export_view(s[0]));
        assert(row_rank(export_view(s[0]), order, classes) == row_rank(s[0], order, classes));
        assert(row_rank(export_view(x), order, classes) == row_rank(x, order, classes));
        assert(cs.drop_first() =~= canon_rows(s.drop_first()));
        lemma_insert_row_canon(s.drop_first(), x, order, classes);
        if !row_le(s[0], x, order, classes) {
            assert(canon_rows(seq![x] + s) =~= seq![export_view(x)] + cs);
        } else {
            assert(canon_rows(seq![s[0]] + insert_row(s.drop_first(), x, order, classes)) =~= seq![
                export_view(s[0]),
            ] + canon_rows(insert_row(s.drop_first(), x, order, classes)));
        }
    } else {
        assert(canon_rows(seq![x]) =~= seq![export_view(x)]);
    }
}

/// Putting the examples of each row in order and ordering the rows can be
/// done in either order.
proof fn lemma_sort_rows_canon(s: Seq<RowView>, order: Option<TokenSortBy>, classes: bool)
    ensures
        sort_rows(canon_rows(s), order, classes) == canon_rows(sort_rows(s, order, classes)),
    decreases s.len(),
{
    if s.len() == 0 {
        assert(canon_rows(s) =~= Seq::<RowView>::empty());
        assert(canon_rows(Seq::<RowView>::empty()) =~= Seq::<RowView>::empty());
    } else {
        let cs = canon_rows(s);
        assert(cs.drop_last() =~= canon_rows(s.drop_last()));
        assert(cs.last() == export_view(s.last()));
        lemma_sort_rows_canon(s.drop_last(), order, classes);
        lemma_insert_row_canon(sort_rows(s.drop_last(), order, classes), s.last(), order, classes);
    }
}

// ───────────────────────── the same groups, whatever the order ─────────────────────────

/// Mapping the same elements gives the same elements.
proof fn lemma_map_perm<A, B>(x: Seq<A>, y: Seq<A>, f: spec_fn(A) -> B)
    requires
        x.to_multiset() == y.to_multiset(),
    ensures
        x.map_values(f).to_multiset() == y.map_values(f).to_multiset(),
    decreases x.len(),
{
    broadcast use vstd::seq_lib::group_to_multiset_ensures;
    broadcast use vstd::multiset::group_multiset_axioms;

    vstd::seq_lib::to_multiset_len(x);
    vstd::seq_lib::to_multiset_len(y);
    if x.len() == 0 {
        assert(x.map_values(f) =~= y.map_values(f));
    } else {
        let i = lemma_perm_split(x, y);
        lemma_map_perm(x.drop_last(), y.remove(i), f);
        assert(x.map_values(f) =~= x.drop_last().map_values(f).push(f(x.last())));
        assert(y.map_values(f).remove(i) =~= y.remove(i).map_values(f));
        assert(y.map_values(f)[i] == f(x.last()));
        assert(y.map_values(f).to_multiset() =~= y.remove(i).map_values(f).to_multiset().insert(
            f(x.last()),
        ));
    }
}

/// Sequences without repeats and with the same elements hold the same
/// elements the same number of times.
proof fn lemma_distinct_same_multiset<A>(x: Seq<A>, y: Seq<A>)
    requires
        x.no_duplicates(),
        y.no_duplicates(),
        forall|a: A| x.contains(a) <==> y.contains(a),
    ensures
        x.to_multiset() == y.to_multiset(),
{
    broadcast use vstd::seq_lib::group_to_multiset_ensures;
    broadcast use vstd::multiset::group_multiset_axioms;

    x.lemma_multiset_has_no_duplicates();
    y.lemma_multiset_has_no_duplicates();
    assert forall|a: A| x.to_multiset().count(a) == y.to_multiset().count(a) by {
        if x.contains(a) {
            assert(y.contains(a));
        }
    }
    assert(x.to_multiset() =~= y.to_multiset());
}

/// No group has more than four non-empty tokens.
pub open spec fn few_examples(s: Seq<(String, TokenHit)>, by_kind: bool) -> bool {
    forall|g: Seq<char>| #[trigger] group_nonempty(s, by_kind, g).len() <= 4
}

/// The row of group `g` with its examples in order.
pub open spec fn canon_group(s: Seq<(String, TokenHit)>, by_kind: bool, g: Seq<char>) -> RowView {
    export_view(group_row(s, by_kind, g))
}

proof fn lemma_canon_group_perm(
    s: Seq<(String, TokenHit)>,
    t: Seq<(String, TokenHit)>,
    by_kind: bool,
    g: Seq<char>,
)
    requires
        s.to_multiset() == t.to_multiset(),
        few_examples(s, by_kind),
    ensures
        canon_group(s, by_kind, g) == canon_group(t, by_kind, g),
{
    lemma_group_counts_are_sums(s, by_kind, g);
    lemma_group_counts_are_sums(t, by_kind, g);
    lemma_sum_by_perm(s, t, member_count(by_kind, g));
    lemma_sum_by_perm(s, t, member_hits(by_kind, g));
    lemma_sum_by_perm(s, t, member_entity(by_kind, g));
    lemma_max_by_perm(s, t, member_key(by_kind, g), zero_key());
    lemma_nonempty_perm(s, t, by_kind, g);
    vstd::seq_lib::to_multiset_len(group_nonempty(s, by_kind, g));
    vstd::seq_lib::to_multiset_len(group_nonempty(t, by_kind, g));
    assert(group_nonempty(s, by_kind, g).len() <= 4);
    lemma_examples_are_all_when_few(s, by_kind, g);
    lemma_examples_are_all_when_few(t, by_kind, g);
    lemma_sort_strs_perm(group_nonempty(s, by_kind, g), group_nonempty(t, by_kind, g));
}

/// The groups' rows, each with its examples in order.
pub open spec fn canon_table(s: Seq<(String, TokenHit)>, by_kind: bool) -> Seq<RowView> {
    canon_rows(table_rows(s, by_kind))
}

proof fn lemma_canon_table_is_map(s: Seq<(String, TokenHit)>, by_kind: bool)
    ensures
        canon_table(s, by_kind) == groups_in(s, by_kind).map_values(
            |g: Seq<char>| canon_group(s, by_kind, g),
        ),
{
    assert(canon_table(s, by_kind) =~= groups_in(s, by_kind).map_values(
        |g: Seq<char>| canon_group(s, by_kind, g),
    ));
}

/// The groups' rows are the same, whatever the order of the tokens (when
/// no group has more than four examples to choose from), and a group's
/// name identifies its row.
proof fn lemma_canon_table_perm(s: Seq<(String, TokenHit)>, t: Seq<(String, TokenHit)>, by_kind: bool)
    requires
        s.to_multiset() == t.to_multiset(),
        few_examples(s, by_kind),
    ensures
        canon_table(s, by_kind).to_multiset() == canon_table(t, by_kind).to_multiset(),
        names_identify(canon_table(s, by_kind)),
{
    broadcast use vstd::seq_lib::group_to_multiset_ensures;

    let gs = groups_in(s, by_kind);
    let gt = groups_in(t, by_kind);
    lemma_groups_unique(s, by_kind);
    lemma_groups_unique(t, by_kind);
    assert(gs.no_duplicates()) by {
        assert forall|i: int, j: int| 0 <= i < gs.len() && 0 <= j < gs.len() && i != j implies gs[i]
            != gs[j] by {
            if i < j {
            } else {
            }
        }
    }
    assert(gt.no_duplicates()) by {
        assert forall|i: int, j: int| 0 <= i < gt.len() && 0 <= j < gt.len() && i != j implies gt[i]
            != gt[j] by {
            if i < j {
            } else {
            }
        }
    }
    assert forall|g: Seq<char>| gs.contains(g) <==> gt.contains(g) by {
        lemma_groups_in_contains(s, by_kind, g);
        lemma_groups_in_contains(t, by_kind, g);
        if gs.contains(g) {
            let j = choose|j: int| 0 <= j < s.len() && group_key(#[trigger] s[j], by_kind) == Some(g);
            assert(s.to_multiset().count(s[j]) > 0);
            assert(t.contains(s[j]));
            let k = choose|k: int| 0 <= k < t.len() && t[k] == s[j];
            assert(group_key(t[k], by_kind) == Some(g));
        }
        if gt.contains(g) {
            let j = choose|j: int| 0 <= j < t.len() && group_key(#[trigger] t[j], by_kind) == Some(g);
            assert(t.to_multiset().count(t[j]) > 0);
            assert(s.contains(t[j]));
            let k = choose|k: int| 0 <= k < s.len() && s[k] == t[j];
            assert(group_key(s[k], by_kind) == Some(g));
        }
    }
    lemma_distinct_same_multiset(gs, gt);
    let f = |g: Seq<char>| canon_group(s, by_kind, g);
    lemma_map_perm(gs, gt, f);
    lemma_canon_table_is_map(s, by_kind);
    lemma_canon_table_is_map(t, by_kind);
    assert(canon_table(t, by_kind) =~= gt.map_values(f)) by {
        assert forall|i: int| 0 <= i < gt.len() implies canon_group(t, by_kind, gt[i]) == canon_group(
            s,
            by_kind,
            gt[i],
        ) by {
            lemma_canon_group_perm(s, t, by_kind, gt[i]);
        }
    }
    let cs = canon_table(s, by_kind);
    assert forall|i: int, j: int|
        0 <= i < cs.len() && 0 <= j < cs.len() && (#[trigger] cs[i]).0 == (#[trigger] cs[j]).0 implies cs[i]
        == cs[j] by {
        assert(cs[i].0 == gs[i]);
        assert(cs[j].0 == gs[j]);
    }
}

/// Law: which groups (shapes, or kinds) occur, and each group's counts
/// (its distinct tokens, feature hits, entity-like tokens and best score),
/// do not depend on the order the hits come in. Only the choice of
/// examples, for a group of more than four tokens, does.
pub proof fn lemma_group_counts_order_free(
    s: Seq<(String, TokenHit)>,
    t: Seq<(String, TokenHit)>,
    by_kind: bool,
    g: Seq<char>,
)
    requires
        s.to_multiset() == t.to_multiset(),
    ensures
        groups_in(s, by_kind).contains(g) == groups_in(t, by_kind).contains(g),
        group_distinct(s, by_kind, g) == group_distinct(t, by_kind, g),
        group_hits(s, by_kind, g) == group_hits(t, by_kind, g),
        group_entity_like(s, by_kind, g) == group_entity_like(t, by_kind, g),
        group_max_key(s, by_kind, g) == group_max_key(t, by_kind, g),
{
    broadcast use vstd::seq_lib::group_to_multiset_ensures;

    lemma_group_counts_are_sums(s, by_kind, g);
    lemma_group_counts_are_sums(t, by_kind, g);
    lemma_sum_by_perm(s, t, member_count(by_kind, g));
    lemma_sum_by_perm(s, t, member_hits(by_kind, g));
    lemma_sum_by_perm(s, t, member_entity(by_kind, g));
    lemma_max_by_perm(s, t, member_key(by_kind, g), zero_key());
    lemma_groups_in_contains(s, by_kind, g);
    lemma_groups_in_contains(t, by_kind, g);
    if groups_in(s, by_kind).contains(g) {
        let j = choose|j: int| 0 <= j < s.len() && group_key(#[trigger] s[j], by_kind) == Some(g);
        assert(s.to_multiset().count(s[j]) > 0);
        assert(t.contains(s[j]));
        let k = choose|k: int| 0 <= k < t.len() && t[k] == s[j];
        assert(group_key(t[k], by_kind) == Some(g));
    }
    if groups_in(t, by_kind).contains(g) {
        let j = choose|j: int| 0 <= j < t.len() && group_key(#[trigger] t[j], by_kind) == Some(g);
        assert(t.to_multiset().count(t[j]) > 0);
        assert(s.contains(t[j]));
        let k = choose|k: int| 0 <= k < s.len() && s[k] == t[j];
        assert(group_key(s[k], by_kind) == Some(g));
    }
}

// ───────────────────────── the tables ─────────────────────────

proof fn lemma_lines_ignore_example_order(v: RowView)
    ensures
        shape_line(export_view(v)) == shape_line(v),
        class_line(export_view(v)) == class_line(v),
{
    lemma_sort_strs_perm(v.4, v.4);
}

/// The rows of a table, in table order, print the same, whatever the
/// order of the tokens.
proof fn lemma_table_lines(
    s: Seq<(String, TokenHit)>,
    t: Seq<(String, TokenHit)>,
    by_kind: bool,
    order: Option<TokenSortBy>,
    classes: bool,
)
    requires
        s.to_multiset() == t.to_multiset(),
        few_examples(s, by_kind),
    ensures
        sort_rows(table_rows(s, by_kind), order, classes).len() == sort_rows(
            table_rows(t, by_kind),
            order,
            classes,
        ).len(),
        forall|k: int|
            0 <= k < sort_rows(table_rows(s, by_kind), order, classes).len() ==> shape_line(
                #[trigger] sort_rows(table_rows(s, by_kind), order, classes)[k],
            ) == shape_line(sort_rows(table_rows(t, by_kind), order, classes)[k]) && class_line(
                sort_rows(table_rows(s, by_kind), order, classes)[k],
            ) == class_line(sort_rows(table_rows(t, by_kind), order, classes)[k]),
{
    broadcast use vstd::seq_lib::group_to_multiset_ensures;

    let a = sort_rows(table_rows(s, by_kind), order, classes);
    let b = sort_rows(table_rows(t, by_kind), order, classes);
    let cs = canon_table(s, by_kind);
    let ct = canon_table(t, by_kind);
    lemma_canon_table_perm(s, t, by_kind);
    lemma_sort_rows_canon(table_rows(s, by_kind), order, classes);
    lemma_sort_rows_canon(table_rows(t, by_kind), order, classes);
    lemma_sort_rows(cs, order, classes);
    lemma_sort_rows(ct, order, classes);
    let sa = sort_rows(cs, order, classes);
    let sb = sort_rows(ct, order, classes);
    assert(names_identify(sa)) by {
        assert forall|i: int, j: int|
            0 <= i < sa.len() && 0 <= j < sa.len() && (#[trigger] sa[i]).0 == (#[trigger] sa[j]).0 implies sa[i]
            == sa[j] by {
            assert(sa.to_multiset().count(sa[i]) > 0);
            assert(sa.to_multiset().count(sa[j]) > 0);
            assert(cs.contains(sa[i]));
            assert(cs.contains(sa[j]));
            let p = choose|p: int| 0 <= p < cs.len() && cs[p] == sa[i];
            let q = choose|q: int| 0 <= q < cs.len() && cs[q] == sa[j];
            assert(cs[p].0 == cs[q].0);
        }
    }
    lemma_sorted_rows_unique(sa, sb, order, classes);
    assert(canon_rows(a) == canon_rows(b));
    assert forall|k: int| 0 <= k < a.len() implies shape_line(#[trigger] a[k]) == shape_line(b[k])
        && class_line(a[k]) == class_line(b[k]) by {
        assert(canon_rows(a)[k] == export_view(a[k]));
        assert(canon_rows(b)[k] == export_view(b[k]));
        lemma_lines_ignore_example_order(a[k]);
        lemma_lines_ignore_example_order(b[k]);
    }
}

/// Law: the shape table and the entity-type table do not depend on the
/// order the tokens come in, as long as no shape and no entity type has
/// more than four tokens to take examples from.
pub proof fn lemma_tables_order_free(
    scope: Seq<char>,
    s: Seq<(String, TokenHit)>,
    t: Seq<(String, TokenHit)>,
    order: Option<TokenSortBy>,
    limit: Option<u32>,
)
    requires
        s.to_multiset() == t.to_multiset(),
        few_examples(s, false),
        few_examples(s, true),
    ensures
        shape_table(scope, s, order, limit) == shape_table(scope, t, order, limit),
        class_table(s) == class_table(t),
{
    vstd::seq_lib::to_multiset_len(s);
    vstd::seq_lib::to_multiset_len(t);
    lemma_table_lines(s, t, false, order, false);
    lemma_table_lines(s, t, true, None, true);
    let a = sort_rows(table_rows(s, false), order, false);
    let b = sort_rows(table_rows(t, false), order, false);
    let la = limited(a, limit);
    let lb = limited(b, limit);
    assert(la.len() == lb.len());
    assert forall|k: int| 0 <= k < la.len() implies shape_line(#[trigger] la[k]) == shape_line(lb[k]) by {
        assert(la[k] == a[k]);
        assert(lb[k] == b[k]);
    }
    assert(shape_table(scope, s, order, limit) =~= shape_table(scope, t, order, limit));
    let ca = sort_rows(table_rows(s, true), None, true);
    let cb = sort_rows(table_rows(t, true), None, true);
    assert(class_table(s) =~= class_table(t));
}

/// Law: an export does not depend on the order the tokens come in, as
/// long as no shape has more than four tokens to take examples from.
pub proof fn lemma_export_order_free(
    s: Seq<(String, TokenHit)>,
    t: Seq<(String, TokenHit)>,
    order: Option<TokenSortBy>,
    limit: Option<u32>,
)
    requires
        s.to_multiset() == t.to_multiset(),
        few_examples(s, false),
    ensures
        export_rows(s, order, limit) == export_rows(t, order, limit),
{
    broadcast use vstd::seq_lib::group_to_multiset_ensures;

    let a = sort_rows(table_rows(s, false), order, false);
    let b = sort_rows(table_rows(t, false), order, false);
    let cs = canon_table(s, false);
    let ct = canon_table(t, false);
    lemma_canon_table_perm(s, t, false);
    lemma_sort_rows_canon(table_rows(s, false), order, false);
    lemma_sort_rows_canon(table_rows(t, false), order, false);
    lemma_sort_rows(cs, order, false);
    lemma_sort_rows(ct, order, false);
    let sa = sort_rows(cs, order, false);
    let sb = sort_rows(ct, order, false);
    assert(names_identify(sa)) by {
        assert forall|i: int, j: int|
            0 <= i < sa.len() && 0 <= j < sa.len() && (#[trigger] sa[i]).0 == (#[trigger] sa[j]).0 implies sa[i]
            == sa[j] by {
            assert(sa.to_multiset().count(sa[i]) > 0);
            assert(sa.to_multiset().count(sa[j]) > 0);
            assert(cs.contains(sa[i]));
            assert(cs.contains(sa[j]));
            let p = choose|p: int| 0 <= p < cs.len() && cs[p] == sa[i];
            let q = choose|q: int| 0 <= q < cs.len() && cs[q] == sa[j];
            assert(cs[p].0 == cs[q].0);
        }
    }
    lemma_sorted_rows_unique(sa, sb, order, false);
    assert(canon_rows(a) == canon_rows(b));
    let la = limited(a, limit);
    let lb = limited(b, limit);
    assert(la.len() == lb.len());
    assert forall|k: int| 0 <= k < la.len() implies export_view(#[trigger] la[k]) == export_view(
        lb[k],
    ) by {
        assert(la[k] == a[k]);
        assert(lb[k] == b[k]);
        assert(canon_rows(a)[k] == export_view(a[k]));
        assert(canon_rows(b)[k] == export_view(b[k]));
    }
    assert(export_rows(s, order, limit) =~= export_rows(t, order, limit));
}

// ───────────────────────── the token listing ─────────────────────────

proof fn lemma_insert_token_after_all(s: Seq<(String, TokenHit)>, x: (String, TokenHit))
    requires
        forall|i: int| 0 <= i < s.len() ==> token_le(#[trigger] s[i], x),
    ensures
        insert_token(s, x) == s.push(x),
    decreases s.len(),
{
    if s.len() > 0 {
        let t = s.drop_first();
        assert forall|i: int| 0 <= i < t.len() implies token_le(#[trigger] t[i], x) by {
            assert(t[i] == s[i + 1]);
        }
        lemma_insert_token_after_all(t, x);
        assert(token_le(s[0], x));
        assert(seq![s[0]] + t.push(x) == s.push(x));
    }
}

/// Listing tokens already in listing order changes nothing.
proof fn lemma_sort_sorted_tokens(s: Seq<(String, TokenHit)>)
    requires
        tokens_sorted(s),
    ensures
        sort_tokens(s) == s,
    decreases s.len(),
{
    if s.len() > 0 {
        let d = s.drop_last();
        assert forall|i: int, j: int| 0 <= i < j < d.len() implies token_le(
            #[trigger] d[i],
            #[trigger] d[j],
        ) by {
            assert(d[i] == s[i] && d[j] == s[j]);
        }
        lemma_sort_sorted_tokens(d);
        assert forall|i: int| 0 <= i < d.len() implies token_le(#[trigger] d[i], s.last()) by {
            assert(d[i] == s[i]);
            assert(s.last() == s[s.len() - 1]);
        }
        lemma_insert_token_after_all(d, s.last());
        assert(d.push(s.last()) == s);
    }
}

/// Law: a remote `SHOW TOKENS` prints what a local one prints. The server
/// hands the tokens over in listing order; printing them in that order
/// gives the local summary, when no score is NaN and no shape or entity
/// type has more than four tokens to take examples from.
pub proof fn lemma_remote_summary_matches_local(
    scope: Seq<char>,
    hs: Seq<(String, TokenHit)>,
    verbose: bool,
    order: Option<TokenSortBy>,
    limit: Option<u32>,
)
    requires
        forall|i: int| 0 <= i < hs.len() ==> !is_nan_bits(#[trigger] hs[i].1.max_score),
        few_examples(hs, false),
        few_examples(hs, true),
    ensures
        summary_lines(scope, sort_tokens(hs), verbose, order, limit) == summary_lines(
            scope,
            hs,
            verbose,
            order,
            limit,
        ),
{
    let t = sort_tokens(hs);
    lemma_sort_tokens(hs);
    lemma_sort_sorted_tokens(t);
    assert(hs.to_multiset() == t.to_multiset());
    lemma_tables_order_free(scope, hs, t, order, limit);
    assert(token_table(t) == token_table(hs));
    assert(summary_lines(scope, t, verbose, order, limit) =~= summary_lines(
        scope,
        hs,
        verbose,
        order,
        limit,
    ));
}

} // verus!

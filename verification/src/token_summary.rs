//! `SHOW TOKENS`: the summary of the top tokens that features write, by
//! token shape and entity type, rendered as a text table or exported.
//!
//! Tokens come as the vindex collects them, one entry per distinct token in
//! the order the collection is walked; the first four non-empty tokens of a
//! shape (or type) in that order are its examples. A score is an `f32`, held
//! as its IEEE-754 bits.

use vstd::prelude::*;
use crate::lql::{
    join, str_eq, string_views, Condition, ExportFormat, TokenGroupBy, TokenSortBy, Value,
};
use crate::numfmt::{format_number, format_number_spec, round_half_even, two_pow};
use crate::policy::{insert_in_order, lemma_lex_total, lemma_lex_trans, lex_le, sort_strs, str_lt};
use crate::text::{
    decimal, digit_char, lowercase, replace_all, str_lowercase, digit_to_char, owned, push_char,
    push_chars, string_from_chars, u64_decimal,
};

verus! {

/// One distinct top token and what the scanned features say of it.
#[derive(Debug, Clone)]
pub struct TokenHit {
    /// The name of the token's shape.
    pub shape: String,
    /// The entity type of the token, if it names an entity.
    pub kind: Option<String>,
    /// Features whose top token it is.
    pub hits: usize,
    /// Of those, features in the syntax, knowledge and output bands.
    pub syntax_hits: usize,
    pub knowledge_hits: usize,
    pub output_hits: usize,
    /// The highest score among them (`f32` bits).
    pub max_score: u32,
}

// ───────────────────────── scores ─────────────────────────

/// Whether the bits are an `f32` NaN.
pub open spec fn is_nan_bits(b: u32) -> bool {
    (b / 0x80_0000) % 0x100 == 0xFF && b % 0x80_0000 != 0
}

/// A key whose order is the order of the `f32` values the bits stand for
/// (for values that are not NaN; both zeros have the same key).
pub open spec fn score_key(b: u32) -> int {
    if b < 0x8000_0000 {
        0x8000_0000 + b
    } else {
        0x8000_0000 - (b - 0x8000_0000)
    }
}

/// The key of `0.0`.
pub open spec fn zero_key() -> int {
    0x8000_0000
}

pub(crate) fn is_nan_exec(b: u32) -> (r: bool)
    ensures
        r == is_nan_bits(b),
{
    (b / 0x80_0000) % 0x100 == 0xFF && b % 0x80_0000 != 0
}

pub(crate) fn score_key_exec(b: u32) -> (r: u64)
    ensures
        r == score_key(b),
{
    if b < 0x8000_0000 {
        0x8000_0000 + b as u64
    } else {
        0x8000_0000 - (b - 0x8000_0000) as u64
    }
}

/// The `f32` value of the bits, as `{:.4}` renders it: the exact value
/// rounded to four decimals, ties to an even last digit, with a minus sign
/// when the sign bit is set; `inf` and `NaN` as such.
pub open spec fn score_text(b: u32) -> Seq<char> {
    let negative = b >= 0x8000_0000;
    let e = (b / 0x80_0000) % 0x100;
    let m = b % 0x80_0000;
    let sign = if negative {
        "-"@
    } else {
        Seq::empty()
    };
    if e == 0xFF {
        if m == 0 {
            sign + "inf"@
        } else {
            "NaN"@
        }
    } else {
        let sig: nat = if e == 0 {
            m as nat
        } else {
            (m + 0x80_0000) as nat
        };
        let exp: int = if e == 0 {
            -149
        } else {
            e - 150
        };
        let d: nat = if exp >= 0 {
            sig * two_pow(exp as nat) * 10000
        } else {
            round_half_even(sig * 10000, two_pow((0 - exp) as nat))
        };
        sign + fixed4(d)
    }
}

/// `d / 10000` with four decimals.
pub open spec fn fixed4(d: nat) -> Seq<char> {
    decimal(d / 10000) + seq![
        '.',
        digit_char((d / 1000) % 10),
        digit_char((d / 100) % 10),
        digit_char((d / 10) % 10),
        digit_char(d % 10),
    ]
}

/// Renders `n` in decimal.
fn u128_decimal(n: u128) -> (r: Vec<char>)
    ensures
        r@ == decimal(n as nat),
    decreases n,
{
    let c = digit_to_char((n % 10) as u64);
    if n < 10 {
        let mut r = Vec::new();
        r.push(c);
        r
    } else {
        let mut r = u128_decimal(n / 10);
        r.push(c);
        r
    }
}

proof fn lemma_two_pow_pos(e: nat)
    ensures
        two_pow(e) >= 1,
    decreases e,
{
    if e > 0 {
        lemma_two_pow_pos((e - 1) as nat);
    }
}

proof fn lemma_two_pow_add(a: nat, b: nat)
    ensures
        two_pow(a + b) == two_pow(a) * two_pow(b),
    decreases a,
{
    if a == 0 {
        assert(two_pow(0) == 1);
        assert(a + b == b);
    } else {
        lemma_two_pow_add((a - 1) as nat, b);
        let x = two_pow((a - 1) as nat);
        let y = two_pow(b);
        assert(two_pow(a + b) == 2 * two_pow((a - 1 + b) as nat));
        assert(two_pow(a) == 2 * x);
        assert(2 * (x * y) == (2 * x) * y) by (nonlinear_arith);
    }
}

proof fn lemma_two_pow_mono(a: nat, b: nat)
    requires
        a <= b,
    ensures
        two_pow(a) <= two_pow(b),
    decreases b - a,
{
    if a < b {
        lemma_two_pow_mono(a, (b - 1) as nat);
        lemma_two_pow_pos((b - 1) as nat);
    }
}

proof fn lemma_big_powers()
    ensures
        two_pow(100) == 0x10_0000_0000_0000_0000_0000_0000,
        two_pow(104) == 0x100_0000_0000_0000_0000_0000_0000,
{
    reveal_with_fuel(two_pow, 53);
    assert(two_pow(52) == 4_503_599_627_370_496);
    assert(two_pow(48) == 281_474_976_710_656);
    lemma_two_pow_add(52, 48);
    lemma_two_pow_add(52, 52);
    assert(two_pow(100) == 4_503_599_627_370_496 * 281_474_976_710_656);
    assert(two_pow(104) == 4_503_599_627_370_496 * 4_503_599_627_370_496);
}

/// `2^k` for `k <= 104`.
fn two_pow_u128(k: u32) -> (p: u128)
    requires
        k <= 104,
    ensures
        p == two_pow(k as nat),
{
    proof {
        lemma_big_powers();
    }
    let mut p: u128 = 1;
    let mut j: u32 = 0;
    while j < k
        invariant
            j <= k,
            k <= 104,
            p == two_pow(j as nat),
            two_pow(104) == 0x100_0000_0000_0000_0000_0000_0000,
        decreases k - j,
    {
        proof {
            lemma_two_pow_mono((j + 1) as nat, 104);
        }
        p = p * 2;
        j = j + 1;
    }
    p
}

/// The integer part of a score at or above `2^23` (no fractional bits).
fn whole_score_text(sig: u128, k: u32) -> (r: Vec<char>)
    requires
        sig < 0x100_0000,
        k <= 104,
    ensures
        r@ + ".0000"@ == fixed4(sig as nat * two_pow(k as nat) * 10000),
{
    let p = two_pow_u128(k);
    proof {
        lemma_big_powers();
        lemma_two_pow_mono(k as nat, 104);
    }
    assert(sig * p < 0x1_0000_0000_0000_0000_0000_0000_0000_0000) by (nonlinear_arith)
        requires
            sig < 0x100_0000,
            p <= 0x100_0000_0000_0000_0000_0000_0000,
    ;
    let int_part = sig * p;
    let digits = u128_decimal(int_part);
    proof {
        let d: nat = sig as nat * two_pow(k as nat) * 10000;
        assert(d == int_part * 10000);
        assert(d / 10000 == int_part) by (nonlinear_arith)
            requires
                d == int_part * 10000,
        ;
        assert(d % 10 == 0 && (d / 10) % 10 == 0 && (d / 100) % 10 == 0 && (d / 1000) % 10 == 0)
            by (nonlinear_arith)
            requires
                d == int_part * 10000,
        ;
        reveal_strlit(".0000");
        assert(fixed4(d) =~= decimal(int_part as nat) + ".0000"@);
    }
    digits
}

/// The score's value times `10^4`, rounded half to even, for a score below
/// `2^23` (`k` fractional bits).
fn fraction_score_digits(sig: u128, k: u32) -> (d: u64)
    requires
        sig < 0x100_0000,
        1 <= k <= 149,
    ensures
        d == round_half_even(sig as nat * 10000, two_pow(k as nat)),
{
    proof {
        lemma_big_powers();
        lemma_two_pow_pos(k as nat);
    }
    if k > 100 {
        proof {
            lemma_two_pow_mono(100, k as nat);
            let big = two_pow(k as nat);
            let a = sig as nat * 10000;
            assert(a < big);
            assert(a / big == 0 && a % big == a) by (nonlinear_arith)
                requires
                    a < big,
            ;
            assert(2 * a < big);
        }
        0
    } else {
        let p = two_pow_u128(k);
        proof {
            lemma_two_pow_mono(k as nat, 100);
        }
        let q = crate::numfmt::round_half_even_exec(sig * 10000, p);
        assert(q <= sig * 10000) by (nonlinear_arith)
            requires
                p >= 1,
                q == round_half_even((sig * 10000) as nat, p as nat),
        {
            let f = (sig * 10000) as nat / p as nat;
            assert(f * p <= sig * 10000);
            if p == 1 {
                assert((sig * 10000) as nat % 1 == 0);
            } else {
                assert(f < sig * 10000 || sig == 0);
            }
        }
        q as u64
    }
}

/// Renders a score as `{:.4}` does (`score_text`).
pub(crate) fn score_text_exec(b: u32) -> (r: String)
    ensures
        r@ == score_text(b),
{
    let negative = b >= 0x8000_0000;
    let e = (b / 0x80_0000) % 0x100;
    let m = b % 0x80_0000;
    let mut out = String::new();
    if negative {
        out.append("-");
    }
    if e == 0xFF {
        if m == 0 {
            out.append("inf");
            return out;
        } else {
            return owned("NaN");
        }
    }
    let sig: u128 = if e == 0 {
        m as u128
    } else {
        (m + 0x80_0000) as u128
    };
    if e >= 150 {
        let digits = whole_score_text(sig, e - 150);
        push_chars(&mut out, digits.as_slice());
        out.append(".0000");
        return out;
    }
    let k: u32 = if e == 0 {
        149
    } else {
        150 - e
    };
    let dd = fraction_score_digits(sig, k);
    let int_part = u64_decimal(dd / 10000);
    push_chars(&mut out, int_part.as_slice());
    let mut tail: Vec<char> = Vec::new();
    tail.push('.');
    tail.push(digit_to_char((dd / 1000) % 10));
    tail.push(digit_to_char((dd / 100) % 10));
    tail.push(digit_to_char((dd / 10) % 10));
    tail.push(digit_to_char(dd % 10));
    push_chars(&mut out, tail.as_slice());
    out
}

// ───────────────────────── padding ─────────────────────────

/// `n` spaces.
pub open spec fn spaces(n: nat) -> Seq<char> {
    Seq::new(n, |i: int| ' ')
}

/// `s` padded with spaces on the right to `w` characters (`{:<w}`).
pub open spec fn pad_right(s: Seq<char>, w: nat) -> Seq<char> {
    if s.len() < w {
        s + spaces((w - s.len()) as nat)
    } else {
        s
    }
}

/// `s` padded with spaces on the left to `w` characters (`{:>w}`).
pub open spec fn pad_left(s: Seq<char>, w: nat) -> Seq<char> {
    if s.len() < w {
        spaces((w - s.len()) as nat) + s
    } else {
        s
    }
}

fn spaces_exec(n: usize) -> (r: Vec<char>)
    ensures
        r@ == spaces(n as nat),
{
    let mut r: Vec<char> = Vec::new();
    let mut i: usize = 0;
    while i < n
        invariant
            i <= n,
            r@ == spaces(i as nat),
        decreases n - i,
    {
        r.push(' ');
        assert(r@ =~= spaces((i + 1) as nat));
        i = i + 1;
    }
    r
}

/// Appends `s` padded on the right to `w` characters.
pub(crate) fn append_pad_right(out: &mut String, s: &str, w: usize)
    ensures
        final(out)@ == old(out)@ + pad_right(s@, w as nat),
{
    let cs = crate::text::chars_of(s);
    push_chars(out, cs.as_slice());
    if cs.len() < w {
        let sp = spaces_exec(w - cs.len());
        push_chars(out, sp.as_slice());
    }
}

/// Appends `s` padded on the left to `w` characters.
pub(crate) fn append_pad_left(out: &mut String, s: &str, w: usize)
    ensures
        final(out)@ == old(out)@ + pad_left(s@, w as nat),
{
    let cs = crate::text::chars_of(s);
    if cs.len() < w {
        let sp = spaces_exec(w - cs.len());
        push_chars(out, sp.as_slice());
    }
    push_chars(out, cs.as_slice());
}

// ───────────────────────── groups ─────────────────────────

/// The group a token falls in: its shape, or, when grouping by type, its
/// entity type (none for a token that names no entity).
pub open spec fn group_key(e: (String, TokenHit), by_kind: bool) -> Option<Seq<char>> {
    if by_kind {
        match e.1.kind {
            Some(k) => Some(k@),
            None => None,
        }
    } else {
        Some(e.1.shape@)
    }
}

/// Whether the token falls in group `g`.
pub open spec fn in_group(e: (String, TokenHit), by_kind: bool, g: Seq<char>) -> bool {
    group_key(e, by_kind) == Some(g)
}

/// The groups of the tokens, in the order they first occur.
pub open spec fn groups_in(hs: Seq<(String, TokenHit)>, by_kind: bool) -> Seq<Seq<char>>
    decreases hs.len(),
{
    if hs.len() == 0 {
        Seq::empty()
    } else {
        let d = groups_in(hs.drop_last(), by_kind);
        match group_key(hs.last(), by_kind) {
            Some(g) => if d.contains(g) {
                d
            } else {
                d.push(g)
            },
            None => d,
        }
    }
}

/// The number of tokens in group `g`.
pub open spec fn group_distinct(hs: Seq<(String, TokenHit)>, by_kind: bool, g: Seq<char>) -> nat
    decreases hs.len(),
{
    if hs.len() == 0 {
        0
    } else {
        group_distinct(hs.drop_last(), by_kind, g) + if in_group(hs.last(), by_kind, g) {
            1nat
        } else {
            0nat
        }
    }
}

/// The features whose top token is in group `g`.
pub open spec fn group_hits(hs: Seq<(String, TokenHit)>, by_kind: bool, g: Seq<char>) -> nat
    decreases hs.len(),
{
    if hs.len() == 0 {
        0
    } else {
        group_hits(hs.drop_last(), by_kind, g) + if in_group(hs.last(), by_kind, g) {
            hs.last().1.hits as nat
        } else {
            0nat
        }
    }
}

/// The tokens of group `g` that name an entity.
pub open spec fn group_entity_like(hs: Seq<(String, TokenHit)>, by_kind: bool, g: Seq<char>) -> nat
    decreases hs.len(),
{
    if hs.len() == 0 {
        0
    } else {
        group_entity_like(hs.drop_last(), by_kind, g) + if in_group(hs.last(), by_kind, g)
            && hs.last().1.kind is Some {
            1nat
        } else {
            0nat
        }
    }
}

/// The first four non-empty tokens of group `g`, in order.
pub open spec fn group_examples(hs: Seq<(String, TokenHit)>, by_kind: bool, g: Seq<char>) -> Seq<
    Seq<char>,
>
    decreases hs.len(),
{
    if hs.len() == 0 {
        Seq::empty()
    } else {
        let e = group_examples(hs.drop_last(), by_kind, g);
        if in_group(hs.last(), by_kind, g) && e.len() < 4 && hs.last().0@.len() > 0 {
            e.push(hs.last().0@)
        } else {
            e
        }
    }
}

/// The key of the highest score in group `g`, counting from `0.0` (a NaN
/// score is passed over, as `f32::max` passes it over).
pub open spec fn group_max_key(hs: Seq<(String, TokenHit)>, by_kind: bool, g: Seq<char>) -> int
    decreases hs.len(),
{
    if hs.len() == 0 {
        zero_key()
    } else {
        let m = group_max_key(hs.drop_last(), by_kind, g);
        if in_group(hs.last(), by_kind, g) && !is_nan_bits(hs.last().1.max_score) && score_key(
            hs.last().1.max_score,
        ) > m {
            score_key(hs.last().1.max_score)
        } else {
            m
        }
    }
}

/// No token occurs twice among the hits, as in the map they come from.
pub open spec fn distinct_tokens(hs: Seq<(String, TokenHit)>) -> bool {
    forall|i: int, j: int| 0 <= i < j < hs.len() ==> (#[trigger] hs[i]).0@ != (#[trigger] hs[j]).0@
}

/// The features of all tokens.
pub open spec fn total_hits(hs: Seq<(String, TokenHit)>) -> nat
    decreases hs.len(),
{
    if hs.len() == 0 {
        0
    } else {
        total_hits(hs.drop_last()) + hs.last().1.hits as nat
    }
}

/// One row of a summary table: a group and its counts, its examples in
/// the order met, and the key of its highest score.
pub struct GroupRow {
    pub name: String,
    pub distinct: usize,
    pub feature_hits: usize,
    pub entity_like: usize,
    pub examples: Vec<String>,
    pub max_key: u64,
}

/// What a row says: its group, the group's tokens, their features, those
/// that name an entity, the examples, and the key of the highest score.
pub type RowView = (Seq<char>, nat, nat, nat, Seq<Seq<char>>, int);

impl View for GroupRow {
    type V = RowView;

    open spec fn view(&self) -> RowView {
        (
            self.name@,
            self.distinct as nat,
            self.feature_hits as nat,
            self.entity_like as nat,
            crate::lql::string_views(self.examples@),
            self.max_key as int,
        )
    }
}

/// The row of group `g` of the tokens.
pub open spec fn group_row(hs: Seq<(String, TokenHit)>, by_kind: bool, g: Seq<char>) -> RowView {
    (
        g,
        group_distinct(hs, by_kind, g),
        group_hits(hs, by_kind, g),
        group_entity_like(hs, by_kind, g),
        group_examples(hs, by_kind, g),
        group_max_key(hs, by_kind, g),
    )
}

/// The rows of all groups of the tokens, in the order the groups first
/// occur.
pub open spec fn table_rows(hs: Seq<(String, TokenHit)>, by_kind: bool) -> Seq<RowView> {
    groups_in(hs, by_kind).map_values(|g: Seq<char>| group_row(hs, by_kind, g))
}

/// The views of a list of rows.
pub open spec fn row_views(rows: Seq<GroupRow>) -> Seq<RowView> {
    rows.map_values(|r: GroupRow| r@)
}

/// The row of group `g` has the group's counts.
pub open spec fn row_of(r: GroupRow, hs: Seq<(String, TokenHit)>, by_kind: bool, g: Seq<char>) -> bool {
    &&& r.name@ == g
    &&& r.distinct == group_distinct(hs, by_kind, g)
    &&& r.feature_hits == group_hits(hs, by_kind, g)
    &&& r.entity_like == group_entity_like(hs, by_kind, g)
    &&& crate::lql::string_views(r.examples@) == group_examples(hs, by_kind, g)
    &&& r.max_key == group_max_key(hs, by_kind, g)
}

proof fn lemma_group_bounds(hs: Seq<(String, TokenHit)>, by_kind: bool, g: Seq<char>)
    ensures
        group_distinct(hs, by_kind, g) <= hs.len(),
        group_entity_like(hs, by_kind, g) <= hs.len(),
        group_hits(hs, by_kind, g) <= total_hits(hs),
        group_examples(hs, by_kind, g).len() <= 4,
        0 <= group_max_key(hs, by_kind, g) <= 0xFFFF_FFFF,
    decreases hs.len(),
{
    if hs.len() > 0 {
        lemma_group_bounds(hs.drop_last(), by_kind, g);
    }
}

pub(crate) proof fn lemma_groups_unique(hs: Seq<(String, TokenHit)>, by_kind: bool)
    ensures
        forall|i: int, j: int|
            0 <= i < j < groups_in(hs, by_kind).len() ==> groups_in(hs, by_kind)[i] != groups_in(
                hs,
                by_kind,
            )[j],
    decreases hs.len(),
{
    if hs.len() > 0 {
        let d = groups_in(hs.drop_last(), by_kind);
        lemma_groups_unique(hs.drop_last(), by_kind);
        match group_key(hs.last(), by_kind) {
            Some(g) => {
                if !d.contains(g) {
                    let r = d.push(g);
                    assert forall|i: int, j: int| 0 <= i < j < r.len() implies r[i] != r[j] by {
                        assert(r[i] == d[i]);
                        if j == d.len() {
                            if r[i] == g {
                                assert(d.contains(g));
                            }
                        } else {
                            assert(r[j] == d[j]);
                        }
                    }
                }
            },
            None => {},
        }
    }
}

proof fn lemma_total_hits_prefix(hs: Seq<(String, TokenHit)>, k: int)
    requires
        0 <= k <= hs.len(),
    ensures
        total_hits(hs.take(k)) <= total_hits(hs),
    decreases hs.len() - k,
{
    if k < hs.len() {
        lemma_total_hits_prefix(hs.drop_last(), k);
        assert(hs.drop_last().take(k) == hs.take(k));
    } else {
        assert(hs.take(k) == hs);
    }
}

/// Copies a token's text.
fn copy_string(s: &String) -> (r: String)
    ensures
        r@ == s@,
{
    s.clone()
}

/// The rows of the groups of `hs`, in the order the groups first occur.
fn collect_groups(hs: &Vec<(String, TokenHit)>, by_kind: bool) -> (rows: Vec<GroupRow>)
    requires
        total_hits(hs@) <= usize::MAX,
    ensures
        row_views(rows@) == table_rows(hs@, by_kind),
        rows@.len() == groups_in(hs@, by_kind).len(),
        forall|j: int|
            0 <= j < rows@.len() ==> row_of(#[trigger] rows@[j], hs@, by_kind, groups_in(
                hs@,
                by_kind,
            )[j]),
{
    let mut rows: Vec<GroupRow> = Vec::new();
    let mut i: usize = 0;
    while i < hs.len()
        invariant
            i <= hs@.len(),
            total_hits(hs@) <= usize::MAX,
            rows@.len() == groups_in(hs@.take(i as int), by_kind).len(),
            forall|j: int|
                0 <= j < rows@.len() ==> row_of(
                    #[trigger] rows@[j],
                    hs@.take(i as int),
                    by_kind,
                    groups_in(hs@.take(i as int), by_kind)[j],
                ),
        decreases hs.len() - i,
    {
        let ghost pre = hs@.take(i as int);
        let ghost post = hs@.take(i + 1);
        let ghost x = hs@[i as int];
        proof {
            assert(post.drop_last() == pre);
            assert(post.last() == x);
            lemma_groups_unique(pre, by_kind);
            lemma_total_hits_prefix(hs@, i + 1);
        }
        let entry = &hs[i];
        let key: Option<&str> = if by_kind {
            match &entry.1.kind {
                Some(k) => Some(k.as_str()),
                None => None,
            }
        } else {
            Some(entry.1.shape.as_str())
        };
        let ghost old_rows = rows@;
        match key {
            None => {
                proof {
                    assert(groups_in(post, by_kind) == groups_in(pre, by_kind));
                    assert forall|j: int| 0 <= j < rows@.len() implies row_of(
                        #[trigger] rows@[j],
                        post,
                        by_kind,
                        groups_in(post, by_kind)[j],
                    ) by {
                        let g = groups_in(pre, by_kind)[j];
                        assert(!in_group(x, by_kind, g));
                        assert(row_of(rows@[j], pre, by_kind, g));
                    }
                }
            },
            Some(k) => {
                let mut j: usize = 0;
                while j < rows.len() && !str_eq(rows[j].name.as_str(), k)
                    invariant
                        j <= rows@.len(),
                        forall|q: int| 0 <= q < j ==> (#[trigger] rows@[q]).name@ != k@,
                    decreases rows.len() - j,
                {
                    j = j + 1;
                }
                let key_score = score_key_exec(entry.1.max_score);
                let nan = is_nan_exec(entry.1.max_score);
                let tok_nonempty = !entry.0.as_str().is_empty();
                proof {
                    lemma_group_bounds(pre, by_kind, k@);
                    assert(entry.0@.len() > 0 <==> tok_nonempty);
                }
                if j == rows.len() {
                    let mut examples: Vec<String> = Vec::new();
                    if tok_nonempty {
                        examples.push(copy_string(&entry.0));
                    }
                    let row = GroupRow {
                        name: owned(k),
                        distinct: 1,
                        feature_hits: entry.1.hits,
                        entity_like: if entry.1.kind.is_some() {
                            1
                        } else {
                            0
                        },
                        examples,
                        max_key: if !nan && key_score > 0x8000_0000 {
                            key_score
                        } else {
                            0x8000_0000
                        },
                    };
                    proof {
                        assert(!groups_in(pre, by_kind).contains(k@)) by {
                            if groups_in(pre, by_kind).contains(k@) {
                                let q = choose|q: int|
                                    0 <= q < groups_in(pre, by_kind).len() && groups_in(
                                        pre,
                                        by_kind,
                                    )[q] == k@;
                                assert(row_of(rows@[q], pre, by_kind, groups_in(pre, by_kind)[q]));
                            }
                        }
                        lemma_group_absent(pre, by_kind, k@);
                    }
                    rows.push(row);
                    proof {
                        assert(groups_in(post, by_kind) == groups_in(pre, by_kind).push(k@));
                        assert forall|q: int| 0 <= q < rows@.len() implies row_of(
                            #[trigger] rows@[q],
                            post,
                            by_kind,
                            groups_in(post, by_kind)[q],
                        ) by {
                            if q < old_rows.len() {
                                let g = groups_in(pre, by_kind)[q];
                                assert(rows@[q] == old_rows[q]);
                                assert(row_of(old_rows[q], pre, by_kind, g));
                                assert(g != k@);
                            } else {
                                assert(rows@[q] == row);
                                assert(crate::lql::string_views(row.examples@) =~= group_examples(
                                    post,
                                    by_kind,
                                    k@,
                                ));
                            }
                        }
                    }
                } else {
                    let ghost g = groups_in(pre, by_kind)[j as int];
                    proof {
                        assert(row_of(rows@[j as int], pre, by_kind, g));
                        assert(g == k@);
                        assert(groups_in(post, by_kind) == groups_in(pre, by_kind)) by {
                            assert(groups_in(pre, by_kind).contains(k@));
                        }
                    }
                    let mut row = rows.remove(j);
                    row.distinct = row.distinct + 1;
                    row.feature_hits = row.feature_hits + entry.1.hits;
                    if entry.1.kind.is_some() {
                        row.entity_like = row.entity_like + 1;
                    }
                    if row.examples.len() < 4 && tok_nonempty {
                        let ghost before = row.examples@;
                        row.examples.push(copy_string(&entry.0));
                        assert(crate::lql::string_views(row.examples@) == crate::lql::string_views(
                            before,
                        ).push(entry.0@));
                    }
                    if !nan && key_score > row.max_key {
                        row.max_key = key_score;
                    }
                    rows.insert(j, row);
                    proof {
                        assert forall|q: int| 0 <= q < rows@.len() implies row_of(
                            #[trigger] rows@[q],
                            post,
                            by_kind,
                            groups_in(post, by_kind)[q],
                        ) by {
                            if q != j {
                                let h = groups_in(pre, by_kind)[q];
                                assert(rows@[q] == old_rows[q]);
                                assert(row_of(old_rows[q], pre, by_kind, h));
                                assert(h != k@);
                            }
                        }
                    }
                }
            },
        }
        i = i + 1;
    }
    assert(hs@.take(hs.len() as int) == hs@);
    assert forall|j: int| 0 <= j < rows@.len() implies row_views(rows@)[j] == table_rows(
        hs@,
        by_kind,
    )[j] by {
        assert(row_of(rows@[j], hs@, by_kind, groups_in(hs@, by_kind)[j]));
    }
    assert(row_views(rows@) =~= table_rows(hs@, by_kind));
    rows
}

// ───────────────────────── row order ─────────────────────────

/// The counts a table's rows are ranked by, larger first: for the
/// entity-type table, features then tokens; for the shape table, what the
/// order asks for (features when none is asked for, nothing for `SHAPE`).
pub open spec fn row_rank(v: RowView, order: Option<TokenSortBy>, classes: bool) -> (int, int) {
    if classes {
        (v.2 as int, v.1 as int)
    } else {
        match order {
            None => (v.2 as int, 0),
            Some(TokenSortBy::MaxScore) => (v.5, 0),
            Some(TokenSortBy::Distinct) => (v.1 as int, 0),
            Some(TokenSortBy::EntityLike) => (v.3 as int, 0),
            Some(TokenSortBy::Shape) => (0, 0),
        }
    }
}

/// Row `a` may come before row `b`: it ranks higher, or as high and its
/// name sorts before or equal to `b`'s.
pub open spec fn row_le(a: RowView, b: RowView, order: Option<TokenSortBy>, classes: bool) -> bool {
    let ra = row_rank(a, order, classes);
    let rb = row_rank(b, order, classes);
    ra.0 > rb.0 || (ra.0 == rb.0 && (ra.1 > rb.1 || (ra.1 == rb.1 && lex_le(a.0, b.0))))
}

/// `x` inserted into `s` after every row that may come before it.
pub open spec fn insert_row(s: Seq<RowView>, x: RowView, order: Option<TokenSortBy>, classes: bool) -> Seq<
    RowView,
>
    decreases s.len(),
{
    if s.len() == 0 {
        seq![x]
    } else if !row_le(s[0], x, order, classes) {
        seq![x] + s
    } else {
        seq![s[0]] + insert_row(s.drop_first(), x, order, classes)
    }
}

/// The rows in table order.
pub open spec fn sort_rows(s: Seq<RowView>, order: Option<TokenSortBy>, classes: bool) -> Seq<
    RowView,
>
    decreases s.len(),
{
    if s.len() == 0 {
        Seq::empty()
    } else {
        insert_row(sort_rows(s.drop_last(), order, classes), s.last(), order, classes)
    }
}

fn rank_exec(r: &GroupRow, order: Option<TokenSortBy>, classes: bool) -> (k: (u64, u64))
    ensures
        k.0 as int == row_rank(r@, order, classes).0,
        k.1 as int == row_rank(r@, order, classes).1,
{
    if classes {
        (r.feature_hits as u64, r.distinct as u64)
    } else {
        match order {
            None => (r.feature_hits as u64, 0),
            Some(TokenSortBy::MaxScore) => (r.max_key, 0),
            Some(TokenSortBy::Distinct) => (r.distinct as u64, 0),
            Some(TokenSortBy::EntityLike) => (r.entity_like as u64, 0),
            Some(TokenSortBy::Shape) => (0, 0),
        }
    }
}

fn row_le_exec(a: &GroupRow, b: &GroupRow, order: Option<TokenSortBy>, classes: bool) -> (r: bool)
    ensures
        r == row_le(a@, b@, order, classes),
{
    let ka = rank_exec(a, order, classes);
    let kb = rank_exec(b, order, classes);
    if ka.0 != kb.0 {
        ka.0 > kb.0
    } else if ka.1 != kb.1 {
        ka.1 > kb.1
    } else {
        !str_lt(b.name.as_str(), a.name.as_str())
    }
}

/// Inserts `x` into the table-ordered `v` after every row that may come
/// before it.
fn insert_row_exec(v: &mut Vec<GroupRow>, x: GroupRow, order: Option<TokenSortBy>, classes: bool)
    ensures
        row_views(final(v)@) == insert_row(row_views(old(v)@), x@, order, classes),
{
    let ghost sv = row_views(v@);
    let mut p: usize = 0;
    assert(sv.skip(0) == sv);
    assert(sv.take(0) + insert_row(sv, x@, order, classes) == insert_row(sv, x@, order, classes));
    while p < v.len() && row_le_exec(&v[p], &x, order, classes)
        invariant
            p <= v@.len(),
            sv == row_views(v@),
            insert_row(sv, x@, order, classes) == sv.take(p as int) + insert_row(
                sv.skip(p as int),
                x@,
                order,
                classes,
            ),
        decreases v.len() - p,
    {
        proof {
            let t = sv.skip(p as int);
            assert(t[0] == sv[p as int]);
            assert(t.drop_first() == sv.skip(p + 1));
            assert(sv.take(p + 1) == sv.take(p as int).push(sv[p as int]));
            assert(insert_row(t, x@, order, classes) == seq![t[0]] + insert_row(
                sv.skip(p + 1),
                x@,
                order,
                classes,
            ));
            assert(sv.take(p as int) + (seq![t[0]] + insert_row(sv.skip(p + 1), x@, order, classes))
                == sv.take(p + 1) + insert_row(sv.skip(p + 1), x@, order, classes));
        }
        p = p + 1;
    }
    proof {
        let t = sv.skip(p as int);
        if p < v.len() {
            assert(t[0] == sv[p as int]);
            assert(insert_row(t, x@, order, classes) == seq![x@] + t);
        } else {
            assert(t.len() == 0);
        }
        assert(sv.take(p as int) + (seq![x@] + t) == sv.insert(p as int, x@));
    }
    let ghost xv = x@;
    v.insert(p, x);
    assert(row_views(v@) =~= sv.insert(p as int, xv));
}

/// The rows in table order (`sort_rows`).
fn sort_rows_exec(rows: Vec<GroupRow>, order: Option<TokenSortBy>, classes: bool) -> (r: Vec<
    GroupRow,
>)
    ensures
        row_views(r@) == sort_rows(row_views(rows@), order, classes),
{
    let ghost all = row_views(rows@);
    let mut rest = rows;
    let mut out: Vec<GroupRow> = Vec::new();
    let mut i: usize = 0;
    let n = rest.len();
    assert(all.take(0) =~= Seq::<RowView>::empty());
    while rest.len() > 0
        invariant
            n == all.len(),
            i + rest@.len() == n,
            row_views(rest@) == all.skip(i as int),
            row_views(out@) == sort_rows(all.take(i as int), order, classes),
        decreases rest.len(),
    {
        let ghost before = rest@;
        let x = rest.remove(0);
        proof {
            assert(all.take(i + 1).drop_last() == all.take(i as int));
            assert(all.take(i + 1).last() == all[i as int]);
            assert(row_views(before)[0] == all.skip(i as int)[0]);
            assert(x@ == all[i as int]);
            assert(rest@ == before.drop_first());
            assert forall|k: int| 0 <= k < rest@.len() implies row_views(rest@)[k] == all.skip(
                i + 1,
            )[k] by {
                assert(rest@[k] == before[k + 1]);
                assert(row_views(before)[k + 1] == all.skip(i as int)[k + 1]);
            }
            assert(row_views(rest@) =~= all.skip(i + 1));
        }
        insert_row_exec(&mut out, x, order, classes);
        i = i + 1;
    }
    assert(all.take(n as int) == all);
    out
}

// ───────────────────────── examples in order ─────────────────────────

/// Inserts `x` into the sorted `v` after every string that sorts before or
/// equal to it.
fn insert_string_in_order(v: &mut Vec<String>, x: String)
    ensures
        string_views(final(v)@) == insert_in_order(string_views(old(v)@), x@),
{
    let ghost sv = string_views(v@);
    let mut p: usize = 0;
    assert(sv.skip(0) == sv);
    assert(sv.take(0) + insert_in_order(sv, x@) == insert_in_order(sv, x@));
    while p < v.len() && !str_lt(x.as_str(), v[p].as_str())
        invariant
            p <= v@.len(),
            sv == string_views(v@),
            insert_in_order(sv, x@) == sv.take(p as int) + insert_in_order(sv.skip(p as int), x@),
        decreases v.len() - p,
    {
        proof {
            let t = sv.skip(p as int);
            assert(t[0] == sv[p as int]);
            assert(t.drop_first() == sv.skip(p + 1));
            assert(sv.take(p + 1) == sv.take(p as int).push(sv[p as int]));
            assert(insert_in_order(t, x@) == seq![t[0]] + insert_in_order(sv.skip(p + 1), x@));
            assert(sv.take(p as int) + (seq![t[0]] + insert_in_order(sv.skip(p + 1), x@))
                == sv.take(p + 1) + insert_in_order(sv.skip(p + 1), x@));
        }
        p = p + 1;
    }
    proof {
        let t = sv.skip(p as int);
        if p < v.len() {
            assert(t[0] == sv[p as int]);
            assert(insert_in_order(t, x@) == seq![x@] + t);
        } else {
            assert(t.len() == 0);
        }
        assert(sv.take(p as int) + (seq![x@] + t) == sv.insert(p as int, x@));
    }
    let ghost xv = x@;
    v.insert(p, x);
    assert(string_views(v@) =~= sv.insert(p as int, xv));
}

/// The strings in order (`sort_strs`), as `sort` orders them.
fn sort_strings(v: Vec<String>) -> (r: Vec<String>)
    ensures
        string_views(r@) == sort_strs(string_views(v@)),
{
    let ghost all = string_views(v@);
    let mut rest = v;
    let mut out: Vec<String> = Vec::new();
    let mut i: usize = 0;
    let n = rest.len();
    assert(all.take(0) =~= Seq::<Seq<char>>::empty());
    while rest.len() > 0
        invariant
            n == all.len(),
            i + rest@.len() == n,
            string_views(rest@) == all.skip(i as int),
            string_views(out@) == sort_strs(all.take(i as int)),
        decreases rest.len(),
    {
        let ghost before = rest@;
        let x = rest.remove(0);
        proof {
            assert(all.take(i + 1).drop_last() == all.take(i as int));
            assert(all.take(i + 1).last() == all[i as int]);
            assert(string_views(before)[0] == all.skip(i as int)[0]);
            assert(rest@ == before.drop_first());
            assert forall|k: int| 0 <= k < rest@.len() implies string_views(rest@)[k] == all.skip(
                i + 1,
            )[k] by {
                assert(rest@[k] == before[k + 1]);
                assert(string_views(before)[k + 1] == all.skip(i as int)[k + 1]);
            }
            assert(string_views(rest@) =~= all.skip(i + 1));
        }
        insert_string_in_order(&mut out, x);
        i = i + 1;
    }
    assert(all.take(n as int) == all);
    out
}

// ───────────────────────── token order ─────────────────────────

/// Token `a` may come before token `b`: more features, or as many and a
/// higher score, or neither and a token that sorts before or equal. Two
/// scores of which one is NaN compare as equal, as `partial_cmp` leaves
/// them.
pub open spec fn token_le(a: (String, TokenHit), b: (String, TokenHit)) -> bool {
    let ka = score_key(a.1.max_score);
    let kb = score_key(b.1.max_score);
    let scored = !is_nan_bits(a.1.max_score) && !is_nan_bits(b.1.max_score) && ka != kb;
    a.1.hits > b.1.hits || (a.1.hits == b.1.hits && (if scored {
        ka > kb
    } else {
        lex_le(a.0@, b.0@)
    }))
}

/// `x` inserted into `s` after every token that may come before it.
pub open spec fn insert_token(s: Seq<(String, TokenHit)>, x: (String, TokenHit)) -> Seq<
    (String, TokenHit),
>
    decreases s.len(),
{
    if s.len() == 0 {
        seq![x]
    } else if !token_le(s[0], x) {
        seq![x] + s
    } else {
        seq![s[0]] + insert_token(s.drop_first(), x)
    }
}

/// The tokens in the order of the verbose listing.
pub open spec fn sort_tokens(s: Seq<(String, TokenHit)>) -> Seq<(String, TokenHit)>
    decreases s.len(),
{
    if s.len() == 0 {
        Seq::empty()
    } else {
        insert_token(sort_tokens(s.drop_last()), s.last())
    }
}

fn token_le_exec(a: &(String, TokenHit), b: &(String, TokenHit)) -> (r: bool)
    ensures
        r == token_le(*a, *b),
{
    if a.1.hits != b.1.hits {
        return a.1.hits > b.1.hits;
    }
    let ka = score_key_exec(a.1.max_score);
    let kb = score_key_exec(b.1.max_score);
    if !is_nan_exec(a.1.max_score) && !is_nan_exec(b.1.max_score) && ka != kb {
        ka > kb
    } else {
        !str_lt(b.0.as_str(), a.0.as_str())
    }
}

/// Inserts `x` into the ordered `v` after every token that may come
/// before it.
fn insert_token_exec(v: &mut Vec<(String, TokenHit)>, x: (String, TokenHit))
    ensures
        final(v)@ == insert_token(old(v)@, x),
{
    let ghost sv = v@;
    let mut p: usize = 0;
    assert(sv.skip(0) == sv);
    assert(sv.take(0) + insert_token(sv, x) == insert_token(sv, x));
    while p < v.len() && token_le_exec(&v[p], &x)
        invariant
            p <= v@.len(),
            sv == v@,
            insert_token(sv, x) == sv.take(p as int) + insert_token(sv.skip(p as int), x),
        decreases v.len() - p,
    {
        proof {
            let t = sv.skip(p as int);
            assert(t[0] == sv[p as int]);
            assert(t.drop_first() == sv.skip(p + 1));
            assert(sv.take(p + 1) == sv.take(p as int).push(sv[p as int]));
            assert(insert_token(t, x) == seq![t[0]] + insert_token(sv.skip(p + 1), x));
            assert(sv.take(p as int) + (seq![t[0]] + insert_token(sv.skip(p + 1), x)) == sv.take(
                p + 1,
            ) + insert_token(sv.skip(p + 1), x));
        }
        p = p + 1;
    }
    proof {
        let t = sv.skip(p as int);
        if p < v.len() {
            assert(t[0] == sv[p as int]);
            assert(insert_token(t, x) == seq![x] + t);
        } else {
            assert(t.len() == 0);
        }
        assert(sv.take(p as int) + (seq![x] + t) == sv.insert(p as int, x));
    }
    v.insert(p, x);
}

/// The tokens in the order of the verbose listing (`sort_tokens`).
fn sort_tokens_exec(hs: Vec<(String, TokenHit)>) -> (r: Vec<(String, TokenHit)>)
    ensures
        r@ == sort_tokens(hs@),
{
    let ghost all = hs@;
    let mut rest = hs;
    let mut out: Vec<(String, TokenHit)> = Vec::new();
    let mut i: usize = 0;
    let n = rest.len();
    assert(all.take(0) =~= Seq::<(String, TokenHit)>::empty());
    while rest.len() > 0
        invariant
            n == all.len(),
            i + rest@.len() == n,
            rest@ == all.skip(i as int),
            out@ == sort_tokens(all.take(i as int)),
        decreases rest.len(),
    {
        let x = rest.remove(0);
        proof {
            assert(all.take(i + 1).drop_last() == all.take(i as int));
            assert(all.take(i + 1).last() == all[i as int]);
            assert(rest@ =~= all.skip(i + 1));
        }
        insert_token_exec(&mut out, x);
        i = i + 1;
    }
    assert(all.take(n as int) == all);
    out
}

// ───────────────────────── lines ─────────────────────────

/// The cells of a shape-table line: `{:<12} {:>10} {:>12} {:>12} {:<24}`.
pub open spec fn shape_cells(
    a: Seq<char>,
    b: Seq<char>,
    c: Seq<char>,
    d: Seq<char>,
    e: Seq<char>,
) -> Seq<char> {
    pad_right(a, 12) + " "@ + pad_left(b, 10) + " "@ + pad_left(c, 12) + " "@ + pad_left(d, 12)
        + " "@ + pad_right(e, 24)
}

/// The cells of an entity-type-table line: `{:<12} {:>10} {:>12} {:<24}`.
pub open spec fn class_cells(a: Seq<char>, b: Seq<char>, c: Seq<char>, e: Seq<char>) -> Seq<char> {
    pad_right(a, 12) + " "@ + pad_left(b, 10) + " "@ + pad_left(c, 12) + " "@ + pad_right(e, 24)
}

/// The cells of a token line: `{:<24} {:<12} {:<10} {:<8} {:>10} {:>10}`.
pub open spec fn token_cells(
    a: Seq<char>,
    b: Seq<char>,
    c: Seq<char>,
    d: Seq<char>,
    e: Seq<char>,
    f: Seq<char>,
) -> Seq<char> {
    pad_right(a, 24) + " "@ + pad_right(b, 12) + " "@ + pad_right(c, 10) + " "@ + pad_right(d, 8)
        + " "@ + pad_left(e, 10) + " "@ + pad_left(f, 10)
}

/// A row's examples in order, joined by `", "`.
pub open spec fn examples_text(ex: Seq<Seq<char>>) -> Seq<char> {
    join(sort_strs(ex), ", "@)
}

/// The line of a row of the shape table.
pub open spec fn shape_line(v: RowView) -> Seq<char> {
    shape_cells(
        v.0,
        format_number_spec(v.1),
        format_number_spec(v.2),
        format_number_spec(v.3),
        examples_text(v.4),
    )
}

/// The line of a row of the entity-type table.
pub open spec fn class_line(v: RowView) -> Seq<char> {
    class_cells(v.0, format_number_spec(v.1), format_number_spec(v.2), examples_text(v.4))
}

/// The bands a token's features are in: `S`, `K`, `O` or `-` for each.
pub open spec fn bands_text(h: TokenHit) -> Seq<char> {
    seq![
        if h.syntax_hits > 0 { 'S' } else { '-' },
        if h.knowledge_hits > 0 { 'K' } else { '-' },
        if h.output_hits > 0 { 'O' } else { '-' },
    ]
}

/// The line of a token in the verbose listing (`∅` for the empty token).
pub open spec fn token_line(e: (String, TokenHit)) -> Seq<char> {
    token_cells(
        if e.0@.len() == 0 {
            "∅"@
        } else {
            e.0@
        },
        e.1.shape@,
        match e.1.kind {
            Some(k) => k@,
            None => "none"@,
        },
        bands_text(e.1),
        decimal(e.1.hits as nat),
        score_text(e.1.max_score),
    )
}

/// `n` dashes.
pub open spec fn dashes(n: nat) -> Seq<char> {
    Seq::new(n, |i: int| '-')
}

/// The first `limit` of `s`, or all of it.
pub open spec fn limited<T>(s: Seq<T>, limit: Option<u32>) -> Seq<T> {
    match limit {
        Some(l) => if (l as int) < s.len() {
            s.take(l as int)
        } else {
            s
        },
        None => s,
    }
}

/// The first line of a summary.
pub open spec fn summary_title(scope: Seq<char>, n: nat) -> Seq<char> {
    "Token summary "@ + scope + " ("@ + format_number_spec(n) + " distinct top tokens):"@
}

/// The shape table: title, header, rule and the rows in order, as many as
/// the limit lets through.
pub open spec fn shape_table(
    scope: Seq<char>,
    hs: Seq<(String, TokenHit)>,
    order: Option<TokenSortBy>,
    limit: Option<u32>,
) -> Seq<Seq<char>> {
    seq![
        summary_title(scope, hs.len()),
        shape_cells("Shape"@, "Distinct"@, "FeatHits"@, "EntityLike"@, "Examples"@),
        dashes(76),
    ] + limited(sort_rows(table_rows(hs, false), order, false), limit).map_values(
        |v: RowView| shape_line(v),
    )
}

/// The entity-type table, when some token names an entity.
pub open spec fn class_table(hs: Seq<(String, TokenHit)>) -> Seq<Seq<char>> {
    let rows = sort_rows(table_rows(hs, true), None, true);
    if rows.len() > 0 {
        seq![
            Seq::<char>::empty(),
            "Entity-capable token classes:"@,
            class_cells("Type"@, "Distinct"@, "FeatHits"@, "Examples"@),
            dashes(62),
        ] + rows.map_values(|v: RowView| class_line(v))
    } else {
        Seq::empty()
    }
}

/// The verbose listing of the first thirty tokens in order.
pub open spec fn token_table(hs: Seq<(String, TokenHit)>) -> Seq<Seq<char>> {
    seq![
        Seq::<char>::empty(),
        "Top matching tokens:"@,
        token_cells("Token"@, "Shape"@, "EntityType"@, "Bands"@, "Features"@, "Max Score"@),
        dashes(82),
    ] + limited(sort_tokens(hs), Some(30)).map_values(|e: (String, TokenHit)| token_line(e))
}

/// The lines of `SHOW TOKENS`.
pub open spec fn summary_lines(
    scope: Seq<char>,
    hs: Seq<(String, TokenHit)>,
    verbose: bool,
    order: Option<TokenSortBy>,
    limit: Option<u32>,
) -> Seq<Seq<char>> {
    shape_table(scope, hs, order, limit) + class_table(hs) + (if verbose && hs.len() > 0 {
        token_table(hs)
    } else {
        Seq::empty()
    }) + (if hs.len() == 0 {
        seq!["  (no tokens found)"@]
    } else {
        Seq::empty()
    })
}

pub(crate) fn dashes_exec(n: usize) -> (r: String)
    ensures
        r@ == dashes(n as nat),
{
    let mut r = String::new();
    let mut i: usize = 0;
    while i < n
        invariant
            i <= n,
            r@ == dashes(i as nat),
        decreases n - i,
    {
        r.append("-");
        proof {
            reveal_strlit("-");
        }
        assert(r@ =~= dashes((i + 1) as nat));
        i = i + 1;
    }
    r
}

/// The strings joined by `sep`.
pub(crate) fn join_strings(parts: &Vec<String>, sep: &str) -> (r: String)
    ensures
        r@ == join(string_views(parts@), sep@),
{
    let ghost sv = string_views(parts@);
    let mut out = String::new();
    let mut i: usize = 0;
    while i < parts.len()
        invariant
            i <= parts@.len(),
            sv == string_views(parts@),
            out@ == join(sv.take(i as int), sep@),
        decreases parts.len() - i,
    {
        if i > 0 {
            out.append(sep);
        }
        out.append(parts[i].as_str());
        proof {
            let t = sv.take(i + 1);
            assert(t.drop_last() == sv.take(i as int));
            assert(t.last() == parts@[i as int]@);
            if i == 0 {
                assert(join(t, sep@) == t[0]);
            }
        }
        i = i + 1;
    }
    assert(sv.take(parts.len() as int) == sv);
    out
}

fn examples_text_exec(ex: &Vec<String>) -> (r: String)
    ensures
        r@ == examples_text(string_views(ex@)),
{
    let sorted = sort_strings(crate::batch_dla::copy_strings(ex));
    join_strings(&sorted, ", ")
}

fn shape_cells_exec(a: &str, b: &str, c: &str, d: &str, e: &str) -> (r: String)
    ensures
        r@ == shape_cells(a@, b@, c@, d@, e@),
{
    let mut out = String::new();
    append_pad_right(&mut out, a, 12);
    out.append(" ");
    append_pad_left(&mut out, b, 10);
    out.append(" ");
    append_pad_left(&mut out, c, 12);
    out.append(" ");
    append_pad_left(&mut out, d, 12);
    out.append(" ");
    append_pad_right(&mut out, e, 24);
    out
}

fn class_cells_exec(a: &str, b: &str, c: &str, e: &str) -> (r: String)
    ensures
        r@ == class_cells(a@, b@, c@, e@),
{
    let mut out = String::new();
    append_pad_right(&mut out, a, 12);
    out.append(" ");
    append_pad_left(&mut out, b, 10);
    out.append(" ");
    append_pad_left(&mut out, c, 12);
    out.append(" ");
    append_pad_right(&mut out, e, 24);
    out
}

fn token_cells_exec(a: &str, b: &str, c: &str, d: &str, e: &str, f: &str) -> (r: String)
    ensures
        r@ == token_cells(a@, b@, c@, d@, e@, f@),
{
    let mut out = String::new();
    append_pad_right(&mut out, a, 24);
    out.append(" ");
    append_pad_right(&mut out, b, 12);
    out.append(" ");
    append_pad_right(&mut out, c, 10);
    out.append(" ");
    append_pad_right(&mut out, d, 8);
    out.append(" ");
    append_pad_left(&mut out, e, 10);
    out.append(" ");
    append_pad_left(&mut out, f, 10);
    out
}

fn shape_line_exec(r: &GroupRow) -> (s: String)
    ensures
        s@ == shape_line(r@),
{
    let b = format_number(r.distinct);
    let c = format_number(r.feature_hits);
    let d = format_number(r.entity_like);
    let e = examples_text_exec(&r.examples);
    shape_cells_exec(r.name.as_str(), b.as_str(), c.as_str(), d.as_str(), e.as_str())
}

fn class_line_exec(r: &GroupRow) -> (s: String)
    ensures
        s@ == class_line(r@),
{
    let b = format_number(r.distinct);
    let c = format_number(r.feature_hits);
    let e = examples_text_exec(&r.examples);
    class_cells_exec(r.name.as_str(), b.as_str(), c.as_str(), e.as_str())
}

fn token_line_exec(e: &(String, TokenHit)) -> (s: String)
    ensures
        s@ == token_line(*e),
{
    let tok: &str = if e.0.as_str().is_empty() {
        "∅"
    } else {
        e.0.as_str()
    };
    let kind: &str = match &e.1.kind {
        Some(k) => k.as_str(),
        None => "none",
    };
    let mut bands = String::new();
    push_char(&mut bands, if e.1.syntax_hits > 0 { 'S' } else { '-' });
    push_char(&mut bands, if e.1.knowledge_hits > 0 { 'K' } else { '-' });
    push_char(&mut bands, if e.1.output_hits > 0 { 'O' } else { '-' });
    assert(bands@ =~= bands_text(e.1));
    let hits = string_from_chars(u64_decimal(e.1.hits as u64).as_slice());
    let score = score_text_exec(e.1.max_score);
    token_cells_exec(tok, e.1.shape.as_str(), kind, bands.as_str(), hits.as_str(), score.as_str())
}

/// `SHOW TOKENS`: the shape table in the asked order and limit, the
/// entity-type table when some token names an entity, and, when asked for,
/// the first thirty tokens in order; or a note that there are no tokens.
/// The tokens come one entry per distinct token, in the order the
/// collection is walked.
pub fn render_token_summary(
    scope: String,
    token_hits: Vec<(String, TokenHit)>,
    verbose: bool,
    order_by: Option<TokenSortBy>,
    limit: Option<u32>,
) -> (out: Vec<String>)
    requires
        total_hits(token_hits@) <= usize::MAX,
        distinct_tokens(token_hits@),
    ensures
        string_views(out@) == summary_lines(scope@, token_hits@, verbose, order_by, limit),
{
    let ghost hs = token_hits@;
    let n = token_hits.len();
    let mut out: Vec<String> = Vec::new();
    let mut title = String::new();
    title.append("Token summary ");
    title.append(scope.as_str());
    title.append(" (");
    let count = format_number(n);
    title.append(count.as_str());
    title.append(" distinct top tokens):");
    out.push(title);
    out.push(shape_cells_exec("Shape", "Distinct", "FeatHits", "EntityLike", "Examples"));
    out.push(dashes_exec(76));
    let shapes = sort_rows_exec(collect_groups(&token_hits, false), order_by, false);
    let ghost shape_views = sort_rows(table_rows(hs, false), order_by, false);
    let shown: usize = match limit {
        Some(l) => if (l as usize) < shapes.len() {
            l as usize
        } else {
            shapes.len()
        },
        None => shapes.len(),
    };
    proof {
        assert(limited(shape_views, limit).len() == shown);
    }
    let ghost head = string_views(out@);
    let mut i: usize = 0;
    while i < shown
        invariant
            i <= shown,
            shown <= shapes@.len(),
            row_views(shapes@) == shape_views,
            shown == limited(shape_views, limit).len(),
            string_views(out@) == head + limited(shape_views, limit).take(i as int).map_values(
                |v: RowView| shape_line(v),
            ),
        decreases shown - i,
    {
        let line = shape_line_exec(&shapes[i]);
        proof {
            assert(shapes@[i as int]@ == shape_views[i as int]);
            assert(limited(shape_views, limit)[i as int] == shape_views[i as int]);
        }
        let ghost prev = out@;
        out.push(line);
        proof {
            let lim = limited(shape_views, limit);
            assert(string_views(out@) =~= string_views(prev).push(shape_line(shape_views[i as int])));
            assert(lim.take(i + 1).map_values(|v: RowView| shape_line(v)) =~= lim.take(
                i as int,
            ).map_values(|v: RowView| shape_line(v)).push(shape_line(lim[i as int])));
        }
        assert(string_views(out@) =~= head + limited(shape_views, limit).take(i + 1).map_values(
            |v: RowView| shape_line(v),
        ));
        i = i + 1;
    }
    proof {
        assert(limited(shape_views, limit).take(shown as int) == limited(shape_views, limit));
        reveal_strlit("Token summary ");
        reveal_strlit(" (");
        reveal_strlit(" distinct top tokens):");
        assert(string_views(out@) =~= shape_table(scope@, hs, order_by, limit));
    }
    let classes = sort_rows_exec(collect_groups(&token_hits, true), None, true);
    let ghost class_views = sort_rows(table_rows(hs, true), None, true);
    let ghost before_classes = string_views(out@);
    if classes.len() > 0 {
        out.push(String::new());
        out.push(owned("Entity-capable token classes:"));
        out.push(class_cells_exec("Type", "Distinct", "FeatHits", "Examples"));
        out.push(dashes_exec(62));
        let ghost head2 = string_views(out@);
        let mut j: usize = 0;
        while j < classes.len()
            invariant
                j <= classes@.len(),
                row_views(classes@) == class_views,
                string_views(out@) == head2 + class_views.take(j as int).map_values(
                    |v: RowView| class_line(v),
                ),
            decreases classes.len() - j,
        {
            let line = class_line_exec(&classes[j]);
            proof {
                assert(classes@[j as int]@ == class_views[j as int]);
            }
            let ghost prev = out@;
            out.push(line);
            proof {
                assert(string_views(out@) =~= string_views(prev).push(
                    class_line(class_views[j as int]),
                ));
                assert(class_views.take(j + 1).map_values(|v: RowView| class_line(v))
                    =~= class_views.take(j as int).map_values(|v: RowView| class_line(v)).push(
                    class_line(class_views[j as int]),
                ));
            }
            assert(string_views(out@) =~= head2 + class_views.take(j + 1).map_values(
                |v: RowView| class_line(v),
            ));
            j = j + 1;
        }
        assert(class_views.take(classes.len() as int) == class_views);
    }
    assert(string_views(out@) =~= before_classes + class_table(hs));
    let ghost before_tokens = string_views(out@);
    if verbose && n > 0 {
        out.push(String::new());
        out.push(owned("Top matching tokens:"));
        out.push(token_cells_exec("Token", "Shape", "EntityType", "Bands", "Features", "Max Score"));
        out.push(dashes_exec(82));
        let tokens = sort_tokens_exec(token_hits);
        let ghost tok_views = sort_tokens(hs);
        let listed: usize = if tokens.len() > 30 {
            30
        } else {
            tokens.len()
        };
        proof {
            assert(limited(tok_views, Some(30u32)).len() == listed);
        }
        let ghost head3 = string_views(out@);
        let mut k: usize = 0;
        while k < listed
            invariant
                k <= listed,
                listed <= tokens@.len(),
                tokens@ == tok_views,
                listed == limited(tok_views, Some(30u32)).len(),
                string_views(out@) == head3 + limited(tok_views, Some(30u32)).take(
                    k as int,
                ).map_values(|e: (String, TokenHit)| token_line(e)),
            decreases listed - k,
        {
            let line = token_line_exec(&tokens[k]);
            proof {
                assert(limited(tok_views, Some(30u32))[k as int] == tok_views[k as int]);
            }
            let ghost prev = out@;
            out.push(line);
            proof {
                let lim = limited(tok_views, Some(30u32));
                assert(string_views(out@) =~= string_views(prev).push(token_line(lim[k as int])));
                assert(lim.take(k + 1).map_values(|e: (String, TokenHit)| token_line(e))
                    =~= lim.take(k as int).map_values(|e: (String, TokenHit)| token_line(e)).push(
                    token_line(lim[k as int]),
                ));
            }
            assert(string_views(out@) =~= head3 + limited(tok_views, Some(30u32)).take(
                k + 1,
            ).map_values(|e: (String, TokenHit)| token_line(e)));
            k = k + 1;
        }
        assert(limited(tok_views, Some(30u32)).take(listed as int) == limited(
            tok_views,
            Some(30u32),
        ));
        assert(string_views(out@) =~= before_tokens + token_table(hs));
    }
    let ghost before_note = string_views(out@);
    if n == 0 {
        out.push(owned("  (no tokens found)"));
    }
    assert(string_views(out@) =~= before_note + (if hs.len() == 0 {
        seq!["  (no tokens found)"@]
    } else {
        Seq::<Seq<char>>::empty()
    }));
    out
}

// ───────────────────────── export ─────────────────────────

/// What `SHOW TOKENS ... EXPORT` gives: the CSV lines, or the rows that
/// the JSON export writes out (shape, counts and examples in order).
pub enum TokenExport {
    Csv(Vec<String>),
    Json(Vec<GroupRow>),
}

/// The shape rows an export lists: in the asked order and limit, each
/// with its examples in order.
pub open spec fn export_rows(
    hs: Seq<(String, TokenHit)>,
    order: Option<TokenSortBy>,
    limit: Option<u32>,
) -> Seq<RowView> {
    limited(sort_rows(table_rows(hs, false), order, false), limit).map_values(
        |v: RowView| export_view(v),
    )
}

/// A row with its examples in order.
pub open spec fn export_view(v: RowView) -> RowView {
    (v.0, v.1, v.2, v.3, sort_strs(v.4), v.5)
}

/// An example as a CSV field: each comma written `\,`.
pub open spec fn csv_escape(e: Seq<char>) -> Seq<char> {
    replace_all(e, ","@, "\\,"@)
}

/// The CSV line of an exported row.
pub open spec fn csv_line(v: RowView) -> Seq<char> {
    v.0 + ","@ + decimal(v.1) + ","@ + decimal(v.2) + ","@ + decimal(v.3) + ","@ + join(
        v.4.map_values(|e: Seq<char>| csv_escape(e)),
        ","@,
    )
}

/// The CSV export: a header, then a line per exported row.
pub open spec fn csv_lines(rows: Seq<RowView>) -> Seq<Seq<char>> {
    seq!["shape,distinct,feature_hits,entity_like,examples"@] + rows.map_values(
        |v: RowView| csv_line(v),
    )
}

fn csv_line_exec(r: &GroupRow) -> (s: String)
    ensures
        s@ == csv_line(r@),
{
    let mut out = owned(r.name.as_str());
    out.append(",");
    push_chars(&mut out, u64_decimal(r.distinct as u64).as_slice());
    out.append(",");
    push_chars(&mut out, u64_decimal(r.feature_hits as u64).as_slice());
    out.append(",");
    push_chars(&mut out, u64_decimal(r.entity_like as u64).as_slice());
    out.append(",");
    let ghost ex = string_views(r.examples@);
    let ghost esc = ex.map_values(|e: Seq<char>| csv_escape(e));
    let ghost start = out@;
    let mut i: usize = 0;
    proof {
        reveal_strlit(",");
        reveal_strlit("\\,");
    }
    while i < r.examples.len()
        invariant
            i <= r.examples@.len(),
            ex == string_views(r.examples@),
            esc == ex.map_values(|e: Seq<char>| csv_escape(e)),
            out@ == start + join(esc.take(i as int), ","@),
            ","@ == seq![','],
        decreases r.examples.len() - i,
    {
        if i > 0 {
            out.append(",");
        }
        let cs = crate::text::chars_of(r.examples[i].as_str());
        let escaped = crate::text::replace_str(cs.as_slice(), ",", "\\,");
        push_chars(&mut out, escaped.as_slice());
        proof {
            let t = esc.take(i + 1);
            assert(t.drop_last() == esc.take(i as int));
            assert(t.last() == csv_escape(ex[i as int]));
            if i == 0 {
                assert(join(t, ","@) == t[0]);
            }
        }
        i = i + 1;
    }
    assert(esc.take(r.examples.len() as int) == esc);
    out
}

/// A row with its examples in order.
fn with_sorted_examples(r: GroupRow) -> (s: GroupRow)
    ensures
        s@ == (r@.0, r@.1, r@.2, r@.3, sort_strs(r@.4), r@.5),
{
    let GroupRow { name, distinct, feature_hits, entity_like, examples, max_key } = r;
    GroupRow { name, distinct, feature_hits, entity_like, examples: sort_strings(examples), max_key }
}

/// `SHOW TOKENS ... EXPORT`: the shape rows in the asked order and limit,
/// with their examples in order; as CSV lines, or as the rows the JSON
/// export writes out.
pub fn export_token_summary(
    token_hits: Vec<(String, TokenHit)>,
    format: ExportFormat,
    verbose: bool,
    order_by: Option<TokenSortBy>,
    limit: Option<u32>,
) -> (r: TokenExport)
    requires
        total_hits(token_hits@) <= usize::MAX,
        distinct_tokens(token_hits@),
    ensures
        match r {
            TokenExport::Csv(lines) => format == ExportFormat::Csv && string_views(lines@)
                == csv_lines(export_rows(token_hits@, order_by, limit)),
            TokenExport::Json(rows) => format == ExportFormat::Json && row_views(rows@)
                == export_rows(token_hits@, order_by, limit),
        },
{
    let ghost hs = token_hits@;
    let mut sorted = sort_rows_exec(collect_groups(&token_hits, false), order_by, false);
    let ghost all = sort_rows(table_rows(hs, false), order_by, false);
    let shown: usize = match limit {
        Some(l) => if (l as usize) < sorted.len() {
            l as usize
        } else {
            sorted.len()
        },
        None => sorted.len(),
    };
    let ghost target = export_rows(hs, order_by, limit);
    proof {
        assert(limited(all, limit).len() == shown);
    }
    let mut rows: Vec<GroupRow> = Vec::new();
    let mut i: usize = 0;
    while i < shown
        invariant
            i <= shown,
            shown == target.len(),
            shown == limited(all, limit).len(),
            target == export_rows(hs, order_by, limit),
            all == sort_rows(table_rows(hs, false), order_by, false),
            i + sorted@.len() == all.len(),
            row_views(sorted@) == all.skip(i as int),
            row_views(rows@) == target.take(i as int),
        decreases shown - i,
    {
        let ghost before = sorted@;
        let x = sorted.remove(0);
        proof {
            assert(row_views(before)[0] == all.skip(i as int)[0]);
            assert(sorted@ == before.drop_first());
            assert forall|k: int| 0 <= k < sorted@.len() implies row_views(sorted@)[k] == all.skip(
                i + 1,
            )[k] by {
                assert(sorted@[k] == before[k + 1]);
                assert(row_views(before)[k + 1] == all.skip(i as int)[k + 1]);
            }
            assert(row_views(sorted@) =~= all.skip(i + 1));
            assert(limited(all, limit)[i as int] == all[i as int]);
        }
        let y = with_sorted_examples(x);
        let ghost prev = rows@;
        rows.push(y);
        proof {
            let v = all[i as int];
            assert(x@ == v);
            let lim = limited(all, limit);
            assert(lim[i as int] == v);
            assert(i < lim.len());
            assert(target[i as int] == export_view(lim[i as int]));
            assert(target[i as int] == (v.0, v.1, v.2, v.3, sort_strs(v.4), v.5));
            assert(row_views(rows@) =~= row_views(prev).push(y@));
            assert(target.take(i + 1) =~= target.take(i as int).push(target[i as int]));
        }
        i = i + 1;
    }
    assert(target.take(shown as int) == target);
    match format {
        ExportFormat::Json => TokenExport::Json(rows),
        ExportFormat::Csv => {
            let mut out: Vec<String> = Vec::new();
            out.push(owned("shape,distinct,feature_hits,entity_like,examples"));
            let ghost head = string_views(out@);
            let mut j: usize = 0;
            while j < rows.len()
                invariant
                    j <= rows@.len(),
                    row_views(rows@) == target,
                    string_views(out@) == head + target.take(j as int).map_values(
                        |v: RowView| csv_line(v),
                    ),
                decreases rows.len() - j,
            {
                let line = csv_line_exec(&rows[j]);
                let ghost prev = out@;
                out.push(line);
                proof {
                    assert(rows@[j as int]@ == target[j as int]);
                    assert(string_views(out@) =~= string_views(prev).push(csv_line(target[j as int])));
                    assert(target.take(j + 1).map_values(|v: RowView| csv_line(v)) =~= target.take(
                        j as int,
                    ).map_values(|v: RowView| csv_line(v)).push(csv_line(target[j as int])));
                }
                j = j + 1;
            }
            assert(target.take(rows.len() as int) == target);
            assert(string_views(out@) =~= csv_lines(target));
            TokenExport::Csv(out)
        },
    }
}

// ───────────────────────── laws of the row order ─────────────────────────

/// The rows are in table order.
pub open spec fn rows_sorted(s: Seq<RowView>, order: Option<TokenSortBy>, classes: bool) -> bool {
    forall|i: int, j: int|
        0 <= i < j < s.len() ==> row_le(#[trigger] s[i], #[trigger] s[j], order, classes)
}

proof fn lemma_row_le_total(a: RowView, b: RowView, order: Option<TokenSortBy>, classes: bool)
    ensures
        row_le(a, b, order, classes) || row_le(b, a, order, classes),
{
    lemma_lex_total(a.0, b.0);
}

proof fn lemma_row_le_trans(
    a: RowView,
    b: RowView,
    c: RowView,
    order: Option<TokenSortBy>,
    classes: bool,
)
    requires
        row_le(a, b, order, classes),
        row_le(b, c, order, classes),
    ensures
        row_le(a, c, order, classes),
{
    if lex_le(a.0, b.0) && lex_le(b.0, c.0) {
        lemma_lex_trans(a.0, b.0, c.0);
    }
}

proof fn lemma_insert_row(s: Seq<RowView>, x: RowView, order: Option<TokenSortBy>, classes: bool)
    requires
        rows_sorted(s, order, classes),
    ensures
        rows_sorted(insert_row(s, x, order, classes), order, classes),
        insert_row(s, x, order, classes).to_multiset() == s.to_multiset().insert(x),
        insert_row(s, x, order, classes).len() == s.len() + 1,
    decreases s.len(),
{
    broadcast use vstd::seq_lib::group_to_multiset_ensures;
    broadcast use vstd::multiset::group_multiset_axioms;

    let r = insert_row(s, x, order, classes);
    if s.len() == 0 {
        assert(r == seq![x]);
        assert(seq![x] == Seq::<RowView>::empty().push(x));
        vstd::seq_lib::to_multiset_build(Seq::<RowView>::empty(), x);
    } else if !row_le(s[0], x, order, classes) {
        lemma_row_le_total(s[0], x, order, classes);
        assert(r == s.insert(0, x));
        vstd::seq_lib::to_multiset_insert(s, 0, x);
        assert forall|i: int, j: int| 0 <= i < j < r.len() implies row_le(
            #[trigger] r[i],
            #[trigger] r[j],
            order,
            classes,
        ) by {
            if i == 0 {
                assert(r[j] == s[j - 1]);
                if j - 1 > 0 {
                    lemma_row_le_trans(x, s[0], s[j - 1], order, classes);
                }
            } else {
                assert(r[i] == s[i - 1] && r[j] == s[j - 1]);
            }
        }
    } else {
        let t = s.drop_first();
        assert forall|i: int, j: int| 0 <= i < j < t.len() implies row_le(
            #[trigger] t[i],
            #[trigger] t[j],
            order,
            classes,
        ) by {
            assert(t[i] == s[i + 1] && t[j] == s[j + 1]);
        }
        lemma_insert_row(t, x, order, classes);
        let rt = insert_row(t, x, order, classes);
        assert(r == seq![s[0]] + rt);
        assert forall|i: int, j: int| 0 <= i < j < r.len() implies row_le(
            #[trigger] r[i],
            #[trigger] r[j],
            order,
            classes,
        ) by {
            if i == 0 {
                assert(r[j] == rt[j - 1]);
                assert(rt.to_multiset().count(rt[j - 1]) > 0);
                assert((t.to_multiset().insert(x)).count(rt[j - 1]) > 0);
                if rt[j - 1] == x {
                } else {
                    assert(t.to_multiset().count(rt[j - 1]) > 0);
                    assert(t.contains(rt[j - 1]));
                    let k = choose|k: int| 0 <= k < t.len() && t[k] == rt[j - 1];
                    assert(s[k + 1] == t[k]);
                }
            } else {
                assert(r[i] == rt[i - 1] && r[j] == rt[j - 1]);
            }
        }
        assert(s == seq![s[0]] + t);
        vstd::seq_lib::lemma_multiset_commutative(seq![s[0]], rt);
        vstd::seq_lib::lemma_multiset_commutative(seq![s[0]], t);
        assert(r.to_multiset() == seq![s[0]].to_multiset().add(rt.to_multiset()));
        assert(s.to_multiset() == seq![s[0]].to_multiset().add(t.to_multiset()));
        assert(r.to_multiset() =~= s.to_multiset().insert(x));
    }
}

/// Law: a table lists its rows in table order (each row ranks at least as
/// high as the next, and rows that rank alike come by name), each row of
/// the groups exactly once.
pub proof fn lemma_sort_rows(s: Seq<RowView>, order: Option<TokenSortBy>, classes: bool)
    ensures
        rows_sorted(sort_rows(s, order, classes), order, classes),
        sort_rows(s, order, classes).to_multiset() == s.to_multiset(),
        sort_rows(s, order, classes).len() == s.len(),
    decreases s.len(),
{
    broadcast use vstd::seq_lib::group_to_multiset_ensures;

    if s.len() == 0 {
        assert(sort_rows(s, order, classes) == Seq::<RowView>::empty());
        assert(s == Seq::<RowView>::empty());
    } else {
        lemma_sort_rows(s.drop_last(), order, classes);
        lemma_insert_row(sort_rows(s.drop_last(), order, classes), s.last(), order, classes);
        assert(s == s.drop_last().push(s.last()));
        vstd::seq_lib::to_multiset_build(s.drop_last(), s.last());
    }
}

// ───────────────────────── laws of the token order ─────────────────────────

/// The tokens are in the order of the verbose listing.
pub open spec fn tokens_sorted(s: Seq<(String, TokenHit)>) -> bool {
    forall|i: int, j: int| 0 <= i < j < s.len() ==> token_le(#[trigger] s[i], #[trigger] s[j])
}

proof fn lemma_token_le_total(a: (String, TokenHit), b: (String, TokenHit))
    ensures
        token_le(a, b) || token_le(b, a),
{
    lemma_lex_total(a.0@, b.0@);
}

proof fn lemma_token_le_trans(a: (String, TokenHit), b: (String, TokenHit), c: (String, TokenHit))
    requires
        token_le(a, b),
        token_le(b, c),
        !is_nan_bits(a.1.max_score),
        !is_nan_bits(b.1.max_score),
        !is_nan_bits(c.1.max_score),
    ensures
        token_le(a, c),
{
    if lex_le(a.0@, b.0@) && lex_le(b.0@, c.0@) {
        lemma_lex_trans(a.0@, b.0@, c.0@);
    }
}

proof fn lemma_insert_token(s: Seq<(String, TokenHit)>, x: (String, TokenHit))
    requires
        tokens_sorted(s),
        !is_nan_bits(x.1.max_score),
        forall|i: int| 0 <= i < s.len() ==> !is_nan_bits(#[trigger] s[i].1.max_score),
    ensures
        tokens_sorted(insert_token(s, x)),
        insert_token(s, x).to_multiset() == s.to_multiset().insert(x),
        insert_token(s, x).len() == s.len() + 1,
    decreases s.len(),
{
    broadcast use vstd::seq_lib::group_to_multiset_ensures;
    broadcast use vstd::multiset::group_multiset_axioms;

    let r = insert_token(s, x);
    if s.len() == 0 {
        assert(r == seq![x]);
        assert(seq![x] == Seq::<(String, TokenHit)>::empty().push(x));
        vstd::seq_lib::to_multiset_build(Seq::<(String, TokenHit)>::empty(), x);
    } else if !token_le(s[0], x) {
        lemma_token_le_total(s[0], x);
        assert(r == s.insert(0, x));
        vstd::seq_lib::to_multiset_insert(s, 0, x);
        assert forall|i: int, j: int| 0 <= i < j < r.len() implies token_le(
            #[trigger] r[i],
            #[trigger] r[j],
        ) by {
            if i == 0 {
                assert(r[j] == s[j - 1]);
                if j - 1 > 0 {
                    lemma_token_le_trans(x, s[0], s[j - 1]);
                }
            } else {
                assert(r[i] == s[i - 1] && r[j] == s[j - 1]);
            }
        }
    } else {
        let t = s.drop_first();
        assert forall|i: int, j: int| 0 <= i < j < t.len() implies token_le(
            #[trigger] t[i],
            #[trigger] t[j],
        ) by {
            assert(t[i] == s[i + 1] && t[j] == s[j + 1]);
        }
        assert forall|i: int| 0 <= i < t.len() implies !is_nan_bits(#[trigger] t[i].1.max_score) by {
            assert(t[i] == s[i + 1]);
        }
        lemma_insert_token(t, x);
        let rt = insert_token(t, x);
        assert(r == seq![s[0]] + rt);
        assert forall|i: int, j: int| 0 <= i < j < r.len() implies token_le(
            #[trigger] r[i],
            #[trigger] r[j],
        ) by {
            if i == 0 {
                assert(r[j] == rt[j - 1]);
                assert(rt.to_multiset().count(rt[j - 1]) > 0);
                assert((t.to_multiset().insert(x)).count(rt[j - 1]) > 0);
                if rt[j - 1] == x {
                } else {
                    assert(t.to_multiset().count(rt[j - 1]) > 0);
                    assert(t.contains(rt[j - 1]));
                    let k = choose|k: int| 0 <= k < t.len() && t[k] == rt[j - 1];
                    assert(s[k + 1] == t[k]);
                }
            } else {
                assert(r[i] == rt[i - 1] && r[j] == rt[j - 1]);
            }
        }
        assert(s == seq![s[0]] + t);
        vstd::seq_lib::lemma_multiset_commutative(seq![s[0]], rt);
        vstd::seq_lib::lemma_multiset_commutative(seq![s[0]], t);
        assert(r.to_multiset() == seq![s[0]].to_multiset().add(rt.to_multiset()));
        assert(s.to_multiset() == seq![s[0]].to_multiset().add(t.to_multiset()));
        assert(r.to_multiset() =~= s.to_multiset().insert(x));
    }
}

/// Law: when no score is NaN, the verbose listing gives the tokens by
/// features, then score, both highest first, then by token, each token
/// exactly once.
pub proof fn lemma_sort_tokens(s: Seq<(String, TokenHit)>)
    requires
        forall|i: int| 0 <= i < s.len() ==> !is_nan_bits(#[trigger] s[i].1.max_score),
    ensures
        tokens_sorted(sort_tokens(s)),
        sort_tokens(s).to_multiset() == s.to_multiset(),
        sort_tokens(s).len() == s.len(),
    decreases s.len(),
{
    broadcast use vstd::seq_lib::group_to_multiset_ensures;

    if s.len() == 0 {
        assert(sort_tokens(s) == Seq::<(String, TokenHit)>::empty());
        assert(s == Seq::<(String, TokenHit)>::empty());
    } else {
        let d = s.drop_last();
        assert forall|i: int| 0 <= i < d.len() implies !is_nan_bits(#[trigger] d[i].1.max_score) by {
            assert(d[i] == s[i]);
        }
        lemma_sort_tokens(d);
        let sd = sort_tokens(d);
        assert forall|i: int| 0 <= i < sd.len() implies !is_nan_bits(
            #[trigger] sd[i].1.max_score,
        ) by {
            assert(sd.to_multiset().count(sd[i]) > 0);
            assert(d.to_multiset().count(sd[i]) > 0);
            assert(d.contains(sd[i]));
        }
        lemma_insert_token(sd, s.last());
        assert(s == d.push(s.last()));
        vstd::seq_lib::to_multiset_build(d, s.last());
    }
}

// ───────────────────────── filters ─────────────────────────

/// The `WHERE` filters of `SHOW TOKENS`: a token (or entity) to look for,
/// and a shape, an entity type and a band, each in lowercase.
#[derive(Debug, Default)]
pub struct TokenFilters {
    pub token_filter: Option<String>,
    pub shape_filter: Option<String>,
    pub type_filter: Option<String>,
    pub band_filter: Option<String>,
}

/// The position of the first condition on field `a` or field `b`.
pub open spec fn first_condition_either(cs: Seq<Condition>, a: Seq<char>, b: Seq<char>) -> Option<
    int,
>
    decreases cs.len(),
{
    if cs.len() == 0 {
        None
    } else if cs[0].field@ == a || cs[0].field@ == b {
        Some(0)
    } else {
        match first_condition_either(cs.drop_first(), a, b) {
            Some(i) => Some(i + 1),
            None => None,
        }
    }
}

/// The string of the first condition on field `a` or `b`; none when there
/// is no such condition or its value is not a string.
pub open spec fn filter_text(cs: Seq<Condition>, a: Seq<char>, b: Seq<char>) -> Option<Seq<char>> {
    match first_condition_either(cs, a, b) {
        Some(i) => match cs[i].value {
            Value::String(s) => Some(s@),
            _ => None,
        },
        None => None,
    }
}

/// The lowercase of a text that is there.
pub open spec fn lowered(t: Option<Seq<char>>) -> Option<Seq<char>> {
    match t {
        Some(s) => Some(str_lowercase(s)),
        None => None,
    }
}

/// The view of an optional string.
pub open spec fn opt_view(s: Option<String>) -> Option<Seq<char>> {
    match s {
        Some(x) => Some(x@),
        None => None,
    }
}

fn filter_text_exec(cs: &[Condition], a: &str, b: &str) -> (r: Option<String>)
    ensures
        opt_view(r) == filter_text(cs@, a@, b@),
{
    let mut i: usize = 0;
    assert(cs@.skip(0) == cs@);
    while i < cs.len()
        invariant
            i <= cs@.len(),
            first_condition_either(cs@, a@, b@) == match first_condition_either(
                cs@.skip(i as int),
                a@,
                b@,
            ) {
                Some(k) => Some(k + i),
                None => None::<int>,
            },
        decreases cs.len() - i,
    {
        let ghost rest = cs@.skip(i as int);
        assert(rest[0] == cs@[i as int]);
        if str_eq(cs[i].field.as_str(), a) || str_eq(cs[i].field.as_str(), b) {
            return match &cs[i].value {
                Value::String(s) => Some(s.clone()),
                _ => None,
            };
        }
        assert(rest.drop_first() == cs@.skip(i + 1));
        i = i + 1;
    }
    None
}

fn lowered_exec(t: Option<String>) -> (r: Option<String>)
    ensures
        opt_view(r) == lowered(opt_view(t)),
{
    match t {
        Some(s) => Some(lowercase(s.as_str())),
        None => None,
    }
}

/// Reads the filters of `SHOW TOKENS` from its conditions: the first
/// condition on `token` or `entity`, on `shape`, on `type` or `kind`, and
/// on `band`, each kept when its value is a string (all but the token in
/// lowercase).
pub fn parse_token_filters(conditions: &[Condition]) -> (r: TokenFilters)
    ensures
        opt_view(r.token_filter) == filter_text(conditions@, "token"@, "entity"@),
        opt_view(r.shape_filter) == lowered(filter_text(conditions@, "shape"@, "shape"@)),
        opt_view(r.type_filter) == lowered(filter_text(conditions@, "type"@, "kind"@)),
        opt_view(r.band_filter) == lowered(filter_text(conditions@, "band"@, "band"@)),
{
    TokenFilters {
        token_filter: filter_text_exec(conditions, "token", "entity"),
        shape_filter: lowered_exec(filter_text_exec(conditions, "shape", "shape")),
        type_filter: lowered_exec(filter_text_exec(conditions, "type", "kind")),
        band_filter: lowered_exec(filter_text_exec(conditions, "band", "band")),
    }
}

// ───────────────────────── grouped summaries ─────────────────────────

/// The scope of a summary of one layer.
pub open spec fn layer_scope(layer: nat) -> Seq<char> {
    "at layer "@ + decimal(layer)
}

/// The scope of a summary of one band.
pub open spec fn band_scope(name: Seq<char>, start: nat, end: nat) -> Seq<char> {
    "for "@ + name + " band (L"@ + decimal(start) + "-"@ + decimal(end) + ")"@
}

/// The scope of a summary of several layers.
pub open spec fn layers_scope(count: nat) -> Seq<char> {
    "across "@ + decimal(count) + " layers"@
}

/// `at layer {layer}`.
pub fn layer_scope_text(layer: u64) -> (r: String)
    ensures
        r@ == layer_scope(layer as nat),
{
    let mut r = owned("at layer ");
    push_chars(&mut r, u64_decimal(layer).as_slice());
    r
}

/// `for {name} band (L{start}-{end})`.
pub fn band_scope_text(name: &str, start: u64, end: u64) -> (r: String)
    ensures
        r@ == band_scope(name@, start as nat, end as nat),
{
    let mut r = owned("for ");
    r.append(name);
    r.append(" band (L");
    push_chars(&mut r, u64_decimal(start).as_slice());
    r.append("-");
    push_chars(&mut r, u64_decimal(end).as_slice());
    r.append(")");
    r
}

/// `across {count} layers`.
pub fn layers_scope_text(count: u64) -> (r: String)
    ensures
        r@ == layers_scope(count as nat),
{
    let mut r = owned("across ");
    push_chars(&mut r, u64_decimal(count).as_slice());
    r.append(" layers");
    r
}

/// The groups that found tokens.
pub open spec fn rendered_groups(gs: Seq<(String, Vec<(String, TokenHit)>)>) -> nat
    decreases gs.len(),
{
    if gs.len() == 0 {
        0
    } else {
        rendered_groups(gs.drop_last()) + if gs.last().1@.len() > 0 {
            1nat
        } else {
            0nat
        }
    }
}

/// The summaries of the groups that found tokens, in order, a blank line
/// between two.
pub open spec fn grouped_body(
    gs: Seq<(String, Vec<(String, TokenHit)>)>,
    verbose: bool,
    order: Option<TokenSortBy>,
    limit: Option<u32>,
) -> Seq<Seq<char>>
    decreases gs.len(),
{
    if gs.len() == 0 {
        Seq::empty()
    } else {
        let prev = grouped_body(gs.drop_last(), verbose, order, limit);
        let g = gs.last();
        if g.1@.len() == 0 {
            prev
        } else {
            prev + (if rendered_groups(gs.drop_last()) > 0 {
                seq![Seq::<char>::empty()]
            } else {
                Seq::empty()
            }) + summary_lines(g.0@, g.1@, verbose, order, limit)
        }
    }
}

/// The summary of each group that found tokens, and a last line counting
/// `skipped` groups that found none; or a note that no group found tokens.
pub open spec fn group_summaries(
    gs: Seq<(String, Vec<(String, TokenHit)>)>,
    skipped: nat,
    unit: Seq<char>,
    verbose: bool,
    order: Option<TokenSortBy>,
    limit: Option<u32>,
) -> Seq<Seq<char>> {
    if rendered_groups(gs) == 0 {
        seq!["  (no tokens found)"@]
    } else {
        grouped_body(gs, verbose, order, limit) + if skipped > 0 {
            seq![
                Seq::<char>::empty(),
                "Skipped "@ + decimal(skipped) + " empty "@ + unit + " summaries."@,
            ]
        } else {
            Seq::empty()
        }
    }
}

/// `SHOW TOKENS ... GROUP BY`: the summary of each group that found
/// tokens, and a last line counting the groups that found none; or a note
/// that no group found tokens.
pub open spec fn grouped_lines(
    gs: Seq<(String, Vec<(String, TokenHit)>)>,
    unit: Seq<char>,
    verbose: bool,
    order: Option<TokenSortBy>,
    limit: Option<u32>,
) -> Seq<Seq<char>> {
    group_summaries(gs, (gs.len() - rendered_groups(gs)) as nat, unit, verbose, order, limit)
}

proof fn lemma_rendered_groups_bound(gs: Seq<(String, Vec<(String, TokenHit)>)>)
    ensures
        rendered_groups(gs) <= gs.len(),
    decreases gs.len(),
{
    if gs.len() > 0 {
        lemma_rendered_groups_bound(gs.drop_last());
    }
}

/// The summaries of the groups that found tokens (`group_summaries`),
/// given each group's scope and tokens and how many groups to report as
/// skipped; `unit` names the groups (`layer` or `band`).
pub fn render_group_summaries(
    groups: Vec<(String, Vec<(String, TokenHit)>)>,
    skipped: u64,
    unit: &str,
    verbose: bool,
    order_by: Option<TokenSortBy>,
    limit: Option<u32>,
) -> (out: Vec<String>)
    requires
        forall|i: int| 0 <= i < groups@.len() ==> total_hits(#[trigger] groups@[i].1@) <= usize::MAX,
        forall|i: int| 0 <= i < groups@.len() ==> distinct_tokens(#[trigger] groups@[i].1@),
    ensures
        string_views(out@) == group_summaries(groups@, skipped as nat, unit@, verbose, order_by, limit),
{
    let ghost all = groups@;
    let n = groups.len();
    let mut rest = groups;
    let mut out: Vec<String> = Vec::new();
    let mut rendered: usize = 0;
    let mut i: usize = 0;
    assert(all.take(0) =~= Seq::<(String, Vec<(String, TokenHit)>)>::empty());
    while rest.len() > 0
        invariant
            n == all.len(),
            i + rest@.len() == n,
            rest@ == all.skip(i as int),
            forall|k: int| 0 <= k < all.len() ==> total_hits(#[trigger] all[k].1@) <= usize::MAX,
            forall|k: int| 0 <= k < all.len() ==> distinct_tokens(#[trigger] all[k].1@),
            rendered == rendered_groups(all.take(i as int)),
            rendered <= i,
            string_views(out@) == grouped_body(all.take(i as int), verbose, order_by, limit),
        decreases rest.len(),
    {
        let (scope, hits) = rest.remove(0);
        proof {
            assert(all.take(i + 1).drop_last() == all.take(i as int));
            assert(all.take(i + 1).last() == all[i as int]);
            assert(rest@ =~= all.skip(i + 1));
            assert(hits@ == all[i as int].1@);
        }
        if hits.len() > 0 {
            let ghost prev = string_views(out@);
            if rendered > 0 {
                out.push(String::new());
            }
            let ghost mid = string_views(out@);
            let lines = render_token_summary(scope, hits, verbose, order_by, limit);
            let ghost added = string_views(lines@);
            let mut lines = lines;
            out.append(&mut lines);
            proof {
                assert(string_views(out@) =~= mid + added);
                assert(mid =~= prev + (if rendered > 0 {
                    seq![Seq::<char>::empty()]
                } else {
                    Seq::<Seq<char>>::empty()
                }));
            }
            rendered = rendered + 1;
        }
        i = i + 1;
    }
    assert(all.take(n as int) == all);
    if rendered == 0 {
        let mut note: Vec<String> = Vec::new();
        note.push(owned("  (no tokens found)"));
        assert(string_views(note@) =~= seq!["  (no tokens found)"@]);
        return note;
    }
    if skipped > 0 {
        let ghost prev = string_views(out@);
        out.push(String::new());
        let mut line = owned("Skipped ");
        push_chars(&mut line, u64_decimal(skipped).as_slice());
        line.append(" empty ");
        line.append(unit);
        line.append(" summaries.");
        out.push(line);
        assert(string_views(out@) =~= prev + seq![
            Seq::<char>::empty(),
            "Skipped "@ + decimal(skipped as nat) + " empty "@ + unit@ + " summaries."@,
        ]);
    }
    out
}

fn count_empty_groups(groups: &Vec<(String, Vec<(String, TokenHit)>)>) -> (r: u64)
    ensures
        r == groups@.len() - rendered_groups(groups@),
{
    let mut empty: u64 = 0;
    let mut i: usize = 0;
    while i < groups.len()
        invariant
            i <= groups@.len(),
            empty == i - rendered_groups(groups@.take(i as int)),
            rendered_groups(groups@.take(i as int)) <= i,
        decreases groups.len() - i,
    {
        assert(groups@.take(i + 1).drop_last() == groups@.take(i as int));
        assert(groups@.take(i + 1).last() == groups@[i as int]);
        if groups[i].1.len() == 0 {
            empty = empty + 1;
        }
        i = i + 1;
    }
    assert(groups@.take(groups.len() as int) == groups@);
    empty
}

/// The summaries of `SHOW TOKENS ... GROUP BY` (`grouped_lines`), given
/// each group's scope and tokens; `unit` names the groups (`layer` or
/// `band`).
pub fn show_tokens_grouped(
    groups: Vec<(String, Vec<(String, TokenHit)>)>,
    unit: &str,
    verbose: bool,
    order_by: Option<TokenSortBy>,
    limit: Option<u32>,
) -> (out: Vec<String>)
    requires
        forall|i: int| 0 <= i < groups@.len() ==> total_hits(#[trigger] groups@[i].1@) <= usize::MAX,
        forall|i: int| 0 <= i < groups@.len() ==> distinct_tokens(#[trigger] groups@[i].1@),
    ensures
        string_views(out@) == grouped_lines(groups@, unit@, verbose, order_by, limit),
{
    let skipped = count_empty_groups(&groups);
    render_group_summaries(groups, skipped, unit, verbose, order_by, limit)
}

// ───────────────────────── the server's token groups ─────────────────────────

fn copy_opt(s: &Option<String>) -> (r: Option<String>)
    ensures
        opt_view(r) == opt_view(*s),
{
    match s {
        Some(x) => Some(x.clone()),
        None => None,
    }
}

fn lowered_opt(s: &Option<String>) -> (r: Option<String>)
    ensures
        opt_view(r) == lowered(opt_view(*s)),
{
    match s {
        Some(x) => Some(lowercase(x.as_str())),
        None => None,
    }
}

/// The filters a token query asks for: the token as given, the shape,
/// type and band in lowercase.
pub fn build_filters(p: &crate::server::TokensParams) -> (r: TokenFilters)
    ensures
        opt_view(r.token_filter) == opt_view(p.token_filter),
        opt_view(r.shape_filter) == lowered(opt_view(p.shape_filter)),
        opt_view(r.type_filter) == lowered(opt_view(p.type_filter)),
        opt_view(r.band_filter) == lowered(opt_view(p.band_filter)),
{
    TokenFilters {
        token_filter: copy_opt(&p.token_filter),
        shape_filter: lowered_opt(&p.shape_filter),
        type_filter: lowered_opt(&p.type_filter),
        band_filter: lowered_opt(&p.band_filter),
    }
}

/// One group of the server's token summary: its label and its tokens in
/// the order of the verbose listing, ready to be written as JSON.
pub struct TokenGroup {
    pub label: String,
    pub token_hits: Vec<(String, TokenHit)>,
    pub token_count: usize,
}

/// A group of the server's token summary: the tokens in the order the
/// client's verbose listing uses (`sort_tokens`), and how many there are.
pub fn describe_group(label: String, token_hits: Vec<(String, TokenHit)>) -> (r: TokenGroup)
    ensures
        r.label@ == label@,
        r.token_hits@ == sort_tokens(token_hits@),
        r.token_count == token_hits@.len(),
{
    let n = token_hits.len();
    let sorted = sort_tokens_exec(token_hits);
    proof {
        lemma_sort_tokens_len(token_hits@);
    }
    TokenGroup { label, token_hits: sorted, token_count: n }
}

proof fn lemma_insert_token_len(s: Seq<(String, TokenHit)>, x: (String, TokenHit))
    ensures
        insert_token(s, x).len() == s.len() + 1,
    decreases s.len(),
{
    if s.len() > 0 && token_le(s[0], x) {
        lemma_insert_token_len(s.drop_first(), x);
    }
}

proof fn lemma_sort_tokens_len(s: Seq<(String, TokenHit)>)
    ensures
        sort_tokens(s).len() == s.len(),
    decreases s.len(),
{
    if s.len() > 0 {
        lemma_sort_tokens_len(s.drop_last());
        lemma_insert_token_len(sort_tokens(s.drop_last()), s.last());
    }
}

// ───────────────────────── the remote path ─────────────────────────

/// The string of the first condition on field `a` or `b` whose value is a
/// string (conditions on those fields with other values are passed over).
pub open spec fn first_text_either(cs: Seq<Condition>, a: Seq<char>, b: Seq<char>) -> Option<
    Seq<char>,
>
    decreases cs.len(),
{
    if cs.len() == 0 {
        None
    } else {
        match cs[0].value {
            Value::String(s) if cs[0].field@ == a || cs[0].field@ == b => Some(s@),
            _ => first_text_either(cs.drop_first(), a, b),
        }
    }
}

fn first_text_either_exec(cs: &[Condition], a: &str, b: &str) -> (r: Option<String>)
    ensures
        opt_view(r) == first_text_either(cs@, a@, b@),
{
    let mut i: usize = 0;
    assert(cs@.skip(0) == cs@);
    while i < cs.len()
        invariant
            i <= cs@.len(),
            first_text_either(cs@, a@, b@) == first_text_either(cs@.skip(i as int), a@, b@),
        decreases cs.len() - i,
    {
        let ghost rest = cs@.skip(i as int);
        assert(rest[0] == cs@[i as int]);
        assert(rest.drop_first() == cs@.skip(i + 1));
        if str_eq(cs[i].field.as_str(), a) || str_eq(cs[i].field.as_str(), b) {
            match &cs[i].value {
                Value::String(s) => {
                    return Some(s.clone());
                },
                _ => {},
            }
        }
        i = i + 1;
    }
    None
}

/// The layer a query names, when it names one.
pub open spec fn layer_pair(layer: Option<u32>) -> Seq<(Seq<char>, Seq<char>)> {
    match layer {
        Some(n) => seq![("layer"@, decimal(n as nat))],
        None => Seq::empty(),
    }
}

/// The grouping a query asks for, when it asks for one.
pub open spec fn group_pair(group_by: Option<TokenGroupBy>) -> Seq<(Seq<char>, Seq<char>)> {
    match group_by {
        Some(TokenGroupBy::Layer) => seq![("group_by"@, "layer"@)],
        Some(TokenGroupBy::Band) => seq![("group_by"@, "band"@)],
        None => Seq::empty(),
    }
}

/// The query a remote `SHOW TOKENS` sends, in order: the layer, the
/// grouping, and the token, shape, type and band filters, each when there
/// is one (all but the token in lowercase).
pub open spec fn token_query(
    layer: Option<u32>,
    cs: Seq<Condition>,
    group_by: Option<TokenGroupBy>,
) -> Seq<(Seq<char>, Seq<char>)> {
    layer_pair(layer) + group_pair(group_by) + filter_pair(
        "token_filter"@,
        first_text_either(cs, "token"@, "entity"@),
        false,
    ) + filter_pair("shape_filter"@, first_text_either(cs, "shape"@, "shape"@), true) + filter_pair(
        "type_filter"@,
        first_text_either(cs, "type"@, "kind"@),
        true,
    ) + filter_pair("band_filter"@, first_text_either(cs, "band"@, "band"@), true)
}

/// The pair a filter adds to a query, when there is a filter.
pub open spec fn filter_pair(key: Seq<char>, v: Option<Seq<char>>, lower: bool) -> Seq<
    (Seq<char>, Seq<char>),
> {
    match v {
        Some(x) => seq![(key, if lower { str_lowercase(x) } else { x })],
        None => Seq::empty(),
    }
}

/// The views of a list of string pairs.
pub open spec fn pair_views(v: Seq<(String, String)>) -> Seq<(Seq<char>, Seq<char>)> {
    v.map_values(|p: (String, String)| (p.0@, p.1@))
}

pub(crate) fn push_pair(q: &mut Vec<(String, String)>, k: &str, v: String)
    ensures
        pair_views(final(q)@) == pair_views(old(q)@).push((k@, v@)),
{
    let ghost before = q@;
    let ghost vv = v@;
    q.push((owned(k), v));
    assert(pair_views(q@) =~= pair_views(before).push((k@, vv)));
}

fn push_filter(q: &mut Vec<(String, String)>, key: &str, v: Option<String>, lower: bool)
    ensures
        pair_views(final(q)@) == pair_views(old(q)@) + filter_pair(key@, opt_view(v), lower),
{
    let ghost before = pair_views(q@);
    match v {
        Some(x) => {
            let value = if lower {
                lowercase(x.as_str())
            } else {
                x
            };
            push_pair(q, key, value);
        },
        None => {},
    }
    assert(pair_views(q@) =~= before + filter_pair(key@, opt_view(v), lower));
}

/// The query a remote `SHOW TOKENS` sends (`token_query`).
pub fn token_query_params(
    layer: Option<u32>,
    conditions: &[Condition],
    group_by: Option<TokenGroupBy>,
) -> (q: Vec<(String, String)>)
    ensures
        pair_views(q@) == token_query(layer, conditions@, group_by),
{
    let mut q = query_head(layer, group_by);
    let ghost head = pair_views(q@);
    push_filter(&mut q, "token_filter", first_text_either_exec(conditions, "token", "entity"), false);
    push_filter(&mut q, "shape_filter", first_text_either_exec(conditions, "shape", "shape"), true);
    push_filter(&mut q, "type_filter", first_text_either_exec(conditions, "type", "kind"), true);
    push_filter(&mut q, "band_filter", first_text_either_exec(conditions, "band", "band"), true);
    proof {
        let cs = conditions@;
        let t = filter_pair("token_filter"@, first_text_either(cs, "token"@, "entity"@), false);
        let sh = filter_pair("shape_filter"@, first_text_either(cs, "shape"@, "shape"@), true);
        let ty = filter_pair("type_filter"@, first_text_either(cs, "type"@, "kind"@), true);
        let b = filter_pair("band_filter"@, first_text_either(cs, "band"@, "band"@), true);
        assert(pair_views(q@) == head + t + sh + ty + b);
    }
    q
}

fn query_head(layer: Option<u32>, group_by: Option<TokenGroupBy>) -> (q: Vec<(String, String)>)
    ensures
        pair_views(q@) == layer_pair(layer) + group_pair(group_by),
{
    let mut q: Vec<(String, String)> = Vec::new();
    if let Some(l) = layer {
        push_pair(&mut q, "layer", string_from_chars(u64_decimal(l as u64).as_slice()));
    }
    match group_by {
        Some(TokenGroupBy::Layer) => push_pair(&mut q, "group_by", owned("layer")),
        Some(TokenGroupBy::Band) => push_pair(&mut q, "group_by", owned("band")),
        None => {},
    }
    assert(pair_views(q@) =~= layer_pair(layer) + group_pair(group_by));
    q
}

/// The shape a remote row names: one of the known shapes, else `other`.
pub open spec fn known_shape(name: Seq<char>) -> Seq<char> {
    if name == "empty"@ || name == "lower"@ || name == "title"@ || name == "upper"@ || name
        == "mixed"@ || name == "number"@ || name == "alnum"@ || name == "punct"@ || name
        == "symbol"@ {
        name
    } else {
        "other"@
    }
}

/// The shape a remote row names (`known_shape`).
pub fn shape_from_name(name: &str) -> (r: String)
    ensures
        r@ == known_shape(name@),
{
    if str_eq(name, "empty") || str_eq(name, "lower") || str_eq(name, "title") || str_eq(
        name,
        "upper",
    ) || str_eq(name, "mixed") || str_eq(name, "number") || str_eq(name, "alnum") || str_eq(
        name,
        "punct",
    ) || str_eq(name, "symbol") {
        owned(name)
    } else {
        owned("other")
    }
}

/// The entity type a remote row names, when it is one of the known types
/// (`title`, `mixed`, `acronym`).
pub fn kind_from_str(s: &str) -> (r: Option<String>)
    ensures
        opt_view(r) == if s@ == "title"@ || s@ == "mixed"@ || s@ == "acronym"@ {
            Some(s@)
        } else {
            None
        },
{
    if str_eq(s, "title") || str_eq(s, "mixed") || str_eq(s, "acronym") {
        Some(owned(s))
    } else {
        None
    }
}

/// What a remote `SHOW TOKENS` prints from the server's groups: without a
/// grouping, the summary of the first group (an empty one across no layers
/// when there is none); with one, each group that found tokens and the
/// server's count of skipped groups.
pub open spec fn remote_token_lines(
    groups: Seq<(String, Vec<(String, TokenHit)>)>,
    skipped: nat,
    group_by: Option<TokenGroupBy>,
    verbose: bool,
    order: Option<TokenSortBy>,
    limit: Option<u32>,
) -> Seq<Seq<char>> {
    match group_by {
        None => if groups.len() == 0 {
            summary_lines("across 0 layers"@, Seq::empty(), verbose, order, limit)
        } else {
            summary_lines(groups[0].0@, groups[0].1@, verbose, order, limit)
        },
        Some(TokenGroupBy::Layer) => group_summaries(groups, skipped, "layer"@, verbose, order, limit),
        Some(TokenGroupBy::Band) => group_summaries(groups, skipped, "band"@, verbose, order, limit),
    }
}

/// Renders a remote `SHOW TOKENS` from the server's groups
/// (`remote_token_lines`) with the local formatters.
pub fn render_remote_tokens(
    groups: Vec<(String, Vec<(String, TokenHit)>)>,
    skipped: u64,
    group_by: Option<TokenGroupBy>,
    verbose: bool,
    order_by: Option<TokenSortBy>,
    limit: Option<u32>,
) -> (out: Vec<String>)
    requires
        forall|i: int| 0 <= i < groups@.len() ==> total_hits(#[trigger] groups@[i].1@) <= usize::MAX,
        forall|i: int| 0 <= i < groups@.len() ==> distinct_tokens(#[trigger] groups@[i].1@),
    ensures
        string_views(out@) == remote_token_lines(groups@, skipped as nat, group_by, verbose, order_by, limit),
{
    match group_by {
        None => {
            let mut groups = groups;
            if groups.len() == 0 {
                proof {
                    reveal_strlit("across 0 layers");
                }
                render_token_summary(owned("across 0 layers"), Vec::new(), verbose, order_by, limit)
            } else {
                let ghost g0 = groups@[0];
                let (label, hits) = groups.remove(0);
                assert(hits@ == g0.1@);
                render_token_summary(label, hits, verbose, order_by, limit)
            }
        },
        Some(TokenGroupBy::Layer) => render_group_summaries(groups, skipped, "layer", verbose, order_by, limit),
        Some(TokenGroupBy::Band) => render_group_summaries(groups, skipped, "band", verbose, order_by, limit),
    }
}

proof fn lemma_group_absent(hs: Seq<(String, TokenHit)>, by_kind: bool, g: Seq<char>)
    requires
        !groups_in(hs, by_kind).contains(g),
    ensures
        group_distinct(hs, by_kind, g) == 0,
        group_hits(hs, by_kind, g) == 0,
        group_entity_like(hs, by_kind, g) == 0,
        group_examples(hs, by_kind, g) == Seq::<Seq<char>>::empty(),
        group_max_key(hs, by_kind, g) == zero_key(),
    decreases hs.len(),
{
    if hs.len() > 0 {
        let d = groups_in(hs.drop_last(), by_kind);
        assert(!d.contains(g)) by {
            if d.contains(g) {
                let q = choose|q: int| 0 <= q < d.len() && d[q] == g;
                match group_key(hs.last(), by_kind) {
                    Some(h) => {
                        if !d.contains(h) {
                            assert(d.push(h)[q] == g);
                        }
                    },
                    None => {},
                }
            }
        }
        lemma_group_absent(hs.drop_last(), by_kind, g);
        if in_group(hs.last(), by_kind, g) {
            assert(groups_in(hs, by_kind).contains(g)) by {
                if d.contains(g) {
                } else {
                    assert(d.push(g)[d.len() as int] == g);
                }
            }
        }
    }
}

/// Whether no token occurs twice among the hits (`distinct_tokens`): the
/// test a caller makes before `render_token_summary` and
/// `export_token_summary`.
pub fn tokens_distinct(hits: &Vec<(String, TokenHit)>) -> (r: bool)
    ensures
        r == distinct_tokens(hits@),
{
    let mut j: usize = 0;
    while j < hits.len()
        invariant
            j <= hits@.len(),
            forall|a: int, b: int| 0 <= a < b < j ==> (#[trigger] hits@[a]).0@ != (#[trigger] hits@[b]).0@,
        decreases hits.len() - j,
    {
        let mut i: usize = 0;
        while i < j
            invariant
                i <= j < hits@.len(),
                forall|a: int| 0 <= a < i ==> (#[trigger] hits@[a]).0@ != hits@[j as int].0@,
            decreases j - i,
        {
            if crate::lql::str_eq(hits[i].0.as_str(), hits[j].0.as_str()) {
                assert(!distinct_tokens(hits@)) by {
                    assert(hits@[i as int].0@ == hits@[j as int].0@);
                }
                return false;
            }
            i = i + 1;
        }
        j = j + 1;
    }
    true
}


// ───────────────────────── laws of the table order by field ─────────────────────────

/// Law: the rows of a shape table come in the order asked for, read off
/// the rows themselves: more feature hits first when no order is asked
/// for; more distinct tokens first for `SORT BY distinct`; more
/// entity-like tokens first for `SORT BY entity_like`; a higher best score
/// first for `SORT BY max_score`; and by name alone for `SORT BY shape`.
/// Rows that tie come by name.
pub proof fn lemma_shape_rows_order(s: Seq<RowView>, order: Option<TokenSortBy>)
    ensures
        forall|i: int, j: int|
            0 <= i < j < sort_rows(s, order, false).len() ==> {
                let a = #[trigger] sort_rows(s, order, false)[i];
                let b = #[trigger] sort_rows(s, order, false)[j];
                match order {
                    None => a.2 > b.2 || (a.2 == b.2 && lex_le(a.0, b.0)),
                    Some(TokenSortBy::Distinct) => a.1 > b.1 || (a.1 == b.1 && lex_le(a.0, b.0)),
                    Some(TokenSortBy::EntityLike) => a.3 > b.3 || (a.3 == b.3 && lex_le(a.0, b.0)),
                    Some(TokenSortBy::MaxScore) => a.5 > b.5 || (a.5 == b.5 && lex_le(a.0, b.0)),
                    Some(TokenSortBy::Shape) => lex_le(a.0, b.0),
                }
            },
{
    lemma_sort_rows(s, order, false);
    let r = sort_rows(s, order, false);
    assert forall|i: int, j: int| 0 <= i < j < r.len() implies row_le(
        #[trigger] r[i],
        #[trigger] r[j],
        order,
        false,
    ) by {}
}

/// Law: the rows of an entity-type table come with more feature hits
/// first, then more distinct tokens, then by name.
pub proof fn lemma_class_rows_order(s: Seq<RowView>, order: Option<TokenSortBy>)
    ensures
        forall|i: int, j: int|
            0 <= i < j < sort_rows(s, order, true).len() ==> {
                let a = #[trigger] sort_rows(s, order, true)[i];
                let b = #[trigger] sort_rows(s, order, true)[j];
                a.2 > b.2 || (a.2 == b.2 && (a.1 > b.1 || (a.1 == b.1 && lex_le(a.0, b.0))))
            },
{
    lemma_sort_rows(s, order, true);
}

} // verus!

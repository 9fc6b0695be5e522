//! Character-level helpers shared by the text-producing parts of the library:
//! conversion between `String` and character sequences, Unicode whitespace,
//! trimming, splitting on a separator and decimal rendering of integers.

use vstd::prelude::*;

verus! {

/// Appends one character to a `String` (`String::push`).
#[verifier::external_body]
pub(crate) fn push_char(s: &mut String, c: char)
    ensures
        final(s)@ == old(s)@.push(c),
{
    s.push(c);
}

/// The characters of a string slice, in order.
pub fn chars_of(s: &str) -> (v: Vec<char>)
    ensures
        v@ == s@,
{
    let mut v: Vec<char> = Vec::new();
    for c in it: s.chars()
        invariant
            it.seq() == s@,
            v@ == s@.take(it.index() as int),
    {
        v.push(c);
    }
    assert(v@ == s@);
    v
}

/// Appends a run of characters to a `String`.
pub fn push_chars(out: &mut String, cs: &[char])
    ensures
        final(out)@ == old(out)@ + cs@,
{
    let ghost start = out@;
    let mut i: usize = 0;
    while i < cs.len()
        invariant
            i <= cs.len(),
            out@ == start + cs@.take(i as int),
        decreases cs.len() - i,
    {
        push_char(out, cs[i]);
        i = i + 1;
        assert(cs@.take(i as int) == cs@.take(i - 1) + seq![cs@[i - 1]]);
    }
    assert(cs@.take(cs.len() as int) == cs@);
}

/// A `String` holding exactly the given characters.
pub fn string_from_chars(cs: &[char]) -> (s: String)
    ensures
        s@ == cs@,
{
    let mut s = String::new();
    push_chars(&mut s, cs);
    s
}

/// An owned copy of a string slice.
pub fn owned(s: &str) -> (r: String)
    ensures
        r@ == s@,
{
    let cs = chars_of(s);
    string_from_chars(cs.as_slice())
}

/// Unicode `White_Space`, the property behind `char::is_whitespace`.
pub open spec fn is_ws(c: char) -> bool {
    let u = c as u32;
    ||| 0x09 <= u <= 0x0D
    ||| u == 0x20
    ||| u == 0x85
    ||| u == 0xA0
    ||| u == 0x1680
    ||| 0x2000 <= u <= 0x200A
    ||| u == 0x2028
    ||| u == 0x2029
    ||| u == 0x202F
    ||| u == 0x205F
    ||| u == 0x3000
}

/// Executable `is_ws`.
pub fn char_is_ws(c: char) -> (b: bool)
    ensures
        b == is_ws(c),
{
    let u = c as u32;
    (0x09 <= u && u <= 0x0D) || u == 0x20 || u == 0x85 || u == 0xA0 || u == 0x1680 || (0x2000 <= u
        && u <= 0x200A) || u == 0x2028 || u == 0x2029 || u == 0x202F || u == 0x205F || u == 0x3000
}

/// Number of leading whitespace characters of `s`.
pub open spec fn leading_ws(s: Seq<char>) -> nat
    decreases s.len(),
{
    if s.len() > 0 && is_ws(s[0]) {
        1 + leading_ws(s.drop_first())
    } else {
        0
    }
}

/// Number of trailing whitespace characters of `s`.
pub open spec fn trailing_ws(s: Seq<char>) -> nat
    decreases s.len(),
{
    if s.len() > 0 && is_ws(s.last()) {
        1 + trailing_ws(s.drop_last())
    } else {
        0
    }
}

/// `s` without leading whitespace (`str::trim_start`).
pub open spec fn trim_start(s: Seq<char>) -> Seq<char> {
    s.skip(leading_ws(s) as int)
}

/// `s` without trailing whitespace (`str::trim_end`).
pub open spec fn trim_end(s: Seq<char>) -> Seq<char> {
    s.take(s.len() - trailing_ws(s))
}

/// `s` without leading or trailing whitespace (`str::trim`).
pub open spec fn trim(s: Seq<char>) -> Seq<char> {
    trim_end(trim_start(s))
}

proof fn lemma_leading_ws(s: Seq<char>)
    ensures
        leading_ws(s) <= s.len(),
        forall|i: int| 0 <= i < leading_ws(s) ==> is_ws(#[trigger] s[i]),
        leading_ws(s) < s.len() ==> !is_ws(s[leading_ws(s) as int]),
    decreases s.len(),
{
    if s.len() > 0 && is_ws(s[0]) {
        lemma_leading_ws(s.drop_first());
        assert forall|i: int| 0 <= i < leading_ws(s) implies is_ws(#[trigger] s[i]) by {
            if i > 0 {
                assert(s[i] == s.drop_first()[i - 1]);
            }
        }
    }
}

proof fn lemma_trailing_ws(s: Seq<char>)
    ensures
        trailing_ws(s) <= s.len(),
        forall|i: int| s.len() - trailing_ws(s) <= i < s.len() ==> is_ws(#[trigger] s[i]),
        trailing_ws(s) < s.len() ==> !is_ws(s[s.len() - trailing_ws(s) - 1]),
    decreases s.len(),
{
    if s.len() > 0 && is_ws(s.last()) {
        lemma_trailing_ws(s.drop_last());
        assert forall|i: int| s.len() - trailing_ws(s) <= i < s.len() implies is_ws(
            #[trigger] s[i],
        ) by {
            if i < s.len() - 1 {
                assert(s[i] == s.drop_last()[i]);
            }
        }
    }
}

/// A run of whitespace of length `k` at the front is exactly `leading_ws`.
proof fn lemma_leading_ws_exact(s: Seq<char>, k: int)
    requires
        0 <= k <= s.len(),
        forall|i: int| 0 <= i < k ==> is_ws(#[trigger] s[i]),
        k == s.len() || !is_ws(s[k]),
    ensures
        leading_ws(s) == k,
    decreases k,
{
    if k > 0 {
        assert forall|i: int| 0 <= i < k - 1 implies is_ws(#[trigger] s.drop_first()[i]) by {
            assert(s.drop_first()[i] == s[i + 1]);
        }
        if k < s.len() {
            assert(s.drop_first()[k - 1] == s[k]);
        }
        lemma_leading_ws_exact(s.drop_first(), k - 1);
    }
}

/// A run of whitespace of length `k` at the back is exactly `trailing_ws`.
proof fn lemma_trailing_ws_exact(s: Seq<char>, k: int)
    requires
        0 <= k <= s.len(),
        forall|i: int| s.len() - k <= i < s.len() ==> is_ws(#[trigger] s[i]),
        k == s.len() || !is_ws(s[s.len() - k - 1]),
    ensures
        trailing_ws(s) == k,
    decreases k,
{
    if k > 0 {
        let t = s.drop_last();
        assert forall|i: int| t.len() - (k - 1) <= i < t.len() implies is_ws(#[trigger] t[i]) by {
            assert(t[i] == s[i]);
        }
        if k < s.len() {
            assert(t[t.len() - (k - 1) - 1] == s[s.len() - k - 1]);
        }
        lemma_trailing_ws_exact(t, k - 1);
    }
}

/// The bounds `(start, end)` of `trim(cs@)` inside `cs`.
pub fn trim_bounds(cs: &[char]) -> (r: (usize, usize))
    ensures
        r.0 <= r.1 <= cs@.len(),
        cs@.subrange(r.0 as int, r.1 as int) == trim(cs@),
{
    let mut start: usize = 0;
    while start < cs.len() && char_is_ws(cs[start])
        invariant
            start <= cs.len(),
            forall|i: int| 0 <= i < start ==> is_ws(#[trigger] cs@[i]),
        decreases cs.len() - start,
    {
        start = start + 1;
    }
    proof {
        lemma_leading_ws_exact(cs@, start as int);
    }
    let ghost rest = cs@.skip(start as int);
    let mut end: usize = cs.len();
    while end > start && char_is_ws(cs[end - 1])
        invariant
            start <= end <= cs.len(),
            rest == cs@.skip(start as int),
            forall|i: int| end <= i < cs.len() ==> is_ws(#[trigger] cs@[i]),
        decreases end,
    {
        end = end - 1;
    }
    proof {
        let k = rest.len() - (end - start);
        assert forall|i: int| rest.len() - k <= i < rest.len() implies is_ws(#[trigger] rest[i]) by {
            assert(rest[i] == cs@[i + start]);
        }
        if k < rest.len() {
            assert(rest[rest.len() - k - 1] == cs@[end - 1]);
        }
        lemma_trailing_ws_exact(rest, k);
        assert(cs@.subrange(start as int, end as int) == rest.take(rest.len() - k));
    }
    (start, end)
}

/// `trim` on a character slice, as a new vector.
pub fn trim_chars(cs: &[char]) -> (r: Vec<char>)
    ensures
        r@ == trim(cs@),
{
    let (a, b) = trim_bounds(cs);
    slice_to_vec(cs, a, b)
}

/// `str::trim`: `s` without leading and trailing whitespace.
pub fn trim_str(s: &str) -> (r: String)
    ensures
        r@ == trim(s@),
{
    let cs = chars_of(s);
    let t = trim_chars(cs.as_slice());
    string_from_chars(t.as_slice())
}

/// A copy of `cs[a..b]`.
pub fn slice_to_vec(cs: &[char], a: usize, b: usize) -> (r: Vec<char>)
    requires
        a <= b <= cs@.len(),
    ensures
        r@ == cs@.subrange(a as int, b as int),
{
    let mut r: Vec<char> = Vec::new();
    let mut i = a;
    while i < b
        invariant
            a <= i <= b,
            b <= cs@.len(),
            r@ == cs@.subrange(a as int, i as int),
        decreases b - i,
    {
        r.push(cs[i]);
        i = i + 1;
    }
    r
}

/// Index of the first `sep` in `s` at or after position 0, or `s.len()`.
pub open spec fn find_char(s: Seq<char>, sep: char) -> nat
    decreases s.len(),
{
    if s.len() == 0 {
        0
    } else if s[0] == sep {
        0
    } else {
        1 + find_char(s.drop_first(), sep)
    }
}

/// The pieces of `s` between occurrences of `sep` (`str::split` with a
/// character pattern): always at least one piece.
pub open spec fn split_on(s: Seq<char>, sep: char) -> Seq<Seq<char>>
    decreases s.len(),
{
    let k = find_char(s, sep);
    if k >= s.len() {
        seq![s]
    } else {
        seq![s.take(k as int)] + split_on(s.skip((k + 1) as int), sep)
    }
}

proof fn lemma_find_char(s: Seq<char>, sep: char)
    ensures
        find_char(s, sep) <= s.len(),
        forall|i: int| 0 <= i < find_char(s, sep) ==> #[trigger] s[i] != sep,
        find_char(s, sep) < s.len() ==> s[find_char(s, sep) as int] == sep,
    decreases s.len(),
{
    if s.len() > 0 && s[0] != sep {
        lemma_find_char(s.drop_first(), sep);
        assert forall|i: int| 0 <= i < find_char(s, sep) implies #[trigger] s[i] != sep by {
            if i > 0 {
                assert(s[i] == s.drop_first()[i - 1]);
            }
        }
    }
}

proof fn lemma_find_char_exact(s: Seq<char>, sep: char, k: int)
    requires
        0 <= k <= s.len(),
        forall|i: int| 0 <= i < k ==> #[trigger] s[i] != sep,
        k == s.len() || s[k] == sep,
    ensures
        find_char(s, sep) == k,
    decreases k,
{
    if k > 0 {
        assert forall|i: int| 0 <= i < k - 1 implies #[trigger] s.drop_first()[i] != sep by {
            assert(s.drop_first()[i] == s[i + 1]);
        }
        if k < s.len() {
            assert(s.drop_first()[k - 1] == s[k]);
        }
        lemma_find_char_exact(s.drop_first(), sep, k - 1);
    }
}

/// The pieces of `cs@` between occurrences of `sep`, as in `split_on`.
pub fn split_chars(cs: &[char], sep: char) -> (r: Vec<Vec<char>>)
    ensures
        r@.len() == split_on(cs@, sep).len(),
        forall|i: int| 0 <= i < r@.len() ==> (#[trigger] r@[i])@ == split_on(cs@, sep)[i],
{
    let mut r: Vec<Vec<char>> = Vec::new();
    let mut start: usize = 0;
    let mut i: usize = 0;
    let ghost mut done: Seq<Seq<char>> = Seq::empty();
    assert(cs@.skip(0) == cs@);
    assert(done + split_on(cs@, sep) == split_on(cs@, sep));
    while i < cs.len()
        invariant
            start <= i <= cs.len(),
            r@.len() == done.len(),
            forall|j: int| 0 <= j < r@.len() ==> (#[trigger] r@[j])@ == done[j],
            forall|j: int| start <= j < i ==> #[trigger] cs@[j] != sep,
            done + split_on(cs@.skip(start as int), sep) == split_on(cs@, sep),
        decreases cs.len() - i,
    {
        if cs[i] == sep {
            let piece = slice_to_vec(cs, start, i);
            proof {
                let rest = cs@.skip(start as int);
                assert forall|j: int| 0 <= j < i - start implies #[trigger] rest[j] != sep by {
                    assert(rest[j] == cs@[j + start]);
                }
                lemma_find_char_exact(rest, sep, i - start);
                assert(rest.take(i - start) == piece@);
                assert(rest.skip(i - start + 1) == cs@.skip(i + 1));
                assert(split_on(rest, sep) == seq![piece@] + split_on(cs@.skip(i + 1), sep));
                assert(done.push(piece@) + split_on(cs@.skip(i + 1), sep) == done + split_on(
                    rest,
                    sep,
                ));
                done = done.push(piece@);
            }
            r.push(piece);
            start = i + 1;
        }
        i = i + 1;
    }
    let last = slice_to_vec(cs, start, cs.len());
    proof {
        let rest = cs@.skip(start as int);
        assert forall|j: int| 0 <= j < rest.len() implies #[trigger] rest[j] != sep by {
            assert(rest[j] == cs@[j + start]);
        }
        lemma_find_char_exact(rest, sep, rest.len() as int);
        assert(last@ == rest);
        assert(split_on(rest, sep) == seq![last@]);
        done = done.push(last@);
    }
    r.push(last);
    r
}

/// Decimal digits of `n`, most significant first, without leading zeros
/// (`"0"` for zero).
pub open spec fn decimal(n: nat) -> Seq<char>
    decreases n,
{
    if n < 10 {
        seq![digit_char(n)]
    } else {
        decimal(n / 10).push(digit_char(n % 10))
    }
}

/// The ASCII digit for `d < 10`.
pub open spec fn digit_char(d: nat) -> char {
    ((d + 48) as u32) as char
}

/// The character of a decimal digit.
pub fn digit_to_char(d: u64) -> (c: char)
    requires
        d < 10,
    ensures
        c == digit_char(d as nat),
{
    if d == 0 {
        '0'
    } else if d == 1 {
        '1'
    } else if d == 2 {
        '2'
    } else if d == 3 {
        '3'
    } else if d == 4 {
        '4'
    } else if d == 5 {
        '5'
    } else if d == 6 {
        '6'
    } else if d == 7 {
        '7'
    } else if d == 8 {
        '8'
    } else {
        '9'
    }
}

/// Renders `n` in decimal (`u64::to_string`).
pub fn u64_decimal(n: u64) -> (r: Vec<char>)
    ensures
        r@ == decimal(n as nat),
    decreases n,
{
    let c = digit_to_char(n % 10);
    if n < 10 {
        let mut r = Vec::new();
        r.push(c);
        r
    } else {
        let mut r = u64_decimal(n / 10);
        r.push(c);
        r
    }
}

/// ASCII upper-casing of one character (`char::to_ascii_uppercase`).
pub open spec fn ascii_upper(c: char) -> char {
    if 'a' <= c <= 'z' {
        ((c as u32 - 32) as u32) as char
    } else {
        c
    }
}

/// Executable `ascii_upper`.
pub fn char_ascii_upper(c: char) -> (r: char)
    ensures
        r == ascii_upper(c),
{
    if 'a' <= c && c <= 'z' {
        let u = ((c as u32) - 32) as u8;
        u as char
    } else {
        c
    }
}

/// Whether two character sequences are equal.
pub fn chars_eq(a: &[char], b: &[char]) -> (r: bool)
    ensures
        r == (a@ == b@),
{
    if a.len() != b.len() {
        return false;
    }
    let mut i: usize = 0;
    while i < a.len()
        invariant
            a.len() == b.len(),
            i <= a.len(),
            forall|j: int| 0 <= j < i ==> a@[j] == b@[j],
        decreases a.len() - i,
    {
        if a[i] != b[i] {
            return false;
        }
        i = i + 1;
    }
    assert(a@ == b@);
    true
}

/// Whether `s` starts with `pat`.
pub open spec fn starts_with(s: Seq<char>, pat: Seq<char>) -> bool {
    pat.len() <= s.len() && s.take(pat.len() as int) == pat
}

/// `s` with every non-overlapping occurrence of the non-empty `pat`,
/// scanning from the left, replaced by `rep` (`str::replace`).
pub open spec fn replace_all(s: Seq<char>, pat: Seq<char>, rep: Seq<char>) -> Seq<char>
    recommends
        pat.len() > 0,
    decreases s.len(),
{
    if s.len() == 0 || pat.len() == 0 {
        s
    } else if starts_with(s, pat) {
        rep + replace_all(s.skip(pat.len() as int), pat, rep)
    } else {
        seq![s[0]] + replace_all(s.drop_first(), pat, rep)
    }
}

/// Whether `cs[i..]` starts with `pat`.
pub fn starts_with_at(cs: &[char], i: usize, pat: &[char]) -> (r: bool)
    requires
        i <= cs@.len(),
    ensures
        r == starts_with(cs@.skip(i as int), pat@),
{
    if cs.len() - i < pat.len() {
        return false;
    }
    let mut k: usize = 0;
    while k < pat.len()
        invariant
            i + pat@.len() <= cs.len(),
            k <= pat@.len(),
            forall|j: int| 0 <= j < k ==> cs@[i + j] == pat@[j],
        decreases pat.len() - k,
    {
        if cs[i + k] != pat[k] {
            assert(cs@.skip(i as int).take(pat@.len() as int)[k as int] != pat@[k as int]);
            return false;
        }
        k = k + 1;
    }
    assert(cs@.skip(i as int).take(pat@.len() as int) == pat@);
    true
}

/// `replace_all` on characters.
pub fn replace_chars(cs: &[char], pat: &[char], rep: &[char]) -> (r: Vec<char>)
    requires
        pat@.len() > 0,
    ensures
        r@ == replace_all(cs@, pat@, rep@),
{
    let mut out: Vec<char> = Vec::new();
    let mut i: usize = 0;
    assert(cs@.skip(0) == cs@);
    while i < cs.len()
        invariant
            pat@.len() > 0,
            i <= cs@.len(),
            out@ + replace_all(cs@.skip(i as int), pat@, rep@) == replace_all(cs@, pat@, rep@),
        decreases cs.len() - i,
    {
        let ghost rest = cs@.skip(i as int);
        if starts_with_at(cs, i, pat) {
            let mut k: usize = 0;
            let ghost before = out@;
            while k < rep.len()
                invariant
                    k <= rep@.len(),
                    out@ == before + rep@.take(k as int),
                decreases rep.len() - k,
            {
                out.push(rep[k]);
                k = k + 1;
                assert(rep@.take(k as int) == rep@.take(k - 1).push(rep@[k - 1]));
            }
            assert(rep@.take(rep@.len() as int) == rep@);
            assert(rest.skip(pat@.len() as int) == cs@.skip(i + pat@.len()));
            assert(out@ + replace_all(cs@.skip(i + pat@.len()), pat@, rep@) == before + (rep@
                + replace_all(rest.skip(pat@.len() as int), pat@, rep@)));
            i = i + pat.len();
        } else {
            let ghost before = out@;
            out.push(cs[i]);
            assert(rest.drop_first() == cs@.skip(i + 1));
            assert(rest[0] == cs@[i as int]);
            assert(out@ + replace_all(cs@.skip(i + 1), pat@, rep@) == before + (seq![rest[0]]
                + replace_all(rest.drop_first(), pat@, rep@)));
            i = i + 1;
        }
    }
    assert(cs@.skip(i as int) == Seq::<char>::empty());
    assert(out@ + Seq::<char>::empty() == out@);
    out
}

/// `replace_chars` with string slice patterns.
pub fn replace_str(cs: &[char], pat: &str, rep: &str) -> (r: Vec<char>)
    requires
        pat@.len() > 0,
    ensures
        r@ == replace_all(cs@, pat@, rep@),
{
    let p = chars_of(pat);
    let q = chars_of(rep);
    replace_chars(cs, p.as_slice(), q.as_slice())
}

/// Whether `c` is an ASCII decimal digit.
pub open spec fn is_digit(c: char) -> bool {
    '0' <= c <= '9'
}

/// The value of a run of ASCII decimal digits.
pub open spec fn digits_value(s: Seq<char>) -> nat
    decreases s.len(),
{
    if s.len() == 0 {
        0
    } else {
        digits_value(s.drop_last()) * 10 + (s.last() as u32 - '0' as u32) as nat
    }
}

/// Whether every character of `s` is an ASCII digit.
pub open spec fn all_digits(s: Seq<char>) -> bool {
    forall|i: int| 0 <= i < s.len() ==> is_digit(#[trigger] s[i])
}

/// `s` without one leading `+`, if it has one.
pub open spec fn unsigned_body(s: Seq<char>) -> Seq<char> {
    if s.len() > 0 && s[0] == '+' {
        s.drop_first()
    } else {
        s
    }
}

/// What `str::parse::<usize>` gives: an optional `+` followed by at least
/// one ASCII digit and nothing else, whose value fits in `usize`.
pub open spec fn parse_usize_spec(s: Seq<char>) -> Option<usize> {
    let body = unsigned_body(s);
    if body.len() > 0 && all_digits(body) && digits_value(body) <= usize::MAX {
        Some(digits_value(body) as usize)
    } else {
        None
    }
}

proof fn lemma_digits_value_mono(s: Seq<char>, k: int)
    requires
        0 <= k <= s.len(),
        forall|i: int| 0 <= i < s.len() ==> is_digit(#[trigger] s[i]),
    ensures
        digits_value(s.take(k)) <= digits_value(s),
    decreases s.len() - k,
{
    if k < s.len() {
        assert(s.drop_last().take(k) == s.take(k));
        assert forall|i: int| 0 <= i < s.drop_last().len() implies is_digit(
            #[trigger] s.drop_last()[i],
        ) by {
            assert(s.drop_last()[i] == s[i]);
        }
        lemma_digits_value_mono(s.drop_last(), k);
        assert(is_digit(s.last()));
    } else {
        assert(s.take(k) == s);
    }
}

/// `str::parse::<usize>` on characters.
pub fn parse_usize(cs: &[char]) -> (r: Option<usize>)
    ensures
        r == parse_usize_spec(cs@),
{
    let start: usize = if cs.len() > 0 && cs[0] == '+' {
        1
    } else {
        0
    };
    let ghost body = unsigned_body(cs@);
    assert(body == cs@.skip(start as int));
    if start == cs.len() {
        return None;
    }
    let mut i: usize = start;
    while i < cs.len()
        invariant
            start <= i <= cs.len(),
            body == cs@.skip(start as int),
            body == unsigned_body(cs@),
            forall|j: int| start <= j < i ==> is_digit(#[trigger] cs@[j]),
        decreases cs.len() - i,
    {
        if !('0' <= cs[i] && cs[i] <= '9') {
            assert(!is_digit(body[i - start]));
            return None;
        }
        i = i + 1;
    }
    assert forall|j: int| 0 <= j < body.len() implies is_digit(#[trigger] body[j]) by {
        assert(body[j] == cs@[j + start]);
    }
    let mut v: usize = 0;
    i = start;
    while i < cs.len()
        invariant
            start <= i <= cs.len(),
            body == cs@.skip(start as int),
            body == unsigned_body(cs@),
            body.len() > 0,
            forall|j: int| 0 <= j < body.len() ==> is_digit(#[trigger] body[j]),
            v as nat == digits_value(body.take(i - start)),
        decreases cs.len() - i,
    {
        assert(body[i - start] == cs@[i as int]);
        assert(is_digit(body[i - start]));
        let d = (cs[i] as u32 - '0' as u32) as usize;
        let ghost t = body.take(i - start + 1);
        assert(t.drop_last() == body.take(i - start));
        assert(t.last() == cs@[i as int]);
        if v > (usize::MAX - d) / 10 {
            proof {
                assert(digits_value(t) > usize::MAX) by (nonlinear_arith)
                    requires
                        v > (usize::MAX - d) / 10,
                        digits_value(t) == v * 10 + d,
                        d < 10,
                ;
                lemma_digits_value_mono(body, i - start + 1);
            }
            return None;
        }
        assert(v * 10 + d <= usize::MAX) by (nonlinear_arith)
            requires
                v <= (usize::MAX - d) / 10,
                d < 10,
        ;
        v = v * 10 + d;
        i = i + 1;
    }
    assert(body.take(body.len() as int) == body);
    Some(v)
}

/// Whether a character slice spells the string `s`.
pub fn chars_eq_str(cs: &[char], s: &str) -> (r: bool)
    ensures
        r == (cs@ == s@),
{
    let t = chars_of(s);
    chars_eq(cs, t.as_slice())
}

/// `split_on` always yields at least one piece.
pub proof fn lemma_split_nonempty(s: Seq<char>, sep: char)
    ensures
        split_on(s, sep).len() >= 1,
    decreases s.len(),
{
    lemma_find_char(s, sep);
    let k = find_char(s, sep);
    if k < s.len() {
        lemma_split_nonempty(s.skip((k + 1) as int), sep);
    }
}

/// The trimmed pieces that are not empty, in order.
pub open spec fn nonempty_trimmed(pieces: Seq<Seq<char>>) -> Seq<Seq<char>>
    decreases pieces.len(),
{
    if pieces.len() == 0 {
        Seq::empty()
    } else if trim(pieces.last()).len() > 0 {
        nonempty_trimmed(pieces.drop_last()).push(trim(pieces.last()))
    } else {
        nonempty_trimmed(pieces.drop_last())
    }
}

/// The pieces of `s` between occurrences of `sep`, each trimmed, the empty
/// ones dropped (`split`, `trim`, then a filter on emptiness).
pub fn split_trimmed_nonempty(s: &str, sep: char) -> (r: Vec<String>)
    ensures
        crate::lql::string_views(r@) == nonempty_trimmed(split_on(s@, sep)),
{
    let cs = chars_of(s);
    let pieces = split_chars(cs.as_slice(), sep);
    let ghost ps = split_on(s@, sep);
    let mut r: Vec<String> = Vec::new();
    let mut i: usize = 0;
    while i < pieces.len()
        invariant
            i <= pieces@.len(),
            pieces@.len() == ps.len(),
            forall|j: int| 0 <= j < pieces@.len() ==> (#[trigger] pieces@[j])@ == ps[j],
            crate::lql::string_views(r@) == nonempty_trimmed(ps.take(i as int)),
        decreases pieces.len() - i,
    {
        let t = trim_chars(pieces[i].as_slice());
        let ghost before = r@;
        proof {
            let tk = ps.take(i + 1);
            assert(tk.drop_last() == ps.take(i as int));
            assert(tk.last() == pieces@[i as int]@);
        }
        if t.len() > 0 {
            let piece = string_from_chars(t.as_slice());
            r.push(piece);
            assert(crate::lql::string_views(r@) == crate::lql::string_views(before).push(piece@));
        }
        i = i + 1;
    }
    assert(ps.take(pieces.len() as int) == ps);
    r
}

/// What `format!("{:?}", s)` gives for a string slice.
pub uninterp spec fn str_debug(s: Seq<char>) -> Seq<char>;

/// `format!("{:?}", s)`: `std`'s `Debug` rendering of a string slice (in
/// double quotes, with escapes). The contract names the result; what the
/// escapes are is left to `std`.
#[verifier::external_body]
pub(crate) fn debug_str(s: &str) -> (r: String)
    ensures
        r@ == str_debug(s@),
{
    format!("{:?}", s)
}

/// What `str::to_lowercase` gives for a string: its Unicode lowercase.
pub uninterp spec fn str_lowercase(s: Seq<char>) -> Seq<char>;

/// `str::to_lowercase`: the string in Unicode lowercase. The contract names
/// the result; the case mapping itself is left to `std`.
#[verifier::external_body]
pub(crate) fn lowercase(s: &str) -> (r: String)
    ensures
        r@ == str_lowercase(s@),
{
    s.to_lowercase()
}

/// Splitting `a`, a separator and `b` gives the pieces of `a`, then those
/// of `b`.
pub proof fn lemma_split_concat(a: Seq<char>, b: Seq<char>, sep: char)
    ensures
        split_on(a + seq![sep] + b, sep) == split_on(a, sep) + split_on(b, sep),
    decreases a.len(),
{
    let s = a + seq![sep] + b;
    lemma_find_char(a, sep);
    let k = find_char(a, sep);
    if k < a.len() {
        lemma_find_char_exact(s, sep, k as int);
        assert(s.take(k as int) =~= a.take(k as int));
        assert(s.skip((k + 1) as int) =~= a.skip((k + 1) as int) + seq![sep] + b);
        lemma_split_concat(a.skip((k + 1) as int), b, sep);
        assert(split_on(a, sep) == seq![a.take(k as int)] + split_on(a.skip((k + 1) as int), sep));
        assert(split_on(s, sep) =~= split_on(a, sep) + split_on(b, sep));
    } else {
        assert(s[a.len() as int] == sep);
        assert forall|i: int| 0 <= i < a.len() implies #[trigger] s[i] != sep by {
            assert(s[i] == a[i]);
        }
        lemma_find_char_exact(s, sep, a.len() as int);
        assert(s.take(a.len() as int) =~= a);
        assert(s.skip((a.len() + 1) as int) =~= b);
        assert(split_on(a, sep) == seq![a]);
        assert(split_on(s, sep) =~= split_on(a, sep) + split_on(b, sep));
    }
}

/// A string without the separator is one piece.
pub proof fn lemma_split_whole(s: Seq<char>, sep: char)
    requires
        !s.contains(sep),
    ensures
        split_on(s, sep) == seq![s],
{
    assert forall|i: int| 0 <= i < s.len() implies #[trigger] s[i] != sep by {
        if s[i] == sep {
            assert(s.contains(sep));
        }
    }
    lemma_find_char_exact(s, sep, s.len() as int);
}

/// `s` has no whitespace at either end.
pub open spec fn is_trimmed(s: Seq<char>) -> bool {
    s.len() == 0 || (!is_ws(s[0]) && !is_ws(s.last()))
}

/// Trimming a string with no whitespace at either end, or with spaces in
/// front of one, gives the string.
pub proof fn lemma_trim_padded(s: Seq<char>, pad: nat)
    requires
        is_trimmed(s),
        s.len() > 0,
    ensures
        trim(Seq::new(pad, |i: int| ' ') + s) == s,
{
    let p = Seq::new(pad, |i: int| ' ') + s;
    assert forall|i: int| 0 <= i < pad implies is_ws(#[trigger] p[i]) by {}
    assert(p[pad as int] == s[0]);
    lemma_leading_ws_exact(p, pad as int);
    let t = p.skip(pad as int);
    assert(t =~= s);
    assert(t[t.len() - 1] == s.last());
    lemma_trailing_ws_exact(t, 0);
    assert(t.take(t.len() as int) =~= t);
}

/// The text of a number reads back as it.
pub proof fn lemma_decimal_digits(n: nat)
    ensures
        decimal(n).len() > 0,
        all_digits(decimal(n)),
        digits_value(decimal(n)) == n,
        is_trimmed(decimal(n)),
    decreases n,
{
    if n < 10 {
        let d = decimal(n);
        assert(d.drop_last() =~= Seq::<char>::empty());
        assert(digit_char(n) as u32 == (n + 48) as u32);
        assert(('0' as u32) == 48);
        assert(d.last() == digit_char(n));
        assert(digits_value(d.drop_last()) == 0);
        assert(digits_value(d) == digits_value(d.drop_last()) * 10 + (d.last() as u32 - '0' as u32) as nat);
    } else {
        lemma_decimal_digits(n / 10);
        let d = decimal(n);
        let q = decimal(n / 10);
        assert(d.drop_last() =~= q);
        assert(digit_char(n % 10) as u32 == (n % 10 + 48) as u32);
        assert(('0' as u32) == 48);
        assert(d.last() == digit_char(n % 10));
        assert(n == (n / 10) * 10 + n % 10) by (nonlinear_arith);
        assert(digits_value(d) == digits_value(q) * 10 + (d.last() as u32 - '0' as u32) as nat);
        assert forall|i: int| 0 <= i < d.len() implies is_digit(#[trigger] d[i]) by {
            if i < q.len() {
                assert(d[i] == q[i]);
            }
        }
        assert(d[0] == q[0]);
    }
}

/// The text of a number, trimmed, parses back as the number.
pub proof fn lemma_parse_decimal(n: usize)
    ensures
        parse_usize_spec(trim(decimal(n as nat))) == Some(n),
{
    lemma_decimal_digits(n as nat);
    let d = decimal(n as nat);
    lemma_leading_ws_exact(d, 0);
    lemma_trailing_ws_exact(d, 0);
    assert(d.skip(0) =~= d);
    assert(d.take(d.len() as int) =~= d);
    assert(d[0] != '+');
}


// ───────────────────────── replacing dot-terminated words ─────────────────────────

/// `s` holds no `.`.
pub open spec fn no_dot(s: Seq<char>) -> bool {
    forall|i: int| 0 <= i < s.len() ==> s[i] != '.'
}

/// `u` ends with `p`.
pub open spec fn ends_with(u: Seq<char>, p: Seq<char>) -> bool {
    p.len() <= u.len() && u.skip(u.len() - p.len()) == p
}

/// What replacing the pattern `p.` by `rep` makes of the word `u` followed
/// by a `.`: the word with its ending `p` and the dot replaced, if it ends
/// with `p`, else the word and its dot unchanged.
pub open spec fn dotted_word_replaced(u: Seq<char>, p: Seq<char>, rep: Seq<char>) -> Seq<char> {
    if ends_with(u, p) {
        u.take(u.len() - p.len()) + rep
    } else {
        u.push('.')
    }
}

/// Replacing a pattern that ends in its only `.` leaves text without a `.`
/// unchanged.
pub proof fn lemma_replace_without_dot(t: Seq<char>, p: Seq<char>, rep: Seq<char>)
    requires
        no_dot(t),
    ensures
        replace_all(t, p.push('.'), rep) == t,
    decreases t.len(),
{
    let pat = p.push('.');
    if t.len() > 0 {
        if starts_with(t, pat) {
            assert(t.take(pat.len() as int)[p.len() as int] == t[p.len() as int]);
        }
        let d = t.drop_first();
        assert forall|i: int| 0 <= i < d.len() implies d[i] != '.' by {
            assert(d[i] == t[i + 1]);
        }
        lemma_replace_without_dot(d, p, rep);
        assert(seq![t[0]] + d =~= t);
    }
}

/// Replacing a dot-terminated pattern `p.` (with no other `.`) in a word
/// `u`, its `.` and a rest `t` replaces in the word and its dot alone, then
/// in the rest: no occurrence reaches across the dot.
pub proof fn lemma_replace_dotted_word(u: Seq<char>, t: Seq<char>, p: Seq<char>, rep: Seq<char>)
    requires
        no_dot(u),
        no_dot(p),
    ensures
        replace_all(u.push('.') + t, p.push('.'), rep) == dotted_word_replaced(u, p, rep)
            + replace_all(t, p.push('.'), rep),
    decreases u.len(),
{
    let pat = p.push('.');
    let x = u.push('.') + t;
    assert(x[u.len() as int] == '.');
    if starts_with(x, pat) {
        let w = x.take(pat.len() as int);
        assert(w == pat);
        if p.len() < u.len() {
            assert(w[p.len() as int] == x[p.len() as int]);
            assert(x[p.len() as int] == u[p.len() as int]);
        }
        if u.len() < p.len() {
            assert(w[u.len() as int] == x[u.len() as int]);
            assert(pat[u.len() as int] == p[u.len() as int]);
        }
        assert(p.len() == u.len());
        assert forall|i: int| 0 <= i < u.len() implies u[i] == p[i] by {
            assert(w[i] == x[i]);
            assert(x[i] == u[i]);
            assert(pat[i] == p[i]);
        }
        assert(u =~= p);
        assert(u.skip(0) =~= u);
        assert(u.take(0) + rep =~= rep);
        assert(x.skip(pat.len() as int) =~= t);
    } else if u.len() == 0 {
        if p.len() == 0 {
            assert(x.take(pat.len() as int) =~= pat);
        }
        assert(!ends_with(u, p));
        assert(x.drop_first() =~= t);
        assert(seq![x[0]] =~= u.push('.'));
    } else {
        let u1 = u.drop_first();
        assert forall|i: int| 0 <= i < u1.len() implies u1[i] != '.' by {
            assert(u1[i] == u[i + 1]);
        }
        lemma_replace_dotted_word(u1, t, p, rep);
        assert(x.drop_first() =~= u1.push('.') + t);
        if ends_with(u, p) {
            if p.len() == u.len() {
                assert(u.skip(0) =~= u);
                assert forall|i: int| 0 <= i < pat.len() implies x[i] == pat[i] by {
                    if i < u.len() {
                        assert(x[i] == u[i]);
                        assert(u.skip(0)[i] == p[i]);
                    }
                }
                assert(x.take(pat.len() as int) =~= pat);
                assert(false);
            }
            assert(u1.skip(u1.len() - p.len()) =~= u.skip(u.len() - p.len()));
            assert(seq![u[0]] + (u1.take(u1.len() - p.len()) + rep) =~= u.take(u.len() - p.len())
                + rep);
        } else {
            if ends_with(u1, p) {
                assert(u1.skip(u1.len() - p.len()) =~= u.skip(u.len() - p.len()));
            }
            assert(seq![u[0]] + u1.push('.') =~= u.push('.'));
        }
    }
}

/// A run of digits does not end with a word that starts with no digit.
pub proof fn lemma_digits_not_ending(d: Seq<char>, p: Seq<char>)
    requires
        all_digits(d),
        p.len() > 0,
        !is_digit(p[0]),
    ensures
        !ends_with(d, p),
{
    if ends_with(d, p) {
        let k = d.len() - p.len();
        assert(d.skip(k)[0] == d[k]);
        assert(is_digit(d[k]));
    }
}

/// A word does not end with a word that differs from its end at `j`.
pub proof fn lemma_not_ending_at(u: Seq<char>, p: Seq<char>, j: int)
    requires
        p.len() <= u.len() ==> 0 <= j < p.len() && u[u.len() - p.len() + j] != p[j],
    ensures
        !ends_with(u, p),
{
    if ends_with(u, p) {
        assert(u.skip(u.len() - p.len())[j] == u[u.len() - p.len() + j]);
    }
}

/// A word ends with itself.
pub proof fn lemma_ends_with_self(u: Seq<char>, rep: Seq<char>)
    ensures
        dotted_word_replaced(u, u, rep) == rep,
{
    assert(u.skip(0) =~= u);
    assert(u.take(0) + rep =~= rep);
}


/// Replacing a dot-terminated pattern `p.` (with no other `.`) in a text
/// that ends with a `.` and a rest replaces in each apart: no occurrence
/// reaches across that last dot.
pub proof fn lemma_replace_split_at_dot(a: Seq<char>, b: Seq<char>, p: Seq<char>, rep: Seq<char>)
    requires
        a.len() > 0,
        a.last() == '.',
        no_dot(p),
    ensures
        replace_all(a + b, p.push('.'), rep) == replace_all(a, p.push('.'), rep) + replace_all(
            b,
            p.push('.'),
            rep,
        ),
    decreases a.len(),
{
    let pat = p.push('.');
    let x = a + b;
    let e = Seq::<char>::empty();
    assert(replace_all(e, pat, rep) == e);
    if starts_with(x, pat) {
        let w = x.take(pat.len() as int);
        if pat.len() > a.len() {
            assert(w[a.len() - 1] == x[a.len() - 1]);
            assert(x[a.len() - 1] == a.last());
            assert(pat[a.len() - 1] == p[a.len() - 1]);
            assert(false);
        }
        assert(a.take(pat.len() as int) =~= w);
        if pat.len() == a.len() {
            assert(a.skip(pat.len() as int) =~= e);
            assert(x.skip(pat.len() as int) =~= b);
            assert(rep + e =~= rep);
        } else {
            let a1 = a.skip(pat.len() as int);
            assert(a1.last() == a.last());
            lemma_replace_split_at_dot(a1, b, p, rep);
            assert(x.skip(pat.len() as int) =~= a1 + b);
        }
    } else {
        if starts_with(a, pat) {
            assert(x.take(pat.len() as int) =~= a.take(pat.len() as int));
        }
        if a.len() == 1 {
            assert(x.drop_first() =~= b);
            assert(a.drop_first() =~= e);
            assert(seq![a[0]] + e =~= a);
        } else {
            let a1 = a.drop_first();
            assert(a1.last() == a.last());
            lemma_replace_split_at_dot(a1, b, p, rep);
            assert(x.drop_first() =~= a1 + b);
            assert(x[0] == a[0]);
        }
    }
}

/// Replacing a dot-terminated pattern by a dot-terminated text keeps a
/// final dot.
pub proof fn lemma_replace_keeps_final_dot(a: Seq<char>, p: Seq<char>, rep: Seq<char>)
    requires
        a.len() > 0,
        a.last() == '.',
        rep.len() > 0,
        rep.last() == '.',
    ensures
        replace_all(a, p.push('.'), rep).len() > 0,
        replace_all(a, p.push('.'), rep).last() == '.',
    decreases a.len(),
{
    let pat = p.push('.');
    let e = Seq::<char>::empty();
    assert(replace_all(e, pat, rep) == e);
    if starts_with(a, pat) {
        if pat.len() < a.len() {
            let a1 = a.skip(pat.len() as int);
            assert(a1.last() == a.last());
            lemma_replace_keeps_final_dot(a1, p, rep);
        } else {
            assert(a.skip(pat.len() as int) =~= e);
            assert(rep + e =~= rep);
        }
    } else if a.len() == 1 {
        assert(a.drop_first() =~= e);
        assert(seq![a[0]] + e =~= a);
    } else {
        let a1 = a.drop_first();
        assert(a1.last() == a.last());
        lemma_replace_keeps_final_dot(a1, p, rep);
    }
}


/// A word that does not end with `p` keeps itself and its dot when `p.` is
/// replaced (`j` is where the word's end differs from `p`).
pub proof fn lemma_word_kept(x: Seq<char>, rest: Seq<char>, p: Seq<char>, rep: Seq<char>, j: int)
    requires
        no_dot(x),
        no_dot(p),
        p.len() <= x.len() ==> 0 <= j < p.len() && x[x.len() - p.len() + j] != p[j],
    ensures
        replace_all(x.push('.') + rest, p.push('.'), rep) == x.push('.') + replace_all(
            rest,
            p.push('.'),
            rep,
        ),
{
    lemma_replace_dotted_word(x, rest, p, rep);
    lemma_not_ending_at(x, p, j);
}

/// A run of digits keeps itself and its dot when `p.` is replaced, for a
/// `p` that starts with no digit.
pub proof fn lemma_digits_kept(d: Seq<char>, rest: Seq<char>, p: Seq<char>, rep: Seq<char>)
    requires
        all_digits(d),
        no_dot(p),
        p.len() > 0,
        !is_digit(p[0]),
    ensures
        replace_all(d.push('.') + rest, p.push('.'), rep) == d.push('.') + replace_all(
            rest,
            p.push('.'),
            rep,
        ),
{
    assert(no_dot(d));
    lemma_replace_dotted_word(d, rest, p, rep);
    lemma_digits_not_ending(d, p);
}

/// The word `p` and its dot become `rep` when `p.` is replaced.
pub proof fn lemma_word_replaced(p: Seq<char>, rest: Seq<char>, rep: Seq<char>)
    requires
        no_dot(p),
    ensures
        replace_all(p.push('.') + rest, p.push('.'), rep) == rep + replace_all(
            rest,
            p.push('.'),
            rep,
        ),
{
    lemma_replace_dotted_word(p, rest, p, rep);
    lemma_ends_with_self(p, rep);
}

} // verus!

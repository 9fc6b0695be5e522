//! Short renderings of counts (`348.2K`, `2.92M`) and byte sizes
//! (`2.0 KB`, `5.0 MB`), digit for digit as `format!` renders the
//! corresponding double-precision quotient.
//!
//! The quotient is the double nearest to the exact one (ties to an even
//! significand), and `{:.N}` rounds its exact binary value to `N` decimals,
//! ties to an even last digit. Both roundings are done here on integers.

use vstd::prelude::*;
use crate::text::{decimal, digit_char, digit_to_char, push_chars, u64_decimal};

verus! {

/// `2^e`.
pub open spec fn two_pow(e: nat) -> nat
    decreases e,
{
    if e == 0 {
        1
    } else {
        2 * two_pow((e - 1) as nat)
    }
}

/// `a / b` rounded to the nearest integer, ties to the even one.
pub open spec fn round_half_even(a: nat, b: nat) -> nat {
    let q = a / b;
    let r = a % b;
    if 2 * r > b || (2 * r == b && q % 2 == 1) {
        q + 1
    } else {
        q
    }
}

/// `s` brings `a / b` into the significand range: `2^52 <= a·2^s / b < 2^53`.
pub open spec fn is_normal_shift(a: nat, b: nat, s: nat) -> bool {
    two_pow(52) * b <= a * two_pow(s) && a * two_pow(s) < two_pow(53) * b
}

/// The shift that brings `a / b` into the significand range.
pub open spec fn normal_shift(a: nat, b: nat) -> nat {
    choose|s: nat| is_normal_shift(a, b, s)
}

/// The significand of the double nearest to `a / b`; the double is this
/// significand divided by `2^normal_shift(a, b)`.
pub open spec fn quotient_significand(a: nat, b: nat) -> nat {
    round_half_even(a * two_pow(normal_shift(a, b)), b)
}

/// `k` brings `n` into the significand range: `2^52 <= n / 2^k < 2^53`.
pub open spec fn is_integer_shift(n: nat, k: nat) -> bool {
    two_pow(52) * two_pow(k) <= n && n < two_pow(53) * two_pow(k)
}

/// The double nearest to `n` (`n as f64`), an integer.
pub open spec fn nearest_double(n: nat) -> nat {
    if n < two_pow(53) {
        n
    } else {
        let k = choose|k: nat| is_integer_shift(n, k);
        round_half_even(n, two_pow(k)) * two_pow(k)
    }
}

/// `d / 10` with one decimal.
pub open spec fn fixed1(d: nat) -> Seq<char> {
    decimal(d / 10) + seq!['.', digit_char(d % 10)]
}

/// `d / 100` with two decimals.
pub open spec fn fixed2(d: nat) -> Seq<char> {
    decimal(d / 100) + seq!['.', digit_char((d / 10) % 10), digit_char(d % 10)]
}

/// What `format_number(n)` renders.
pub open spec fn format_number_spec(n: nat) -> Seq<char> {
    if n >= 1_000_000 {
        let x = nearest_double(n);
        fixed2(
            round_half_even(
                100 * quotient_significand(x, 1_000_000),
                two_pow(normal_shift(x, 1_000_000)),
            ),
        ) + "M"@
    } else if n >= 1_000 {
        fixed1(round_half_even(10 * quotient_significand(n, 1_000), two_pow(normal_shift(n, 1_000))))
            + "K"@
    } else {
        decimal(n)
    }
}

/// What `format_bytes(b)` renders (dividing by a power of two is exact).
pub open spec fn format_bytes_spec(b: nat) -> Seq<char> {
    if b >= 1_073_741_824 {
        fixed2(round_half_even(100 * nearest_double(b), two_pow(30))) + " GB"@
    } else if b >= 1_048_576 {
        fixed1(round_half_even(10 * b, two_pow(20))) + " MB"@
    } else if b >= 1024 {
        fixed1(round_half_even(10 * b, two_pow(10))) + " KB"@
    } else {
        decimal(b) + " B"@
    }
}

proof fn lemma_two_pow_grows(e1: nat, e2: nat)
    requires
        e1 < e2,
    ensures
        2 * two_pow(e1) <= two_pow(e2),
    decreases e2,
{
    lemma_two_pow_pos(e1);
    if e2 > e1 + 1 {
        lemma_two_pow_grows(e1, (e2 - 1) as nat);
        lemma_two_pow_pos((e2 - 1) as nat);
    }
}

proof fn lemma_two_pow_pos(e: nat)
    ensures
        two_pow(e) >= 1,
    decreases e,
{
    if e > 0 {
        lemma_two_pow_pos((e - 1) as nat);
    }
}

proof fn lemma_normal_shift_unique(a: nat, b: nat, s1: nat, s2: nat)
    requires
        is_normal_shift(a, b, s1),
        is_normal_shift(a, b, s2),
    ensures
        s1 == s2,
{
    if s1 < s2 {
        lemma_two_pow_grows(s1, s2);
        assert(a * two_pow(s2) >= a * (2 * two_pow(s1))) by (nonlinear_arith)
            requires
                2 * two_pow(s1) <= two_pow(s2),
        ;
        assert(two_pow(53) == 2 * two_pow(52));
        assert(two_pow(53) * b == 2 * (two_pow(52) * b)) by (nonlinear_arith)
            requires
                two_pow(53) == 2 * two_pow(52),
        ;
        assert(a * (2 * two_pow(s1)) == 2 * (a * two_pow(s1))) by (nonlinear_arith);
    } else if s2 < s1 {
        lemma_two_pow_grows(s2, s1);
        assert(a * two_pow(s1) >= a * (2 * two_pow(s2))) by (nonlinear_arith)
            requires
                2 * two_pow(s2) <= two_pow(s1),
        ;
        assert(two_pow(53) == 2 * two_pow(52));
        assert(two_pow(53) * b == 2 * (two_pow(52) * b)) by (nonlinear_arith)
            requires
                two_pow(53) == 2 * two_pow(52),
        ;
        assert(a * (2 * two_pow(s2)) == 2 * (a * two_pow(s2))) by (nonlinear_arith);
    }
}

proof fn lemma_integer_shift_unique(n: nat, k1: nat, k2: nat)
    requires
        is_integer_shift(n, k1),
        is_integer_shift(n, k2),
    ensures
        k1 == k2,
{
    if k1 < k2 {
        lemma_two_pow_grows(k1, k2);
        assert(two_pow(53) == 2 * two_pow(52));
        assert(two_pow(52) * two_pow(k2) >= two_pow(52) * (2 * two_pow(k1))) by (nonlinear_arith)
            requires
                2 * two_pow(k1) <= two_pow(k2),
        ;
        assert(two_pow(52) * (2 * two_pow(k1)) == two_pow(53) * two_pow(k1)) by (nonlinear_arith)
            requires
                two_pow(53) == 2 * two_pow(52),
        ;
    } else if k2 < k1 {
        lemma_two_pow_grows(k2, k1);
        assert(two_pow(53) == 2 * two_pow(52));
        assert(two_pow(52) * two_pow(k1) >= two_pow(52) * (2 * two_pow(k2))) by (nonlinear_arith)
            requires
                2 * two_pow(k2) <= two_pow(k1),
        ;
        assert(two_pow(52) * (2 * two_pow(k2)) == two_pow(53) * two_pow(k2)) by (nonlinear_arith)
            requires
                two_pow(53) == 2 * two_pow(52),
        ;
    }
}

proof fn lemma_two_pow_values()
    ensures
        two_pow(10) == 1024,
        two_pow(20) == 1_048_576,
        two_pow(30) == 1_073_741_824,
        two_pow(52) == 4_503_599_627_370_496,
        two_pow(53) == 9_007_199_254_740_992,
{
    reveal_with_fuel(two_pow, 54);
}

/// `a / b` rounded to the nearest integer, ties to the even one.
pub(crate) fn round_half_even_exec(a: u128, b: u128) -> (r: u128)
    requires
        0 < b < 0x8000_0000_0000_0000_0000_0000_0000_0000,
        a < 0x1_0000_0000_0000_0000_0000_0000,
    ensures
        r == round_half_even(a as nat, b as nat),
{
    let q = a / b;
    let m = a % b;
    assert(q <= a) by (nonlinear_arith)
        requires
            b > 0,
            q == a / b,
    ;
    if 2 * m > b || (2 * m == b && q % 2 == 1) {
        q + 1
    } else {
        q
    }
}

/// The double nearest to `n` (`n as f64`), as an integer.
fn nearest_double_exec(n: u64) -> (r: u128)
    ensures
        r == nearest_double(n as nat),
        r <= 0x1_0000_0000_0000_1000,
        n > 0 ==> r > 0,
{
    proof {
        lemma_two_pow_values();
    }
    let x = n as u128;
    if x < 9_007_199_254_740_992 {
        return x;
    }
    let mut p: u128 = 1;
    let ghost mut k: nat = 0;
    while x >= 9_007_199_254_740_992 * p
        invariant
            p == two_pow(k),
            0 < p,
            4_503_599_627_370_496 * p <= x,
            x == n,
            two_pow(52) == 4_503_599_627_370_496,
            two_pow(53) == 9_007_199_254_740_992,
        decreases x - 4_503_599_627_370_496 * p,
    {
        p = p * 2;
        proof {
            k = k + 1;
        }
    }
    proof {
        assert(is_integer_shift(n as nat, k));
        let c = choose|c: nat| is_integer_shift(n as nat, c);
        lemma_integer_shift_unique(n as nat, k, c);
    }
    assert(p <= 4096) by (nonlinear_arith)
        requires
            4_503_599_627_370_496 * p <= x,
            x < 0x1_0000_0000_0000_0000,
    ;
    let q = round_half_even_exec(x, p);
    assert(2 * (x % p) <= 2 * p);
    assert(x / p < 9_007_199_254_740_992) by (nonlinear_arith)
        requires
            p > 0,
            x < 9_007_199_254_740_992 * p,
    ;
    assert(x / p >= 4_503_599_627_370_496) by (nonlinear_arith)
        requires
            p > 0,
            4_503_599_627_370_496 * p <= x,
    ;
    assert(q <= x / p + 1);
    assert(q * p <= x + p) by (nonlinear_arith)
        requires
            p > 0,
            q <= x / p + 1,
    {
        assert((x / p) * p <= x);
    }
    assert(q * p > 0) by (nonlinear_arith)
        requires
            p > 0,
            q > 0,
    ;
    q * p
}

/// The double nearest to `a / b`, as its significand and the power of two
/// it is divided by.
fn nearest_quotient(a: u128, b: u128) -> (r: (u128, u128))
    requires
        0 < a,
        0 < b <= 1_000_000,
        a < 9_007_199_254_740_992 * b,
    ensures
        r.1 == two_pow(normal_shift(a as nat, b as nat)),
        r.0 == quotient_significand(a as nat, b as nat),
        r.0 <= 9_007_199_254_740_992,
        0 < r.1 < 9_007_199_254_740_992 * 1_000_000,
{
    proof {
        lemma_two_pow_values();
    }
    let mut p: u128 = 1;
    let ghost mut s: nat = 0;
    while a * p < 4_503_599_627_370_496 * b
        invariant
            p == two_pow(s),
            0 < p,
            a * p < 9_007_199_254_740_992 * b,
            0 < a,
            0 < b <= 1_000_000,
            two_pow(52) == 4_503_599_627_370_496,
            two_pow(53) == 9_007_199_254_740_992,
        decreases 9_007_199_254_740_992 * b - a * p,
    {
        assert(p <= a * p) by (nonlinear_arith)
            requires
                0 < a,
                0 < p,
        ;
        assert(a * (p * 2) == 2 * (a * p)) by (nonlinear_arith);
        assert(a * p < a * (p * 2)) by (nonlinear_arith)
            requires
                0 < a,
                0 < p,
        ;
        p = p * 2;
        proof {
            s = s + 1;
        }
    }
    proof {
        assert(is_normal_shift(a as nat, b as nat, s));
        let c = choose|c: nat| is_normal_shift(a as nat, b as nat, c);
        lemma_normal_shift_unique(a as nat, b as nat, s, c);
    }
    assert(p <= a * p) by (nonlinear_arith)
        requires
            0 < a,
            0 < p,
    ;
    let m = round_half_even_exec(a * p, b);
    assert(m <= 9_007_199_254_740_992) by (nonlinear_arith)
        requires
            a * p < 9_007_199_254_740_992 * b,
            b > 0,
            m == round_half_even((a * p) as nat, b as nat),
    {
        let q = (a * p) as nat / b as nat;
        assert(q * b <= a * p);
        assert(q < 9_007_199_254_740_992);
    }
    (m, p)
}

/// `d / 10` with one decimal.
fn render_fixed1(out: &mut String, d: u64)
    ensures
        final(out)@ == old(out)@ + fixed1(d as nat),
{
    let int_part = u64_decimal(d / 10);
    push_chars(out, int_part.as_slice());
    let mut tail: Vec<char> = Vec::new();
    tail.push('.');
    tail.push(digit_to_char(d % 10));
    push_chars(out, tail.as_slice());
    assert(old(out)@ + int_part@ + tail@ == old(out)@ + fixed1(d as nat));
}

/// `d / 100` with two decimals.
fn render_fixed2(out: &mut String, d: u64)
    ensures
        final(out)@ == old(out)@ + fixed2(d as nat),
{
    let int_part = u64_decimal(d / 100);
    push_chars(out, int_part.as_slice());
    let mut tail: Vec<char> = Vec::new();
    tail.push('.');
    tail.push(digit_to_char((d / 10) % 10));
    tail.push(digit_to_char(d % 10));
    push_chars(out, tail.as_slice());
    assert(old(out)@ + int_part@ + tail@ == old(out)@ + fixed2(d as nat));
}

/// A count in short form: as is below a thousand, in thousands with one
/// decimal (`10.2K`) below a million, else in millions with two decimals
/// (`2.92M`).
pub fn format_number(n: usize) -> (s: String)
    ensures
        s@ == format_number_spec(n as nat),
{
    proof {
        lemma_two_pow_values();
    }
    let mut out = String::new();
    if n >= 1_000_000 {
        let x = nearest_double_exec(n as u64);
        let (m, p) = nearest_quotient(x, 1_000_000);
        let d = round_half_even_exec(100 * m, p);
        assert(d <= 100 * m) by (nonlinear_arith)
            requires
                p > 0,
                d == round_half_even((100 * m) as nat, p as nat),
        {
            let q = (100 * m) as nat / p as nat;
            assert(q <= 100 * m);
        }
        render_fixed2(&mut out, d as u64);
        let suffix = crate::text::chars_of("M");
        push_chars(&mut out, suffix.as_slice());
    } else if n >= 1_000 {
        let (m, p) = nearest_quotient(n as u128, 1_000);
        let d = round_half_even_exec(10 * m, p);
        assert(d <= 10 * m) by (nonlinear_arith)
            requires
                p > 0,
                d == round_half_even((10 * m) as nat, p as nat),
        {
            let q = (10 * m) as nat / p as nat;
            assert(q <= 10 * m);
        }
        render_fixed1(&mut out, d as u64);
        let suffix = crate::text::chars_of("K");
        push_chars(&mut out, suffix.as_slice());
    } else {
        let digits = u64_decimal(n as u64);
        push_chars(&mut out, digits.as_slice());
    }
    out
}

/// A byte size in short form: bytes below 1 KiB (`512 B`), then KiB and
/// MiB with one decimal (`2.0 KB`, `5.0 MB`), and GiB with two (`5.98 GB`).
pub fn format_bytes(b: u64) -> (s: String)
    ensures
        s@ == format_bytes_spec(b as nat),
{
    proof {
        lemma_two_pow_values();
    }
    let mut out = String::new();
    if b >= 1_073_741_824 {
        let x = nearest_double_exec(b);
        let d = round_half_even_exec(100 * x, 1_073_741_824);
        assert(d <= 100 * x) by (nonlinear_arith)
            requires
                d == round_half_even((100 * x) as nat, 1_073_741_824),
        {
            let q = (100 * x) as nat / 1_073_741_824;
            assert(q <= 100 * x);
        }
        render_fixed2(&mut out, d as u64);
        let suffix = crate::text::chars_of(" GB");
        push_chars(&mut out, suffix.as_slice());
    } else if b >= 1_048_576 {
        let d = round_half_even_exec(10 * b as u128, 1_048_576);
        render_fixed1(&mut out, d as u64);
        let suffix = crate::text::chars_of(" MB");
        push_chars(&mut out, suffix.as_slice());
    } else if b >= 1024 {
        let d = round_half_even_exec(10 * b as u128, 1024);
        render_fixed1(&mut out, d as u64);
        let suffix = crate::text::chars_of(" KB");
        push_chars(&mut out, suffix.as_slice());
    } else {
        let digits = u64_decimal(b);
        push_chars(&mut out, digits.as_slice());
        let suffix = crate::text::chars_of(" B");
        push_chars(&mut out, suffix.as_slice());
    }
    out
}

} // verus!

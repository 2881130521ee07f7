//! Numbers as text: decimal digits, thousands separators, zero padding, and
//! quotients of doubles to one decimal.

use vstd::arithmetic::power2::{lemma2_to64, lemma_pow2_strictly_increases, lemma_pow2_unfold, pow2};
use vstd::prelude::*;

use crate::text::{digit_value, digits_value, uint_value, IntError};

verus! {

// ---- decimal digits ----

/// The digit character of a value below ten.
pub open spec fn digit_char(d: nat) -> char {
    (48 + d) as char
}

/// `n` in decimal.
pub open spec fn decimal(n: nat) -> Seq<char>
    decreases n,
{
    if n < 10 {
        seq![digit_char(n)]
    } else {
        decimal(n / 10).push(digit_char(n % 10))
    }
}

/// `i` in decimal, with a minus sign where it is negative.
pub open spec fn signed_decimal(i: int) -> Seq<char> {
    if i < 0 {
        seq!['-'] + decimal((-i) as nat)
    } else {
        decimal(i as nat)
    }
}

/// `n` in decimal, with a zero before a single digit.
pub open spec fn two_digits(n: nat) -> Seq<char> {
    if n < 10 {
        seq!['0', digit_char(n)]
    } else {
        decimal(n)
    }
}

/// The last three decimal digits of `n`.
pub open spec fn three_digits(n: nat) -> Seq<char> {
    seq![digit_char(n / 100 % 10), digit_char(n / 10 % 10), digit_char(n % 10)]
}

/// `n` in decimal, with a comma before each full group of three digits.
pub open spec fn grouped(n: nat) -> Seq<char>
    decreases n,
{
    if n < 1000 {
        decimal(n)
    } else {
        grouped(n / 1000).push(',') + three_digits(n)
    }
}

fn push_digit(out: &mut String, d: u128)
    requires
        d < 10,
    ensures
        final(out)@ == old(out)@.push(digit_char(d as nat)),
{
    out.push((48 + d as u8) as char);
}

/// Appends a number in decimal.
pub fn push_decimal(out: &mut String, n: u128)
    ensures
        final(out)@ == old(out)@ + decimal(n as nat),
    decreases n,
{
    if n >= 10 {
        push_decimal(out, n / 10);
    }
    push_digit(out, n % 10);
    assert(out@ =~= old(out)@ + decimal(n as nat));
}

/// Appends a signed number in decimal.
pub fn push_signed(out: &mut String, i: i64)
    ensures
        final(out)@ == old(out)@ + signed_decimal(i as int),
{
    if i < 0 {
        out.push('-');
        push_decimal(out, (-(i as i128)) as u128);
        assert(out@ =~= old(out)@ + signed_decimal(i as int));
    } else {
        push_decimal(out, i as u128);
    }
}

/// Appends a number in decimal, with a zero before a single digit.
pub fn push_two_digits(out: &mut String, n: u64)
    ensures
        final(out)@ == old(out)@ + two_digits(n as nat),
{
    if n < 10 {
        out.push('0');
        push_digit(out, n as u128);
        assert(out@ =~= old(out)@ + two_digits(n as nat));
    } else {
        push_decimal(out, n as u128);
    }
}

/// Appends a number in decimal with thousands separators.
pub fn push_grouped(out: &mut String, n: u64)
    ensures
        final(out)@ == old(out)@ + grouped(n as nat),
    decreases n,
{
    if n < 1000 {
        push_decimal(out, n as u128);
    } else {
        push_grouped(out, n / 1000);
        out.push(',');
        push_digit(out, (n / 100 % 10) as u128);
        push_digit(out, (n / 10 % 10) as u128);
        push_digit(out, (n % 10) as u128);
        assert(out@ =~= old(out)@ + grouped(n as nat));
    }
}

/// `s` without its commas.
pub open spec fn without_commas(s: Seq<char>) -> Seq<char>
    decreases s.len(),
{
    if s.len() == 0 {
        s
    } else if s.last() == ',' {
        without_commas(s.drop_last())
    } else {
        without_commas(s.drop_last()).push(s.last())
    }
}

/// Thousands separators add nothing but commas: without them, the plain
/// decimal number is left.
pub proof fn law_grouping_only_adds_commas(n: nat)
    ensures
        without_commas(grouped(n)) == decimal(n),
    decreases n,
{
    if n < 1000 {
        lemma_decimal_has_no_comma(n);
    } else {
        law_grouping_only_adds_commas(n / 1000);
        let g = grouped(n / 1000);
        let a = g.push(',');
        let x = digit_char(n / 100 % 10);
        let y = digit_char(n / 10 % 10);
        let z = digit_char(n % 10);
        assert(a.drop_last() =~= g);
        assert(without_commas(a) == decimal(n / 1000));
        assert(a.push(x).drop_last() =~= a);
        assert(a.push(x).push(y).drop_last() =~= a.push(x));
        assert(a.push(x).push(y).push(z).drop_last() =~= a.push(x).push(y));
        assert(without_commas(a.push(x)) == decimal(n / 1000).push(x));
        assert(without_commas(a.push(x).push(y)) == decimal(n / 1000).push(x).push(y));
        assert(grouped(n) =~= a.push(x).push(y).push(z));
        assert(without_commas(grouped(n)) == decimal(n / 1000).push(x).push(y).push(z));
        assert(n / 10 / 10 == n / 100 && n / 100 / 10 == n / 1000);
        assert(decimal(n) == decimal(n / 10).push(z));
        assert(decimal(n / 10) == decimal(n / 100).push(y));
        assert(decimal(n / 100) == decimal(n / 1000).push(x));
    }
}

proof fn lemma_decimal_has_no_comma(n: nat)
    ensures
        without_commas(decimal(n)) == decimal(n),
    decreases n,
{
    let s = decimal(n);
    if n < 10 {
        assert(s.drop_last() =~= Seq::<char>::empty());
        assert(without_commas(s.drop_last()) =~= Seq::<char>::empty());
        assert(without_commas(s) =~= s);
    } else {
        lemma_decimal_has_no_comma(n / 10);
        assert(s.drop_last() =~= decimal(n / 10));
    }
}

/// What is written in decimal reads back as the number written.
pub proof fn law_decimal_reads_back(n: nat, max: int)
    requires
        n <= max,
    ensures
        uint_value(decimal(n), 10, max) == Ok::<int, IntError>(n as int),
{
    lemma_digits_read_back(n, max);
    lemma_decimal_chars(n);
}

proof fn lemma_digits_read_back(n: nat, max: int)
    requires
        n <= max,
    ensures
        digits_value(decimal(n), 10, max) == Ok::<int, IntError>(n as int),
    decreases n,
{
    let s = decimal(n);
    if n < 10 {
        assert(s.drop_last() =~= Seq::<char>::empty());
        assert(digits_value(s.drop_last(), 10, max) == Ok::<int, IntError>(0));
    } else {
        lemma_digits_read_back(n / 10, max);
        assert(s.drop_last() =~= decimal(n / 10));
        assert(digit_value(s.last(), 10) == Some((n % 10) as int));
    }
}

/// A number in decimal is one or more digits.
pub proof fn lemma_decimal_chars(n: nat)
    ensures
        decimal(n).len() >= 1,
        forall|i: int|
            0 <= i < decimal(n).len() ==> 48 <= (#[trigger] decimal(n)[i]) as int <= 57,
    decreases n,
{
    if n >= 10 {
        lemma_decimal_chars(n / 10);
    }
}

// ---- quotients of doubles, to one decimal ----

/// The number `m * 2^e`.
pub struct Dyadic {
    pub m: nat,
    pub e: int,
}

/// `n / d` rounded to the nearest integer, a tie going to the even one.
pub open spec fn rounded(n: nat, d: nat) -> nat {
    let q = n / d;
    let r = n % d;
    if 2 * r > d || (2 * r == d && q % 2 == 1) {
        q + 1
    } else {
        q
    }
}

/// `a / b * 2^e` rounded to a significand of 53 bits, where `a / b` is below
/// the limit of those: it is doubled until it has as many bits.
pub open spec fn round_small(a: nat, b: nat, e: int) -> Dyadic
    decreases
            if a < 0x10_0000_0000_0000 * b {
                0x10_0000_0000_0000 * b - a
            } else {
                0
            },
{
    if 0 < a < 0x10_0000_0000_0000 * b {
        round_small(2 * a, b, e - 1)
    } else {
        Dyadic { m: rounded(a, b), e }
    }
}

/// `a / b * 2^e` rounded to a significand of 53 bits, where `a / b` has at
/// least as many: it is halved until it has no more.
pub open spec fn round_large(a: nat, b: nat, e: int) -> Dyadic
    decreases
            if a >= 0x20_0000_0000_0000 * b {
                a - 0x20_0000_0000_0000 * b + 1
            } else {
                0
            },
{
    if 0 < b && a >= 0x20_0000_0000_0000 * b {
        round_large(a, 2 * b, e + 1)
    } else {
        Dyadic { m: rounded(a, b), e }
    }
}

/// The double nearest to `a / b`, a tie going to the even significand.
pub open spec fn double_quotient(a: nat, b: nat) -> Dyadic {
    if a < 0x10_0000_0000_0000 * b {
        round_small(a, b, 0)
    } else {
        round_large(a, b, 0)
    }
}

/// The double nearest to the integer `n`, which is an integer too.
pub open spec fn double_integer(n: nat) -> nat {
    let d = round_large(n, 1, 0);
    d.m * pow2(d.e as nat)
}

/// The number of tenths nearest to a double, a tie going to the even number.
pub open spec fn nearest_tenths(d: Dyadic) -> nat {
    if d.e >= 0 {
        10 * d.m * pow2(d.e as nat)
    } else {
        rounded(10 * d.m, pow2((-d.e) as nat))
    }
}

/// A number of tenths as text, with one decimal.
pub open spec fn tenths_text(t: nat) -> Seq<char> {
    decimal(t / 10).push('.').push(digit_char(t % 10))
}

/// The quotient of the doubles nearest to `n` and `d`, times `2^-shift`,
/// rounded to a double and written with one decimal. Of a zero `d` the
/// quotient is no number or infinite.
pub open spec fn quotient_text(n: nat, d: nat, shift: nat) -> Seq<char> {
    if d == 0 {
        if n == 0 {
            "NaN"@
        } else {
            "inf"@
        }
    } else {
        let q = double_quotient(double_integer(n), double_integer(d));
        tenths_text(nearest_tenths(Dyadic { m: q.m, e: q.e - shift }))
    }
}

fn round_div(n: u128, d: u128) -> (r: u128)
    requires
        0 < d < 0x8000_0000_0000_0000_0000_0000_0000_0000,
        n < 0x8000_0000_0000_0000_0000_0000_0000_0000,
    ensures
        r == rounded(n as nat, d as nat),
{
    let q = n / d;
    let r = n % d;
    assert(q <= n) by (nonlinear_arith)
        requires
            q == n / d,
            d > 0,
            n >= 0,
    ;
    if 2 * r > d || (2 * r == d && q % 2 == 1) {
        q + 1
    } else {
        q
    }
}

/// A rounded quotient of less than `k` is at most `k`.
proof fn lemma_rounded_bound(n: nat, d: nat, k: nat)
    requires
        0 < d,
        n < k * d,
    ensures
        rounded(n, d) <= k,
{
    assert(n / d < k) by (nonlinear_arith)
        requires
            0 < d,
            n < k * d,
    ;
}

fn round_up_small(a: u128, b: u128) -> (r: (u128, i128))
    requires
        0 < b <= 0x4_0000_0000_0000_0000,
        a < 0x10_0000_0000_0000 * b,
    ensures
        (Dyadic { m: r.0 as nat, e: r.1 as int }) == round_small(a as nat, b as nat, 0),
        r.0 <= 0x20_0000_0000_0000,
        -0x4000_0000_0000_0000_0000_0000_0000_0000 <= r.1 <= 0,
{
    let mut x: u128 = a;
    let mut e: i128 = 0;
    while 0 < x && x < 0x10_0000_0000_0000 * b
        invariant
            0 < b <= 0x4_0000_0000_0000_0000,
            x < 0x20_0000_0000_0000 * b,
            -x <= e <= 0,
            round_small(a as nat, b as nat, 0) == round_small(x as nat, b as nat, e as int),
        decreases 0x20_0000_0000_0000 * b - x,
    {
        x = 2 * x;
        e = e - 1;
    }
    proof {
        lemma_rounded_bound(x as nat, b as nat, 0x20_0000_0000_0000);
    }
    (round_div(x, b), e)
}

fn round_down_large(a: u128, b: u128) -> (r: (u128, i128))
    requires
        0 < b <= 0x4_0000_0000_0000_0000,
        a <= 0x4_0000_0000_0000_0000,
    ensures
        (Dyadic { m: r.0 as nat, e: r.1 as int }) == round_large(a as nat, b as nat, 0),
        r.0 <= 0x20_0000_0000_0000,
        0 <= r.1 <= 14,
        a < 0x1_0000_0000_0000_0000 ==> r.1 <= 12,
        a >= b ==> r.0 > 0,
{
    let mut y: u128 = b;
    let mut e: i128 = 0;
    proof {
        lemma2_to64();
    }
    while a >= 0x20_0000_0000_0000 * y
        invariant
            0 < y <= 0x4_0000_0000_0000_0000,
            a <= 0x4_0000_0000_0000_0000,
            0 <= e <= y,
            pow2(e as nat) <= y,
            e == 0 || y <= 0x4000,
            a < 0x1_0000_0000_0000_0000 ==> e == 0 || y <= 0x1000,
            a >= b ==> a >= y,
            round_large(a as nat, b as nat, 0) == round_large(a as nat, y as nat, e as int),
        decreases a - y,
    {
        proof {
            lemma_pow2_unfold((e + 1) as nat);
        }
        y = 2 * y;
        e = e + 1;
    }
    proof {
        lemma2_to64();
        if e > 14 {
            lemma_pow2_strictly_increases(14, e as nat);
        } else if e > 12 {
            lemma_pow2_strictly_increases(12, e as nat);
        }
        if a >= y {
            assert(a / y >= 1) by (nonlinear_arith)
                requires
                    a >= y,
                    y > 0,
            ;
        }
        lemma_rounded_bound(a as nat, y as nat, 0x20_0000_0000_0000);
    }
    (round_div(a, y), e)
}

fn power_of_two(e: i128) -> (r: u128)
    requires
        0 <= e <= 64,
    ensures
        r == pow2(e as nat),
        r <= 0x1_0000_0000_0000_0000,
        r > 0,
        e <= 12 ==> r <= 0x1000,
        e <= 14 ==> r <= 0x4000,
{
    let mut p: u128 = 1;
    let mut i: i128 = 0;
    proof {
        lemma2_to64();
    }
    while i < e
        invariant
            0 <= i <= e <= 64,
            p == pow2(i as nat),
            p <= 0x1_0000_0000_0000_0000,
        decreases e - i,
    {
        proof {
            lemma_pow2_unfold((i + 1) as nat);
            lemma2_to64();
            if i < 63 {
                lemma_pow2_strictly_increases((i + 1) as nat, 64);
            }
        }
        p = 2 * p;
        i = i + 1;
    }
    proof {
        lemma2_to64();
        if e < 12 {
            lemma_pow2_strictly_increases(e as nat, 12);
        }
        if e < 14 {
            lemma_pow2_strictly_increases(e as nat, 14);
        }
        if e > 0 {
            lemma_pow2_strictly_increases(0, e as nat);
        }
    }
    p
}

fn to_double(n: u64) -> (r: u128)
    ensures
        r == double_integer(n as nat),
        r <= 0x4_0000_0000_0000_0000,
        n > 0 ==> r > 0,
{
    let (m, e) = round_down_large(n as u128, 1);
    let p = power_of_two(e);
    assert(0 <= m * p <= 0x20_0000_0000_0000 * 0x1000) by (nonlinear_arith)
        requires
            0 <= m <= 0x20_0000_0000_0000,
            0 <= p <= 0x1000,
    ;
    assert(m > 0 ==> m * p > 0) by (nonlinear_arith)
        requires
            p > 0,
    ;
    m * p
}

fn to_tenths(m: u128, e: i128) -> (r: u128)
    requires
        m <= 0x20_0000_0000_0000,
        e <= 14,
        e > -0x8000_0000_0000_0000_0000_0000_0000_0000,
    ensures
        r == nearest_tenths(Dyadic { m: m as nat, e: e as int }),
{
    if e >= 0 {
        let p = power_of_two(e);
        assert(0 <= 10 * m * p <= 10 * 0x20_0000_0000_0000 * 0x4000) by (nonlinear_arith)
            requires
                0 <= m <= 0x20_0000_0000_0000,
                0 <= p <= 0x4000,
        ;
        10 * m * p
    } else if e < -64 {
        proof {
            lemma2_to64();
            lemma_pow2_strictly_increases(64, (-e) as nat);
            let d = pow2((-e) as nat);
            assert((10 * m) as nat / d == 0 && (10 * m) as nat % d == 10 * m) by {
                vstd::arithmetic::div_mod::lemma_basic_div(10 * m as int, d as int);
                vstd::arithmetic::div_mod::lemma_small_mod((10 * m) as nat, d);
            }
        }
        0
    } else {
        round_div(10 * m, power_of_two(-e))
    }
}

/// Appends a number of tenths with one decimal.
pub fn push_tenths(out: &mut String, t: u128)
    ensures
        final(out)@ == old(out)@ + tenths_text(t as nat),
{
    push_decimal(out, t / 10);
    out.push('.');
    push_digit(out, t % 10);
    assert(out@ =~= old(out)@ + tenths_text(t as nat));
}

/// Appends the quotient of two numbers, times `2^-shift`, with one decimal.
pub fn push_quotient(out: &mut String, n: u64, d: u64, shift: u32)
    ensures
        final(out)@ == old(out)@ + quotient_text(n as nat, d as nat, shift as nat),
{
    if d == 0 {
        if n == 0 {
            out.append("NaN");
        } else {
            out.append("inf");
        }
        return ;
    }
    let a = to_double(n);
    let b = to_double(d);
    let (m, e) = if a < 0x10_0000_0000_0000 * b {
        round_up_small(a, b)
    } else {
        round_down_large(a, b)
    };
    let t = to_tenths(m, e - shift as i128);
    push_tenths(out, t);
}

// ---- what holds of all numbers ----

/// Grouping puts a comma before every third digit from the right, and nowhere else.
pub proof fn law_commas_stand_at_every_third_digit(n: nat, k: int)
    requires
        0 <= k < grouped(n).len(),
    ensures
        grouped(n)[grouped(n).len() - 1 - k] == ',' <==> k % 4 == 3,
        grouped(n).len() % 4 != 0,
    decreases n,
{
    lemma_grouped_len(n);
    if n < 1000 {
        lemma_decimal_chars(n);
        lemma_decimal_len(n);
    } else {
        let g = grouped(n / 1000);
        let t = three_digits(n);
        let s = grouped(n);
        assert(s =~= g.push(',') + t);
        lemma_grouped_len(n / 1000);
        if k >= 4 {
            law_commas_stand_at_every_third_digit(n / 1000, k - 4);
            assert(s[s.len() - 1 - k] == g[g.len() - 1 - (k - 4)]);
        } else if k < 3 {
            assert(s[s.len() - 1 - k] == t[2 - k]);
        }
    }
}

proof fn lemma_decimal_len(n: nat)
    requires
        n < 1000,
    ensures
        1 <= decimal(n).len() <= 3,
{
    reveal_with_fuel(decimal, 3);
}

proof fn lemma_grouped_len(n: nat)
    ensures
        grouped(n).len() % 4 != 0,
        grouped(n).len() >= 1,
    decreases n,
{
    if n < 1000 {
        lemma_decimal_len(n);
    } else {
        lemma_grouped_len(n / 1000);
    }
}

/// A number below zero is written as a minus sign and what is above zero as it is.
pub proof fn law_sign_is_a_minus(i: int, max: int)
    requires
        -max <= i <= max,
    ensures
        i >= 0 ==> uint_value(signed_decimal(i), 10, max) == Ok::<int, IntError>(i),
        i < 0 ==> signed_decimal(i)[0] == '-' && uint_value(
            signed_decimal(i).subrange(1, signed_decimal(i).len() as int),
            10,
            max,
        ) == Ok::<int, IntError>(-i),
{
    if i >= 0 {
        law_decimal_reads_back(i as nat, max);
    } else {
        law_decimal_reads_back((-i) as nat, max);
        let s = signed_decimal(i);
        assert(s.subrange(1, s.len() as int) =~= decimal((-i) as nat));
    }
}

/// Two digits at least, that read back as the number.
pub proof fn law_two_digits_read_back(n: nat, max: int)
    requires
        n <= max,
        max >= 9,
    ensures
        two_digits(n).len() >= 2,
        n < 100 ==> two_digits(n).len() == 2,
        uint_value(two_digits(n), 10, max) == Ok::<int, IntError>(n as int),
{
    if n < 10 {
        let s = two_digits(n);
        assert(s.drop_last() =~= seq!['0']);
        assert(s.drop_last().drop_last() =~= Seq::<char>::empty());
        assert(digits_value(s.drop_last().drop_last(), 10, max) == Ok::<int, IntError>(0));
        assert(digits_value(s.drop_last(), 10, max) == Ok::<int, IntError>(0));
        assert(digit_value(s.last(), 10) == Some(n as int));
    } else {
        law_decimal_reads_back(n, max);
        reveal_with_fuel(decimal, 3);
    }
}

/// A number of tenths is written as its whole part, a point and one digit.
pub proof fn law_tenths_read_back(t: nat, max: int)
    requires
        t <= max,
    ensures
        ({
            let s = tenths_text(t);
            let n = s.len() as int;
            &&& n >= 3
            &&& s[n - 2] == '.'
            &&& uint_value(s.subrange(0, n - 2), 10, max) == Ok::<int, IntError>(t as int / 10)
            &&& digit_value(s[n - 1], 10) == Some(t as int % 10)
        }),
{
    let s = tenths_text(t);
    let n = s.len() as int;
    lemma_decimal_chars(t / 10);
    assert(s.subrange(0, n - 2) =~= decimal(t / 10));
    law_decimal_reads_back(t / 10, max);
}

/// The nearest integer to a quotient is no further from it than a half.
pub proof fn law_rounded_is_nearest(n: nat, d: nat)
    requires
        d > 0,
    ensures
        2 * (rounded(n, d) * d) <= 2 * n + d,
        2 * n <= 2 * (rounded(n, d) * d) + d,
{
    let q = n / d;
    let r = n % d;
    assert(n == q * d + r && r < d) by (nonlinear_arith)
        requires
            d > 0,
            q == n / d,
            r == n % d,
    ;
    assert((q + 1) * d == q * d + d) by (nonlinear_arith);
}

proof fn lemma_round_small(a: nat, b: nat, e: int) -> (k: nat)
    requires
        b > 0,
    ensures
        round_small(a, b, e) == (Dyadic { m: rounded(a * pow2(k), b), e: e - k }),
        a > 0 ==> a * pow2(k) >= 0x10_0000_0000_0000 * b,
        a == 0 ==> k == 0,
    decreases
            if a < 0x10_0000_0000_0000 * b {
                0x10_0000_0000_0000 * b - a
            } else {
                0
            },
{
    if 0 < a < 0x10_0000_0000_0000 * b {
        let k = lemma_round_small(2 * a, b, e - 1);
        vstd::arithmetic::power2::lemma_pow2_unfold(k + 1);
        let p = pow2(k);
        assert((2 * a) * p == a * (2 * p)) by (nonlinear_arith);
        k + 1
    } else {
        vstd::arithmetic::power2::lemma2_to64();
        assert(a * pow2(0) == a) by (nonlinear_arith)
            requires
                pow2(0) == 1,
        ;
        0
    }
}

/// A quotient is shown to the nearest tenth: the tenths shown, times the divisor, are
/// within half a tenth of ten times the dividend (and a half more for the rounding of
/// doubles).
pub proof fn law_quotient_is_shown_to_the_nearest_tenth(n: nat, d: nat, shift: nat) -> (t: nat)
    requires
        n < 0x2_0000_0000_0000,
        0 < d < 0x20_0000_0000_0000,
    ensures
        quotient_text(n, d, shift) == tenths_text(t),
        2 * (t * (d * pow2(shift))) <= 20 * n + d * pow2(shift) + 1,
        20 * n <= 2 * (t * (d * pow2(shift))) + d * pow2(shift) + 1,
{
    vstd::arithmetic::power2::lemma2_to64();
    assert(rounded(n, 1) == n);
    assert(rounded(d, 1) == d);
    assert(n * pow2(0) == n) by (nonlinear_arith)
        requires
            pow2(0) == 1,
    ;
    assert(d * pow2(0) == d) by (nonlinear_arith)
        requires
            pow2(0) == 1,
    ;
    assert(round_large(n, 1, 0) == (Dyadic { m: n, e: 0 }));
    assert(round_large(d, 1, 0) == (Dyadic { m: d, e: 0 }));
    assert(double_integer(n) == n);
    assert(double_integer(d) == d);
    let k = lemma_round_small(n, d, 0);
    let p = pow2(k);
    let s = pow2(shift);
    vstd::arithmetic::power2::lemma_pow2_pos(k);
    vstd::arithmetic::power2::lemma_pow2_pos(shift);
    vstd::arithmetic::power2::lemma_pow2_adds(k, shift);
    let q = double_quotient(n, d);
    let m = q.m;
    let t = nearest_tenths(Dyadic { m, e: q.e - shift });
    if n == 0 {
        assert(n * p == 0) by (nonlinear_arith)
            requires
                n == 0,
        ;
        assert(rounded(0, d) == 0) by {
            assert(0nat / d == 0 && 0nat % d == 0) by (nonlinear_arith)
                requires
                    d > 0,
            ;
        }
        assert(m == 0);
        if q.e - shift < 0 {
            let w = pow2((-(q.e - shift)) as nat);
            vstd::arithmetic::power2::lemma_pow2_pos((-(q.e - shift)) as nat);
            assert(0nat / w == 0 && 0nat % w == 0) by (nonlinear_arith)
                requires
                    w > 0,
            ;
        } else {
            let w = pow2((q.e - shift) as nat);
            assert(10 * 0nat * w == 0) by (nonlinear_arith);
        }
        assert(t == 0);
        assert(0 * (d * s) == 0) by (nonlinear_arith);
        assert(d * s >= 0) by (nonlinear_arith);
    } else {
        assert(p > 1) by (nonlinear_arith)
            requires
                n * p >= 0x10_0000_0000_0000 * d,
                n < 0x2_0000_0000_0000,
                d > 0,
                p > 0,
        ;
        assert(k > 0);
        let ps = p * s;
        assert(ps > 0) by (nonlinear_arith)
            requires
                p > 0,
                s > 0,
                ps == p * s,
        ;
        assert(t == rounded(10 * m, ps));
        law_rounded_is_nearest(10 * m, ps);
        law_rounded_is_nearest(n * p, d);
        lemma_near(n, d, p, s, m, t);
    }
    t
}

proof fn lemma_near(n: nat, d: nat, p: nat, s: nat, m: nat, t: nat)
    requires
        0 < d,
        0 < p,
        0 < s,
        n < 0x2_0000_0000_0000,
        n * p >= 0x10_0000_0000_0000 * d,
        2 * (m * d) <= 2 * (n * p) + d,
        2 * (n * p) <= 2 * (m * d) + d,
        2 * (t * (p * s)) <= 2 * (10 * m) + p * s,
        2 * (10 * m) <= 2 * (t * (p * s)) + p * s,
    ensures
        2 * (t * (d * s)) <= 20 * n + d * s + 1,
        20 * n <= 2 * (t * (d * s)) + d * s + 1,
{
    let ds = d * s;
    let tds = t * ds;
    assert(10 * d < 2 * p) by (nonlinear_arith)
        requires
            n < 0x2_0000_0000_0000,
            n * p >= 0x10_0000_0000_0000 * d,
            p > 0,
    ;
    // everything times p
    assert((t * (p * s)) * d == tds * p) by (nonlinear_arith)
        requires
            tds == t * ds,
            ds == d * s,
    ;
    assert((p * s) * d == ds * p) by (nonlinear_arith)
        requires
            ds == d * s,
    ;
    assert(2 * (t * (p * s)) * d <= (20 * m + p * s) * d) by (nonlinear_arith)
        requires
            2 * (t * (p * s)) <= 2 * (10 * m) + p * s,
            d > 0,
    ;
    assert(20 * m * d <= (2 * (t * (p * s)) + p * s) * d) by (nonlinear_arith)
        requires
            2 * (10 * m) <= 2 * (t * (p * s)) + p * s,
            d > 0,
    ;
    assert((20 * m + p * s) * d == 20 * (m * d) + (p * s) * d) by (nonlinear_arith);
    assert((2 * (t * (p * s)) + p * s) * d == 2 * ((t * (p * s)) * d) + (p * s) * d)
        by (nonlinear_arith);
    assert(2 * (t * (p * s)) * d == 2 * ((t * (p * s)) * d)) by (nonlinear_arith);
    assert(20 * m * d == 20 * (m * d)) by (nonlinear_arith);
    assert(2 * (tds * p) <= 20 * (n * p) + 10 * d + ds * p);
    assert(20 * (n * p) <= 2 * (tds * p) + ds * p + 10 * d);
    assert(2 * tds < 20 * n + ds + 2) by (nonlinear_arith)
        requires
            2 * (tds * p) <= 20 * (n * p) + 10 * d + ds * p,
            10 * d < 2 * p,
            p > 0,
    ;
    assert(20 * n < 2 * tds + ds + 2) by (nonlinear_arith)
        requires
            20 * (n * p) <= 2 * (tds * p) + ds * p + 10 * d,
            10 * d < 2 * p,
            p > 0,
    ;
}

}

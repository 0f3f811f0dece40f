//! Exact decimal rendering of rates and counts.

use vstd::prelude::*;
use vstd::arithmetic::div_mod::{lemma_fundamental_div_mod, lemma_fundamental_div_mod_converse};
use crate::text::push_char;

verus! {

/// The decimal digit character for `d` (0 through 9).
pub open spec fn digit_char(d: nat) -> char {
    if d == 0 {
        '0'
    } else if d == 1 {
        '1'
    } else if d == 2 {
        '2'
    } else if d == 3 {
        '3'
    } else if d == 4 {
        '4'
    } else if d == 5 {
        '5'
    } else if d == 6 {
        '6'
    } else if d == 7 {
        '7'
    } else if d == 8 {
        '8'
    } else {
        '9'
    }
}

/// The decimal representation of `n`, without leading zeros ("0" for zero).
pub open spec fn decimal_digits(n: nat) -> Seq<char>
    decreases n,
{
    if n < 10 {
        seq![digit_char(n)]
    } else {
        decimal_digits(n / 10).push(digit_char(n % 10))
    }
}

/// The last `w` decimal digits of `n`, with leading zeros.
pub open spec fn digits_width(n: nat, w: nat) -> Seq<char>
    decreases w,
{
    if w == 0 {
        seq![]
    } else {
        digits_width(n / 10, (w - 1) as nat).push(digit_char(n % 10))
    }
}

/// Ten to the power `d`.
pub open spec fn pow10(d: nat) -> nat
    decreases d,
{
    if d == 0 { 1 } else { 10 * pow10((d - 1) as nat) }
}

/// `num / den` scaled by `10^d` and rounded to the nearest integer, ties to even.
pub open spec fn rounded_scaled(num: nat, den: nat, d: nat) -> nat {
    let x = num * pow10(d);
    let q = x / den;
    let r = x % den;
    if 2 * r > den || (2 * r == den && q % 2 == 1) {
        q + 1
    } else {
        q
    }
}

/// The number `n / 10^d` written with exactly `d` digits after the point.
pub open spec fn fixed_point(n: nat, d: nat) -> Seq<char> {
    decimal_digits(n / pow10(d)) + seq!['.'] + digits_width(n % pow10(d), d)
}

/// `num / den` written with `d` digits after the point, rounded half to even.
pub open spec fn decimal_fraction(num: nat, den: nat, d: nat) -> Seq<char> {
    fixed_point(rounded_scaled(num, den, d), d)
}

/// `num / den` as a percentage with two digits after the point, rounded half to even.
pub open spec fn percentage(num: nat, den: nat) -> Seq<char> {
    fixed_point(rounded_scaled(num, den, 4), 2)
}

/// The powers of ten used for rendering.
proof fn lemma_pow10_small()
    ensures
        pow10(2) == 100,
        pow10(4) == 10000,
{
    reveal_with_fuel(pow10, 5);
}

/// The digit character for `d`.
fn digit(d: u128) -> (c: char)
    requires
        d < 10,
    ensures
        c == digit_char(d as nat),
{
    if d == 0 {
        '0'
    } else if d == 1 {
        '1'
    } else if d == 2 {
        '2'
    } else if d == 3 {
        '3'
    } else if d == 4 {
        '4'
    } else if d == 5 {
        '5'
    } else if d == 6 {
        '6'
    } else if d == 7 {
        '7'
    } else if d == 8 {
        '8'
    } else {
        '9'
    }
}

/// Append the decimal representation of `n`.
pub fn push_decimal(s: &mut String, n: u128)
    ensures
        final(s)@ == old(s)@ + decimal_digits(n as nat),
    decreases n,
{
    if n >= 10 {
        push_decimal(s, n / 10);
    }
    push_char(s, digit(n % 10));
    proof {
        if n >= 10 {
            assert(old(s)@ + decimal_digits((n / 10) as nat) + seq![digit_char((n % 10) as nat)] =~= old(
                s,
            )@ + decimal_digits(n as nat));
        } else {
            assert(old(s)@.push(digit_char(n as nat)) =~= old(s)@ + decimal_digits(n as nat));
        }
    }
}

/// Append the last `w` decimal digits of `n`, with leading zeros.
fn push_digits_width(s: &mut String, n: u128, w: usize)
    ensures
        final(s)@ == old(s)@ + digits_width(n as nat, w as nat),
    decreases w,
{
    if w > 0 {
        push_digits_width(s, n / 10, w - 1);
        push_char(s, digit(n % 10));
        proof {
            assert(old(s)@ + digits_width((n / 10) as nat, (w - 1) as nat) + seq![digit_char(
                (n % 10) as nat,
            )] =~= old(s)@ + digits_width(n as nat, w as nat));
        }
    } else {
        assert(old(s)@ + digits_width(n as nat, 0) =~= old(s)@);
    }
}

/// The next decimal digit of a remainder: `10 * r == d * den + r2` with `r2 < den`.
fn digit_step(r: u128, den: u128) -> (res: (u128, u128))
    requires
        r < den,
    ensures
        res.0 < 10,
        res.1 < den,
        10 * r == res.0 * den + res.1,
{
    let mut t: u128 = 0;
    let mut d: u128 = 0;
    let mut k: u128 = 0;
    while k < 10
        invariant
            k <= 10,
            r < den,
            t < den,
            d <= k,
            k * r == d * den + t,
        decreases 10 - k,
    {
        proof {
            assert((k + 1) * r == k * r + r) by (nonlinear_arith);
            assert((d + 1) * den == d * den + den) by (nonlinear_arith);
        }
        if t >= den - r {
            t = t - (den - r);
            d = d + 1;
        } else {
            t = t + r;
        }
        k = k + 1;
    }
    proof {
        assert(d < 10) by (nonlinear_arith)
            requires
                10 * r == d * den + t,
                r < den,
                t >= 0,
        ;
    }
    (d, t)
}

/// `num / den` rounded to four decimal places (half to even), split into its
/// integer part and its four decimals.
fn ten_thousandths(num: u128, den: u128) -> (res: (u128, u128))
    requires
        den > 0,
    ensures
        res.1 < 10000,
        res.0 * 10000 + res.1 == rounded_scaled(num as nat, den as nat, 4),
{
    let q0 = num / den;
    let r0 = num % den;
    let (d1, r1) = digit_step(r0, den);
    let (d2, r2) = digit_step(r1, den);
    let (d3, r3) = digit_step(r2, den);
    let (d4, r4) = digit_step(r3, den);
    let frac = d1 * 1000 + d2 * 100 + d3 * 10 + d4;
    proof {
        lemma_pow10_small();
        lemma_fundamental_div_mod(num as int, den as int);
        assert(num == q0 * den + r0);
        assert(r0 * 10000 == frac * den + r4) by (nonlinear_arith)
            requires
                10 * r0 == d1 * den + r1,
                10 * r1 == d2 * den + r2,
                10 * r2 == d3 * den + r3,
                10 * r3 == d4 * den + r4,
                frac == d1 * 1000 + d2 * 100 + d3 * 10 + d4,
        ;
        assert(num * 10000 == (q0 * 10000 + frac) * den + r4) by (nonlinear_arith)
            requires
                num == q0 * den + r0,
                r0 * 10000 == frac * den + r4,
        ;
        lemma_fundamental_div_mod_converse(
            (num * 10000) as int,
            den as int,
            (q0 * 10000 + frac) as int,
            r4 as int,
        );
    }
    let up = r4 > den - r4 || (r4 == den - r4 && frac % 2 == 1);
    proof {
        assert((q0 * 10000 + frac) % 2 == frac % 2) by (nonlinear_arith);
    }
    if !up {
        (q0, frac)
    } else if frac == 9999 {
        proof {
            if q0 == u128::MAX {
                assert(q0 * den <= num) by (nonlinear_arith)
                    requires
                        num == q0 * den + r0,
                        r0 >= 0,
                ;
                assert(den == 1) by (nonlinear_arith)
                    requires
                        q0 * den <= num,
                        q0 == u128::MAX,
                        num <= u128::MAX,
                        den > 0,
                ;
            }
        }
        (q0 + 1, 0)
    } else {
        (q0, frac + 1)
    }
}

/// The two decimal digits of `n` above the last two.
proof fn lemma_decimal_digits_hundreds(a: nat, b: nat)
    requires
        a > 0,
        b < 100,
    ensures
        decimal_digits(a * 100 + b) == decimal_digits(a) + digits_width(b, 2),
{
    let n = a * 100 + b;
    let m = a * 10 + b / 10;
    assert(n / 10 == m && n % 10 == b % 10) by (nonlinear_arith)
        requires
            n == a * 100 + b,
            m == a * 10 + b / 10,
            b < 100,
    ;
    assert(m / 10 == a && m % 10 == b / 10) by (nonlinear_arith)
        requires
            m == a * 10 + b / 10,
            b < 100,
    ;
    assert(n >= 10 && m >= 10) by (nonlinear_arith)
        requires
            n == a * 100 + b,
            m == a * 10 + b / 10,
            a > 0,
    ;
    assert(decimal_digits(n) == decimal_digits(m).push(digit_char(b % 10)));
    assert(decimal_digits(m) == decimal_digits(a).push(digit_char(b / 10)));
    reveal_with_fuel(digits_width, 3);
    assert((b / 10) % 10 == b / 10);
    assert(digits_width(b, 2) =~= seq![digit_char(b / 10), digit_char(b % 10)]);
}

/// `num / den` written with four digits after the point, rounded half to even.
pub fn format_decimal(num: u128, den: u128) -> (s: String)
    requires
        den > 0,
    ensures
        s@ == decimal_fraction(num as nat, den as nat, 4),
{
    let (int_part, frac) = ten_thousandths(num, den);
    let mut s = String::new();
    push_decimal(&mut s, int_part);
    push_char(&mut s, '.');
    push_digits_width(&mut s, frac, 4);
    proof {
        let n = rounded_scaled(num as nat, den as nat, 4);
        lemma_pow10_small();
        lemma_fundamental_div_mod_converse(n as int, 10000, int_part as int, frac as int);
    }
    s
}

/// `num / den` as a percentage with two digits after the point, rounded half to even.
pub fn format_percentage(num: u128, den: u128) -> (s: String)
    requires
        den > 0,
    ensures
        s@ == percentage(num as nat, den as nat),
{
    let (int_part, frac) = ten_thousandths(num, den);
    let hundreds = frac / 100;
    let rest = frac % 100;
    let mut s = String::new();
    if int_part == 0 {
        push_decimal(&mut s, hundreds);
    } else {
        push_decimal(&mut s, int_part);
        push_digits_width(&mut s, hundreds, 2);
    }
    push_char(&mut s, '.');
    push_digits_width(&mut s, rest, 2);
    proof {
        let n = rounded_scaled(num as nat, den as nat, 4);
        lemma_pow10_small();
        assert(n == (int_part * 100 + hundreds) * 100 + rest);
        lemma_fundamental_div_mod_converse(
            n as int,
            100,
            (int_part * 100 + hundreds) as int,
            rest as int,
        );
        if int_part > 0 {
            lemma_decimal_digits_hundreds(int_part as nat, hundreds as nat);
        }
    }
    s
}

} // verus!

//! Rounding quotients, and decimal fractions as whole numbers of a small unit.
//!
//! Weights are kept in milligrams, amounts of money in cents or thousandths of a cent, lengths
//! in micrometres, and factors in millionths.

use vstd::prelude::*;

use crate::text;

verus! {

/// The whole number nearest to `n / d`; halves go away from zero.
pub open spec fn rounded(n: int, d: int) -> int
    recommends
        d > 0,
{
    if n >= 0 {
        (2 * n + d) / (2 * d)
    } else {
        -((-2 * n + d) / (2 * d))
    }
}

/// The whole number nearest to `n / d`; halves go to the even neighbour.
pub open spec fn rounded_even(n: int, d: int) -> int
    recommends
        d > 0,
{
    let q = n / d;
    let r = n % d;
    if 2 * r < d || 2 * r == d && q % 2 == 0 {
        q
    } else {
        q + 1
    }
}

/// A number without its sign.
pub open spec fn size(n: int) -> int {
    if n >= 0 {
        n
    } else {
        -n
    }
}

/// `n / d`, without its fraction.
pub open spec fn truncated(n: int, d: int) -> int
    recommends
        d > 0,
{
    if n >= 0 {
        n / d
    } else {
        -((-n) / d)
    }
}

pub fn round_div(n: i128, d: i128) -> (r: i128)
    requires
        d > 0,
        n > i128::MIN,
    ensures
        r == rounded(n as int, d as int),
        n >= 0 ==> 0 <= r <= n,
        n <= 0 ==> n <= r <= 0,
{
    let size: i128 = if n >= 0 {
        n
    } else {
        -n
    };
    let rest: i128 = size % d;
    proof {
        lemma_rounded_bound(size as int, d as int);
        lemma_rounded_parts(size as int, d as int);
        assert(0 <= rest < d) by (nonlinear_arith)
            requires
                size >= 0,
                d > 0,
                rest == size % d,
        ;
        assert(0 <= size / d <= size) by (nonlinear_arith)
            requires
                size >= 0,
                d > 0,
        ;
    }
    let q: i128 = if rest >= d - rest {
        size / d + 1
    } else {
        size / d
    };
    if n >= 0 {
        q
    } else {
        -q
    }
}

proof fn lemma_rounded_bound(n: int, d: int)
    requires
        n >= 0,
        d > 0,
    ensures
        0 <= (2 * n + d) / (2 * d) <= n + 1,
        n == 0 ==> (2 * n + d) / (2 * d) == 0,
        (2 * n + d) / (2 * d) <= n || n == 0,
{
    let q = (2 * n + d) / (2 * d);
    assert(2 * n + d == (2 * d) * q + (2 * n + d) % (2 * d) && 0 <= (2 * n + d) % (2 * d) < 2 * d)
        by (nonlinear_arith)
        requires
            d > 0,
            q == (2 * n + d) / (2 * d),
    ;
    assert(0 <= q) by (nonlinear_arith)
        requires
            n >= 0,
            d > 0,
            q == (2 * n + d) / (2 * d),
    ;
    assert(q <= n || n == 0) by (nonlinear_arith)
        requires
            n >= 0,
            d > 0,
            0 <= q,
            2 * d * q <= 2 * n + d,
    ;
    if n == 0 {
        assert(q == 0) by (nonlinear_arith)
            requires
                d > 0,
                0 <= q,
                2 * d * q <= d,
        ;
    }
}

proof fn lemma_rounded_parts(n: int, d: int)
    requires
        n >= 0,
        d > 0,
    ensures
        rounded(n, d) == n / d + if 2 * (n % d) >= d {
            1int
        } else {
            0
        },
{
    let q = n / d;
    let rest = n % d;
    assert(n == d * q + rest && 0 <= rest < d) by (nonlinear_arith)
        requires
            q == n / d,
            rest == n % d,
            d > 0,
    ;
    if 2 * rest >= d {
        assert((2 * n + d) / (2 * d) == q + 1) by (nonlinear_arith)
            requires
                n == d * q + rest,
                d <= 2 * rest,
                rest < d,
                d > 0,
        ;
    } else {
        assert((2 * n + d) / (2 * d) == q) by (nonlinear_arith)
            requires
                n == d * q + rest,
                2 * rest < d,
                0 <= rest,
                d > 0,
        ;
    }
}

/// Like `round_div`, for every number that has an opposite.
pub fn round_large(n: i128, d: i128) -> (r: i128)
    requires
        0 < d <= 1_000_000_000_000_000_000_000_000,
        n > i128::MIN,
    ensures
        r == rounded(n as int, d as int),
        r > i128::MIN,
        d >= 2 ==> -100_000_000_000_000_000_000_000_000_000_000_000_000 <= r
            <= 100_000_000_000_000_000_000_000_000_000_000_000_000,
{
    let size: i128 = if n >= 0 {
        n
    } else {
        -n
    };
    proof {
        lemma_rounded_parts(size as int, d as int);
        lemma_quotient_bound(size as int, d as int);
    }
    let rest: i128 = size % d;
    let q: i128 = if rest >= d - rest {
        size / d + 1
    } else {
        size / d
    };
    if n >= 0 {
        q
    } else {
        -q
    }
}

proof fn lemma_quotient_bound(n: int, d: int)
    requires
        0 <= n <= i128::MAX,
        d > 0,
    ensures
        0 <= n / d <= n,
        d >= 2 ==> 2 * (n / d) <= n,
        d == 1 ==> n % d == 0,
{
    assert(0 <= n / d <= n) by (nonlinear_arith)
        requires
            0 <= n,
            d > 0,
    ;
    if d >= 2 {
        assert(2 * (n / d) <= n) by (nonlinear_arith)
            requires
                0 <= n,
                d >= 2,
        ;
    }
}

/// A number of thousandths rounded to whole units, as `{:.0}` writes them.
pub fn round_even_thousandths(n: i128) -> (r: i128)
    requires
        -10_000_000_000_000_000_000_000_000_000_000_000_000 <= n
            <= 10_000_000_000_000_000_000_000_000_000_000_000_000,
    ensures
        r == rounded_even(n as int, 1000),
{
    if n >= 0 {
        let q: i128 = n / 1000;
        let rest: i128 = n % 1000;
        if rest < 500 || (rest == 500 && q % 2 == 0) {
            q
        } else {
            q + 1
        }
    } else {
        // `n` is `1000 * (-q - 1) + (999 - rest)`.
        let q: i128 = (-(n + 1)) / 1000;
        let rest: i128 = 999 - (-(n + 1)) % 1000;
        if rest < 500 || (rest == 500 && q % 2 == 1) {
            -q - 1
        } else {
            -q
        }
    }
}

/// A whole number for a number of thousandths, as `{:.0}` writes it: minus signs stay with
/// numbers that round to nothing.
pub open spec fn rounded_text(n: int) -> Seq<char> {
    let r = rounded_even(n, 1000);
    if n < 0 && r == 0 {
        seq!['-', '0']
    } else {
        text::decimal_int(r)
    }
}

pub fn push_rounded(out: &mut String, n: i64)
    ensures
        final(out)@ == old(out)@ + rounded_text(n as int),
{
    let r: i128 = round_even_thousandths(n as i128);
    if n < 0 && r == 0 {
        out.push('-');
        out.push('0');
        assert(out@ =~= old(out)@ + rounded_text(n as int));
    } else {
        text::push_decimal_int(out, r as i64);
    }
}

/// A number of small units, with the zeros at its end left out. There are `10^places` in one.
pub open spec fn fixed_text(n: nat, unit: nat, places: int) -> Seq<char> {
    text::decimal(n / unit) + if n % unit == 0 {
        seq![]
    } else {
        seq!['.'] + text::drop_trailing(
            text::zero_padded(text::decimal(n % unit), places),
            '0',
        )
    }
}

pub fn push_fixed(out: &mut String, n: u64, unit: u64, places: usize)
    requires
        unit > 0,
    ensures
        final(out)@ == old(out)@ + fixed_text(n as nat, unit as nat, places as int),
{
    text::push_decimal(out, n / unit);
    let rest: u64 = n % unit;
    if rest != 0 {
        let mut padded = String::new();
        text::push_zero_padded(&mut padded, text::decimal_string(rest).as_str(), places);
        let digits = text::chars(padded.as_str());
        out.push('.');
        out.append(text::string(text::without_trailing(digits.as_slice(), '0')).as_str());
    }
    assert(out@ =~= old(out)@ + fixed_text(n as nat, unit as nat, places as int));
}

/// Thousandths with the zeros at their end left out: `400` is `0.4`, `1000` is `1`.
pub open spec fn thousandths_text(n: nat) -> Seq<char> {
    let whole = text::decimal(n / 1000);
    let rest = n % 1000;
    if rest == 0 {
        whole
    } else if rest % 100 == 0 {
        whole + seq!['.', text::digit_char((rest / 100) as int)]
    } else if rest % 10 == 0 {
        whole + seq![
            '.',
            text::digit_char((rest / 100) as int),
            text::digit_char((rest / 10 % 10) as int),
        ]
    } else {
        whole + seq![
            '.',
            text::digit_char((rest / 100) as int),
            text::digit_char((rest / 10 % 10) as int),
            text::digit_char((rest % 10) as int),
        ]
    }
}

pub fn push_thousandths(out: &mut String, n: u64)
    ensures
        final(out)@ == old(out)@ + thousandths_text(n as nat),
{
    text::push_decimal(out, n / 1000);
    let rest: u64 = n % 1000;
    if rest != 0 {
        out.push('.');
        out.push(text::char_of_digit((rest / 100) as u8));
        if rest % 100 != 0 {
            out.push(text::char_of_digit((rest / 10 % 10) as u8));
            if rest % 10 != 0 {
                out.push(text::char_of_digit((rest % 10) as u8));
            }
        }
    }
    assert(out@ =~= old(out)@ + thousandths_text(n as nat));
}

// ---------------------------------------------------------------------------------------------
// Laws
// ---------------------------------------------------------------------------------------------

/// Rounding misses by half at most, and halves go away from zero.
pub proof fn rounding_misses_by_half_at_most(n: int, d: int)
    requires
        d > 0,
    ensures
        n >= 0 ==> 2 * n - d < 2 * (d * rounded(n, d)) <= 2 * n + d,
        n < 0 ==> 2 * n - d <= 2 * (d * rounded(n, d)) < 2 * n + d,
{
    let size = if n >= 0 {
        n
    } else {
        -n
    };
    let q = (2 * size + d) / (2 * d);
    vstd::arithmetic::div_mod::lemma_fundamental_div_mod(2 * size + d, 2 * d);
    vstd::arithmetic::div_mod::lemma_mod_bound(2 * size + d, 2 * d);
    assert((2 * d) * q == 2 * (d * q)) by (nonlinear_arith);
    assert(d * (-q) == -(d * q)) by (nonlinear_arith);
}

/// Rounding to even misses by half at most, and by half only on the way to an even number.
pub proof fn rounding_to_even_misses_by_half_at_most(n: int, d: int)
    requires
        d > 0,
    ensures
        2 * n - d <= 2 * (d * rounded_even(n, d)) <= 2 * n + d,
        2 * (d * rounded_even(n, d)) == 2 * n - d || 2 * (d * rounded_even(n, d)) == 2 * n + d
            ==> rounded_even(n, d) % 2 == 0,
{
    vstd::arithmetic::div_mod::lemma_fundamental_div_mod(n, d);
    vstd::arithmetic::div_mod::lemma_mod_bound(n, d);
    let q = n / d;
    assert(d * (q + 1) == d * q + d) by (nonlinear_arith);
}

/// Cutting a fraction off moves a number towards zero, by less than one.
pub proof fn cutting_moves_towards_zero(n: int, d: int)
    requires
        d > 0,
    ensures
        n >= 0 ==> n - d < d * truncated(n, d) <= n && truncated(n, d) >= 0,
        n <= 0 ==> n <= d * truncated(n, d) < n + d && truncated(n, d) <= 0,
{
    let size = if n >= 0 {
        n
    } else {
        -n
    };
    let q = size / d;
    vstd::arithmetic::div_mod::lemma_fundamental_div_mod(size, d);
    vstd::arithmetic::div_mod::lemma_mod_bound(size, d);
    assert(d * (-q) == -(d * q)) by (nonlinear_arith);
    assert(q >= 0) by (nonlinear_arith)
        requires
            size >= 0,
            d > 0,
            q == size / d,
    ;
}

} // verus!

//! What a decimal fraction becomes in a 64-bit binary float.
//!
//! It becomes the nearest number that such a float holds. These have 53 binary digits, so a bound
//! on the float is a bound on the fraction that lies half a unit of the last binary digit further
//! out.

use vstd::arithmetic::power2::pow2;
use vstd::prelude::*;

use crate::decimal::{self, pow10, Written};
use crate::text;

verus! {

/// `m` times `10^k` is more than `t`.
pub open spec fn exceeds(m: nat, k: int, t: nat) -> bool {
    if k >= 0 {
        m * pow10(k as nat) > t
    } else {
        m > t * pow10((-k) as nat)
    }
}

/// `m` times `10^k` is less than `t`.
pub open spec fn falls_short(m: nat, k: int, t: nat) -> bool {
    exceeds(t, -k, m)
}

/// A number's digits times `2^n`.
pub open spec fn shifted(number: Written, n: nat) -> nat {
    text::digits_value(number.digits) * pow2(n)
}

/// The size of the float is finite: the largest one is `2^1024 - 2^971`.
pub open spec fn is_finite(number: Written) -> bool {
    falls_short(shifted(number, 0), number.scale, ((pow2(54) - 1) * pow2(970)) as nat)
}

/// The size of the float is at least 1. The one before 1 is `1 - 2^-53`; what lies in the middle
/// becomes 1, the even one.
pub open spec fn reaches_one(number: Written) -> bool {
    !falls_short(shifted(number, 54), number.scale, (pow2(54) - 1) as nat)
}

/// The size of the float is at least 100. The one before 100 is `100 - 2^-46`; what lies in the
/// middle becomes 100, the even one.
pub open spec fn reaches_hundred(number: Written) -> bool {
    !falls_short(shifted(number, 47), number.scale, (100 * pow2(47) - 1) as nat)
}

/// The size of the float is more than 100. The one after 100 is `100 + 2^-46`; what lies in the
/// middle becomes 100, the even one.
pub open spec fn exceeds_hundred(number: Written) -> bool {
    exceeds(shifted(number, 47), number.scale, 100 * pow2(47) + 1)
}

/// The size of the float is more than 20000. The one after 20000 is `20000 + 2^-38`; what lies in
/// the middle becomes 20000, the even one.
pub open spec fn exceeds_20000(number: Written) -> bool {
    exceeds(shifted(number, 39), number.scale, 20_000 * pow2(39) + 1)
}

/// The float is 0. The smallest one above 0 is `2^-1074`; what lies in the middle becomes 0, the
/// even one.
pub open spec fn vanishes(number: Written) -> bool {
    !exceeds(shifted(number, 1075), number.scale, 1)
}

// ---------------------------------------------------------------------------------------------
// Digits
// ---------------------------------------------------------------------------------------------

/// Digits without the zeros in front of them.
fn stripped(s: &[char]) -> (r: &[char])
    requires
        text::all_digits(s@),
    ensures
        text::all_digits(r@),
        text::digits_value(r@) == text::digits_value(s@),
        r@.len() <= s@.len(),
        r@.len() > 0 ==> r@[0] != '0',
{
    let mut zeros: usize = 0;
    while zeros < s.len() && s[zeros] == '0'
        invariant
            zeros <= s@.len(),
            forall|i: int| 0 <= i < zeros ==> s@[i] == '0',
        decreases s.len() - zeros,
    {
        zeros += 1;
    }
    let r = vstd::slice::slice_subrange(s, zeros, s.len());
    proof {
        decimal::lemma_leading_zeros(s@, zeros as int);
        assert(r@ =~= s@.skip(zeros as int));
    }
    r
}

/// Without zeros in front, digits count by how many there are.
proof fn lemma_length(s: Seq<char>)
    requires
        text::all_digits(s),
        s.len() > 0,
        s[0] != '0',
    ensures
        pow10((s.len() - 1) as nat) <= text::digits_value(s) < pow10(s.len()),
{
    decimal::lemma_first_digit(s);
    decimal::lemma_digits_below(s);
    let d = text::digit_value(s[0]);
    let p = pow10((s.len() - 1) as nat) as int;
    assert(text::is_digit(s[0]));
    assert(d * p >= p) by (nonlinear_arith)
        requires
            d >= 1,
            p >= 0,
    ;
}

/// Of as many digits, the first that differ decide.
proof fn lemma_first_difference(a: Seq<char>, b: Seq<char>, i: int)
    requires
        text::all_digits(a),
        text::all_digits(b),
        a.len() == b.len(),
        0 <= i < a.len(),
        a.take(i) == b.take(i),
        text::digit_value(a[i]) > text::digit_value(b[i]),
    ensures
        text::digits_value(a) > text::digits_value(b),
{
    let (x, y) = (a.skip(i), b.skip(i));
    assert(a =~= a.take(i) + x && b =~= b.take(i) + y);
    assert(text::all_digits(a.take(i)) && text::all_digits(b.take(i)));
    assert forall|k: int| 0 <= k < x.len() implies text::is_digit(#[trigger] x[k]) by {
        assert(x[k] == a[k + i]);
    }
    assert forall|k: int| 0 <= k < y.len() implies text::is_digit(#[trigger] y[k]) by {
        assert(y[k] == b[k + i]);
    }
    decimal::lemma_digits_concat(a.take(i), x);
    decimal::lemma_digits_concat(b.take(i), y);
    decimal::lemma_first_digit(x);
    decimal::lemma_first_digit(y);
    let p = pow10((x.len() - 1) as nat) as int;
    let (d, e) = (text::digit_value(x[0]), text::digit_value(y[0]));
    assert(d * p >= e * p + p) by (nonlinear_arith)
        requires
            d >= e + 1,
            p >= 0,
    ;
}

fn greater(a: &[char], b: &[char]) -> (r: bool)
    requires
        text::all_digits(a@),
        text::all_digits(b@),
    ensures
        r == (text::digits_value(a@) > text::digits_value(b@)),
{
    let x = stripped(a);
    let y = stripped(b);
    proof {
        if x@.len() > 0 {
            lemma_length(x@);
        }
        if y@.len() > 0 {
            lemma_length(y@);
        }
        if x@.len() > y@.len() {
            decimal::lemma_pow10_grows(y@.len(), (x@.len() - 1) as nat);
        }
        if y@.len() > x@.len() {
            decimal::lemma_pow10_grows(x@.len(), (y@.len() - 1) as nat);
        }
    }
    if x.len() != y.len() {
        return x.len() > y.len();
    }
    let mut i: usize = 0;
    while i < x.len()
        invariant
            i <= x@.len(),
            x@.len() == y@.len(),
            x@.take(i as int) == y@.take(i as int),
            text::all_digits(x@),
            text::all_digits(y@),
            text::digits_value(x@) == text::digits_value(a@),
            text::digits_value(y@) == text::digits_value(b@),
        decreases x.len() - i,
    {
        if x[i] != y[i] {
            assert(text::is_digit(x@[i as int]) && text::is_digit(y@[i as int]));
            proof {
                if x@[i as int] as u32 > y@[i as int] as u32 {
                    lemma_first_difference(x@, y@, i as int);
                } else {
                    lemma_first_difference(y@, x@, i as int);
                }
            }
            return x[i] > y[i];
        }
        assert(x@.take(i + 1) =~= x@.take(i as int).push(x@[i as int]));
        assert(y@.take(i + 1) =~= y@.take(i as int).push(y@[i as int]));
        i += 1;
    }
    assert(x@.take(i as int) =~= x@ && y@.take(i as int) =~= y@);
    false
}

/// Digits with zeros behind them.
fn with_zeros(s: &[char], k: usize) -> (r: Vec<char>)
    requires
        text::all_digits(s@),
    ensures
        text::all_digits(r@),
        text::digits_value(r@) == text::digits_value(s@) * pow10(k as nat),
{
    let mut out: Vec<char> = Vec::new();
    let mut i: usize = 0;
    while i < s.len()
        invariant
            i <= s@.len(),
            out@ =~= s@.take(i as int),
        decreases s.len() - i,
    {
        out.push(s[i]);
        i += 1;
    }
    assert(out@ =~= s@);
    let ghost m = text::digits_value(s@);
    assert(m * pow10(0) == m) by (nonlinear_arith)
        requires
            pow10(0) == 1,
    ;
    let mut i: usize = 0;
    while i < k
        invariant
            i <= k,
            text::all_digits(out@),
            text::digits_value(out@) == m * pow10(i as nat),
        decreases k - i,
    {
        let ghost before = out@;
        out.push('0');
        proof {
            assert(out@.drop_last() =~= before);
            assert forall|x: int| 0 <= x < out@.len() implies text::is_digit(#[trigger] out@[x]) by {
                if x < before.len() {
                    assert(out@[x] == before[x]);
                }
            }
            let p = pow10(i as nat);
            assert(10 * (m * p) == m * (10 * p)) by (nonlinear_arith);
        }
        i += 1;
    }
    out
}

/// A first factor that is far larger decides.
proof fn lemma_far(m: nat, k: nat, t: nat, n: nat, l: nat)
    requires
        pow10(n) <= m,
        t < pow10(l),
        l <= n + k,
    ensures
        m * pow10(k) > t,
{
    decimal::lemma_pow10(n, k);
    decimal::lemma_pow10_grows(l, n + k);
    let (p, q) = (pow10(n), pow10(k));
    assert(m * q >= p * q) by (nonlinear_arith)
        requires
            m >= p,
    ;
}

fn test_exceeds(a: &[char], k: i128, b: &[char]) -> (r: bool)
    requires
        text::all_digits(a@),
        text::all_digits(b@),
        -0x1000_0000_0000_0000_0000_0000_0000 <= k <= 0x1000_0000_0000_0000_0000_0000_0000,
    ensures
        r == exceeds(text::digits_value(a@), k as int, text::digits_value(b@)),
{
    let a = stripped(a);
    let b = stripped(b);
    let ghost m = text::digits_value(a@);
    let ghost t = text::digits_value(b@);
    proof {
        decimal::lemma_digits_below(a@);
        decimal::lemma_digits_below(b@);
        if a@.len() > 0 {
            lemma_length(a@);
        }
        if b@.len() > 0 {
            lemma_length(b@);
        }
    }
    if k >= 0 {
        if a.len() == 0 {
            assert(0 * pow10(k as nat) == 0);
            return false;
        }
        if a.len() as i128 - 1 + k >= b.len() as i128 {
            proof {
                lemma_far(m, k as nat, t, (a@.len() - 1) as nat, b@.len());
            }
            return true;
        }
        let left = with_zeros(a, k as usize);
        greater(left.as_slice(), b)
    } else {
        let j: i128 = -k;
        if b.len() == 0 {
            assert(0 * pow10(j as nat) == 0);
            return a.len() > 0;
        }
        if b.len() as i128 - 1 + j >= a.len() as i128 {
            proof {
                lemma_far(t, j as nat, m, (b@.len() - 1) as nat, a@.len());
            }
            return false;
        }
        let right = with_zeros(b, j as usize);
        greater(a, right.as_slice())
    }
}

/// Far from the point, moving it still further changes nothing.
proof fn lemma_capped(a: Seq<char>, k: int, c: int, b: Seq<char>)
    requires
        text::all_digits(a),
        text::all_digits(b),
        a.len() <= 100_000_000_000_000_000_000,
        b.len() <= 100_000_000_000_000_000_000,
        decimal::is_capped(k, c),
    ensures
        exceeds(text::digits_value(a), k, text::digits_value(b)) == exceeds(
            text::digits_value(a),
            c,
            text::digits_value(b),
        ),
        exceeds(text::digits_value(b), -k, text::digits_value(a)) == exceeds(
            text::digits_value(b),
            -c,
            text::digits_value(a),
        ),
{
    let m = text::digits_value(a);
    let t = text::digits_value(b);
    decimal::lemma_digits_below(a);
    decimal::lemma_digits_below(b);
    if k > c {
        decimal::lemma_pow10_grows(0, k as nat);
        decimal::lemma_pow10_grows(0, c as nat);
        if m == 0 {
            assert(0 * pow10(k as nat) == 0 && 0 * pow10(c as nat) == 0);
        } else {
            assert(pow10(0) == 1);
            lemma_far(m, k as nat, t, 0, b.len());
            lemma_far(m, c as nat, t, 0, b.len());
        }
    } else if k < c {
        if t == 0 {
            assert(0 * pow10((-k) as nat) == 0 && 0 * pow10((-c) as nat) == 0);
        } else {
            assert(pow10(0) == 1);
            lemma_far(t, (-k) as nat, m, 0, a.len());
            lemma_far(t, (-c) as nat, m, 0, a.len());
        }
    }
}

// ---------------------------------------------------------------------------------------------
// Powers of two
// ---------------------------------------------------------------------------------------------

/// Twice the number that digits spell.
fn doubled(s: &[char]) -> (r: Vec<char>)
    requires
        text::all_digits(s@),
    ensures
        text::all_digits(r@),
        text::digits_value(r@) == 2 * text::digits_value(s@),
{
    let mut out: Vec<char> = Vec::new();
    let mut carried: u8 = if s.len() > 0 && s[0] >= '5' {
        1
    } else {
        0
    };
    out.push(text::char_of_digit(carried));
    proof {
        assert(out@.drop_last() =~= seq![]);
        assert(text::digits_value(Seq::<char>::empty()) == 0);
        assert(s@.take(0) =~= seq![]);
    }
    let mut i: usize = 0;
    while i < s.len()
        invariant
            i <= s@.len(),
            text::all_digits(s@),
            text::all_digits(out@),
            carried == if i < s@.len() && s@[i as int] >= '5' {
                1u8
            } else {
                0
            },
            text::digits_value(out@) == 2 * text::digits_value(s@.take(i as int)) + carried,
        decreases s.len() - i,
    {
        let ghost before = out@;
        assert(text::is_digit(s@[i as int]));
        let d: u8 = (s[i] as u32 - '0' as u32) as u8;
        let next: u8 = if i + 1 < s.len() && s[i + 1] >= '5' {
            1
        } else {
            0
        };
        out.push(text::char_of_digit(2 * d - 10 * carried + next));
        proof {
            assert(s@.take(i + 1).drop_last() =~= s@.take(i as int));
            assert(out@.drop_last() =~= before);
            assert forall|x: int| 0 <= x < out@.len() implies text::is_digit(#[trigger] out@[x]) by {
                if x < before.len() {
                    assert(out@[x] == before[x]);
                }
            }
        }
        carried = next;
        i += 1;
    }
    assert(s@.take(i as int) =~= s@);
    out
}

/// `2^n` times the number that digits spell.
fn times_power(s: &[char], n: u32) -> (r: Vec<char>)
    requires
        text::all_digits(s@),
    ensures
        text::all_digits(r@),
        text::digits_value(r@) == text::digits_value(s@) * pow2(n as nat),
{
    let mut out = with_zeros(s, 0);
    let ghost m = text::digits_value(s@);
    proof {
        vstd::arithmetic::power2::lemma2_to64();
        assert(pow10(0) == 1);
        assert(m * 1 == m);
    }
    let mut i: u32 = 0;
    while i < n
        invariant
            i <= n,
            text::all_digits(out@),
            text::digits_value(out@) == m * pow2(i as nat),
        decreases n - i,
    {
        out = doubled(out.as_slice());
        proof {
            vstd::arithmetic::power2::lemma_pow2_unfold((i + 1) as nat);
            let p = pow2(i as nat);
            assert(2 * (m * p) == m * (2 * p)) by (nonlinear_arith);
        }
        i += 1;
    }
    out
}

/// The digits of a number.
fn spelled(n: u64) -> (r: Vec<char>)
    ensures
        text::all_digits(r@),
        text::digits_value(r@) == n,
{
    proof {
        text::lemma_decimal(n as nat);
    }
    text::chars(text::decimal_string(n).as_str())
}

// ---------------------------------------------------------------------------------------------
// Numbers
// ---------------------------------------------------------------------------------------------

/// What became of a number, compared by its size.
#[derive(Debug, Clone, Copy, PartialEq, Eq, Structural)]
pub struct Reach {
    pub finite: bool,
    pub one: bool,
    pub hundred: bool,
    pub beyond_hundred: bool,
    pub beyond_20000: bool,
    pub nothing: bool,
}

/// Reads a number. `None` where the text is no number.
pub fn reach(s: &[char]) -> (r: Option<Reach>)
    ensures
        match r {
            Some(reach) => {
                &&& decimal::written(s@) matches Some(number)
                &&& reach.finite == is_finite(number)
                &&& reach.one == reaches_one(number)
                &&& reach.hundred == reaches_hundred(number)
                &&& reach.beyond_hundred == exceeds_hundred(number)
                &&& reach.beyond_20000 == exceeds_20000(number)
                &&& reach.nothing == vanishes(number)
            },
            None => decimal::written(s@) is None,
        },
{
    match decimal::read_parts(s) {
        None => None,
        Some((_, digits, scale)) => {
            let limit = times_power(spelled(0x3f_ffff_ffff_ffff).as_slice(), 970);
            let by_54 = times_power(digits.as_slice(), 54);
            let by_47 = times_power(digits.as_slice(), 47);
            let by_39 = times_power(digits.as_slice(), 39);
            let by_1075 = times_power(digits.as_slice(), 1075);
            let below_one = spelled(0x3f_ffff_ffff_ffff);
            let below_hundred = spelled(0x31_ffff_ffff_ffff);
            let above_hundred = spelled(0x32_0000_0000_0001);
            let above_20000 = spelled(0x27_1000_0000_0001);
            let unit = spelled(1);
            let finite = test_exceeds(limit.as_slice(), -scale, digits.as_slice());
            let one = !test_exceeds(below_one.as_slice(), -scale, by_54.as_slice());
            let hundred = !test_exceeds(below_hundred.as_slice(), -scale, by_47.as_slice());
            let beyond_hundred = test_exceeds(by_47.as_slice(), scale, above_hundred.as_slice());
            let beyond_20000 = test_exceeds(by_39.as_slice(), scale, above_20000.as_slice());
            let nothing = !test_exceeds(by_1075.as_slice(), scale, unit.as_slice());
            proof {
                let number = decimal::written(s@)->0;
                let m = text::digits_value(digits@);
                vstd::arithmetic::power2::lemma2_to64();
                vstd::arithmetic::power2::lemma2_to64_rest();
                assert(m * 1 == m);
                assert(limit@.len() == limit.len() && digits@.len() == digits.len());
                assert(by_54@.len() == by_54.len() && by_47@.len() == by_47.len());
                assert(below_one@.len() == below_one.len());
                assert(by_39@.len() == by_39.len() && by_1075@.len() == by_1075.len());
                assert(above_20000@.len() == above_20000.len() && unit@.len() == unit.len());
                assert(below_hundred@.len() == below_hundred.len());
                assert(above_hundred@.len() == above_hundred.len());
                lemma_capped(digits@, number.scale, scale as int, limit@);
                lemma_capped(by_39@, number.scale, scale as int, above_20000@);
                lemma_capped(by_1075@, number.scale, scale as int, unit@);
                lemma_capped(by_54@, number.scale, scale as int, below_one@);
                lemma_capped(by_47@, number.scale, scale as int, below_hundred@);
                lemma_capped(by_47@, number.scale, scale as int, above_hundred@);
            }
            Some(Reach { finite, one, hundred, beyond_hundred, beyond_20000, nothing })
        },
    }
}

} // verus!

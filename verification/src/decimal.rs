//! Decimal fractions such as `-12.5` or `2e-3`, read exactly.

use vstd::prelude::*;

use crate::num;
use crate::text;

verus! {

pub open spec fn pow10(n: nat) -> nat
    decreases n,
{
    if n == 0 {
        1
    } else {
        10 * pow10((n - 1) as nat)
    }
}

/// The first position from `i` on that holds no digit.
pub open spec fn digits_end(s: Seq<char>, i: int) -> int
    decreases s.len() - i,
{
    if 0 <= i < s.len() && text::is_digit(s[i]) {
        digits_end(s, i + 1)
    } else {
        i
    }
}

/// A number as it is written: its sign, its digits, and the power of ten they are multiplied by.
pub ghost struct Written {
    pub negative: bool,
    pub digits: Seq<char>,
    pub scale: int,
}

pub open spec fn is_sign(c: char) -> bool {
    c == '+' || c == '-'
}

/// Digits with an optional sign before them, a point before, between or behind them, and a power
/// of ten behind an `e`.
pub open spec fn written(s: Seq<char>) -> Option<Written> {
    let start = if s.len() > 0 && is_sign(s[0]) { 1int } else { 0 };
    let negative = s.len() > 0 && s[0] == '-';
    let whole_end = digits_end(s, start);
    let point = whole_end < s.len() && s[whole_end] == '.';
    let fraction = if point { whole_end + 1 } else { whole_end };
    let end = if point { digits_end(s, fraction) } else { whole_end };
    let digits = s.subrange(start, whole_end) + s.subrange(fraction, end);
    if digits.len() == 0 {
        None
    } else if end >= s.len() {
        Some(Written { negative, digits, scale: fraction - end })
    } else if s[end] == 'e' || s[end] == 'E' {
        match power_at(s, end) {
            Some(power) => Some(Written { negative, digits, scale: power + fraction - end }),
            None => None,
        }
    } else {
        None
    }
}

/// The digits' number times `10^k`, without what is behind the point.
#[verifier::opaque]
pub open spec fn floor_of(digits: Seq<char>, k: int) -> int {
    let m = text::digits_value(digits) as int;
    if k >= 0 {
        m * pow10(k as nat)
    } else {
        m / (pow10((-k) as nat) as int)
    }
}

/// At least half is behind the point.
#[verifier::opaque]
pub open spec fn rounds_up_at(digits: Seq<char>, k: int) -> bool {
    k < 0 && 2 * (text::digits_value(digits) as int % (pow10((-k) as nat) as int)) >= pow10(
        (-k) as nat,
    )
}

impl Written {
    /// The size of the number times `10^places`, without what is behind the point.
    pub open spec fn floor(self, places: int) -> int {
        floor_of(self.digits, self.scale + places)
    }

    /// At least half is behind the point.
    pub open spec fn rounds_up(self, places: int) -> bool {
        rounds_up_at(self.digits, self.scale + places)
    }
}

/// The size of a number in a small unit: whole units, and what of a unit is left over.
#[derive(Debug, Clone, Copy, PartialEq, Eq, Structural)]
pub struct Scaled {
    pub negative: bool,
    /// `None` above 10^18.
    pub floor: Option<u64>,
    pub rounds_up: bool,
}

impl Scaled {
    pub open spec fn reads(self, number: Written, places: int) -> bool {
        &&& self.negative == number.negative
        &&& match self.floor {
            Some(n) => n == number.floor(places) && n <= 1_000_000_000_000_000_000,
            None => number.floor(places) > 1_000_000_000_000_000_000,
        }
        &&& self.floor is Some ==> self.rounds_up == number.rounds_up(places)
    }
}

// ---------------------------------------------------------------------------------------------
// Facts
// ---------------------------------------------------------------------------------------------

pub proof fn lemma_pow10(a: nat, b: nat)
    ensures
        pow10(a + b) == pow10(a) * pow10(b),
        pow10(a) >= 1,
    decreases a,
{
    if a > 0 {
        lemma_pow10((a - 1) as nat, b);
        assert(pow10(a + b) == 10 * pow10((a - 1 + b) as nat));
        assert(10 * (pow10((a - 1) as nat) * pow10(b)) == (10 * pow10((a - 1) as nat)) * pow10(b))
            by (nonlinear_arith);
    } else {
        assert(pow10(0) * pow10(b) == pow10(b)) by (nonlinear_arith)
            requires
                pow10(0) == 1,
        ;
    }
}

pub proof fn lemma_pow10_grows(a: nat, b: nat)
    requires
        a <= b,
    ensures
        1 <= pow10(a) <= pow10(b),
    decreases b,
{
    lemma_pow10(a, 0);
    if a < b {
        lemma_pow10_grows(a, (b - 1) as nat);
    }
}

pub proof fn lemma_pow10_values()
    ensures
        pow10(18) == 1_000_000_000_000_000_000,
        pow10(19) == 10_000_000_000_000_000_000,
{
    reveal_with_fuel(pow10, 20);
}

/// Digits in front count by the number of digits behind them.
pub proof fn lemma_digits_concat(a: Seq<char>, b: Seq<char>)
    requires
        text::all_digits(a),
        text::all_digits(b),
    ensures
        text::digits_value(a + b) == text::digits_value(a) * pow10(b.len()) + text::digits_value(b),
    decreases b.len(),
{
    if b.len() == 0 {
        assert(a + b =~= a);
        assert(text::digits_value(a) * pow10(0) == text::digits_value(a)) by (nonlinear_arith)
            requires
                pow10(0) == 1,
        ;
    } else {
        let front = b.drop_last();
        assert((a + b).drop_last() =~= a + front);
        assert(text::all_digits(front)) by {
            assert forall|i: int| 0 <= i < front.len() implies text::is_digit(#[trigger] front[i]) by {
                assert(front[i] == b[i]);
            }
        }
        lemma_digits_concat(a, front);
        let v = text::digits_value(a);
        let p = pow10(front.len());
        assert(10 * (v * p) == v * (10 * p)) by (nonlinear_arith);
        assert(pow10(b.len()) == 10 * p);
        assert((a + b).last() == b.last());
        assert(text::is_digit(b[b.len() - 1]));
    }
}

pub proof fn lemma_digits_below(s: Seq<char>)
    requires
        text::all_digits(s),
    ensures
        text::digits_value(s) < pow10(s.len()),
    decreases s.len(),
{
    if s.len() > 0 {
        let front = s.drop_last();
        assert(text::all_digits(front)) by {
            assert forall|i: int| 0 <= i < front.len() implies text::is_digit(#[trigger] front[i]) by {
                assert(front[i] == s[i]);
            }
        }
        lemma_digits_below(front);
        assert(text::is_digit(s[s.len() - 1]));
    }
}

/// The first digit counts by the number of digits behind it.
pub proof fn lemma_first_digit(s: Seq<char>)
    requires
        text::all_digits(s),
        s.len() > 0,
    ensures
        text::digits_value(s) == text::digit_value(s[0]) * pow10((s.len() - 1) as nat)
            + text::digits_value(s.skip(1)),
        text::digits_value(s.skip(1)) < pow10((s.len() - 1) as nat),
{
    let head = seq![s[0]];
    let tail = s.skip(1);
    assert(s =~= head + tail);
    assert(text::is_digit(s[0]));
    assert(text::all_digits(tail)) by {
        assert forall|i: int| 0 <= i < tail.len() implies text::is_digit(#[trigger] tail[i]) by {
            assert(tail[i] == s[i + 1]);
        }
    }
    assert(text::all_digits(head));
    assert(head.drop_last() =~= seq![]);
    reveal_with_fuel(text::digits_value, 2);
    lemma_digits_concat(head, tail);
    lemma_digits_below(tail);
}

/// Zeros in front do not count.
pub proof fn lemma_leading_zeros(s: Seq<char>, z: int)
    requires
        text::all_digits(s),
        0 <= z <= s.len(),
        forall|i: int| 0 <= i < z ==> s[i] == '0',
    ensures
        text::digits_value(s.skip(z)) == text::digits_value(s),
        text::all_digits(s.skip(z)),
    decreases z,
{
    if z == 0 {
        assert(s.skip(0) =~= s);
    } else {
        lemma_leading_zeros(s, z - 1);
        let t = s.skip(z - 1);
        lemma_first_digit(t);
        assert(t[0] == '0');
        assert(t.skip(1) =~= s.skip(z));
        assert forall|i: int| 0 <= i < s.skip(z).len() implies text::is_digit(
            #[trigger] s.skip(z)[i],
        ) by {
            assert(s.skip(z)[i] == s[i + z]);
        }
        assert(0 * pow10((t.len() - 1) as nat) == 0);
    }
}

pub proof fn lemma_floor_is_a_size(digits: Seq<char>, k: int)
    ensures
        floor_of(digits, k) >= 0,
{
    reveal(floor_of);
    let m = text::digits_value(digits) as int;
    if k >= 0 {
        assert(m * pow10(k as nat) >= 0) by (nonlinear_arith)
            requires
                m >= 0,
        ;
    } else {
        lemma_pow10((-k) as nat, 0);
        let p = pow10((-k) as nat) as int;
        assert(m / p >= 0) by (nonlinear_arith)
            requires
                m >= 0,
                p >= 1,
        ;
    }
}

pub proof fn lemma_digits_end(s: Seq<char>, i: int)
    requires
        0 <= i <= s.len(),
    ensures
        i <= digits_end(s, i) <= s.len(),
        forall|k: int| i <= k < digits_end(s, i) ==> text::is_digit(#[trigger] s[k]),
        digits_end(s, i) < s.len() ==> !text::is_digit(s[digits_end(s, i)]),
    decreases s.len() - i,
{
    if i < s.len() && text::is_digit(s[i]) {
        lemma_digits_end(s, i + 1);
    }
}

// ---------------------------------------------------------------------------------------------
// Operations
// ---------------------------------------------------------------------------------------------

pub fn find_digits_end(s: &[char], i: usize) -> (r: usize)
    requires
        i <= s@.len(),
    ensures
        r == digits_end(s@, i as int),
        i <= r <= s@.len(),
        forall|k: int| i <= k < r ==> text::is_digit(#[trigger] s@[k]),
{
    let mut end: usize = i;
    while end < s.len() && text::char_is_digit(s[end])
        invariant
            i <= end <= s@.len(),
            digits_end(s@, i as int) == digits_end(s@, end as int),
            forall|k: int| i <= k < end ==> text::is_digit(#[trigger] s@[k]),
        decreases s.len() - end,
    {
        end += 1;
    }
    end
}

/// The value of up to 19 digits.
pub fn small_value(s: &[char]) -> (r: u64)
    requires
        text::all_digits(s@),
        s@.len() <= 19,
    ensures
        r == text::digits_value(s@),
{
    let mut n: u64 = 0;
    let mut i: usize = 0;
    while i < s.len()
        invariant
            i <= s@.len(),
            s@.len() <= 19,
            text::all_digits(s@),
            n == text::digits_value(s@.take(i as int)),
        decreases s.len() - i,
    {
        let c = s[i];
        proof {
            assert(text::is_digit(s@[i as int]));
            assert(s@.take(i + 1).drop_last() =~= s@.take(i as int));
            let t = s@.take(i + 1);
            assert forall|k: int| 0 <= k < t.len() implies text::is_digit(#[trigger] t[k]) by {
                assert(t[k] == s@[k]);
            }
            lemma_digits_below(t);
            lemma_pow10_grows(t.len(), 19);
            lemma_pow10_values();
        }
        n = 10 * n + (c as u32 - '0' as u32) as u64;
        i += 1;
    }
    assert(s@.take(i as int) =~= s@);
    n
}

/// The power that the digits spell, but no more than 10^30.
fn capped_value(s: &[char]) -> (r: i128)
    requires
        text::all_digits(s@),
    ensures
        0 <= r <= 1_000_000_000_000_000_000_000_000_000_000,
        r < 1_000_000_000_000_000_000_000_000_000_000 ==> r == text::digits_value(s@),
        r == 1_000_000_000_000_000_000_000_000_000_000 ==> text::digits_value(s@) >= r,
{
    let mut n: i128 = 0;
    let mut i: usize = 0;
    while i < s.len()
        invariant
            i <= s@.len(),
            text::all_digits(s@),
            0 <= n <= 1_000_000_000_000_000_000_000_000_000_000,
            n < 1_000_000_000_000_000_000_000_000_000_000 ==> n == text::digits_value(
                s@.take(i as int),
            ),
            n == 1_000_000_000_000_000_000_000_000_000_000 ==> text::digits_value(s@.take(i as int))
                >= n,
        decreases s.len() - i,
    {
        let c = s[i];
        proof {
            assert(text::is_digit(s@[i as int]));
            assert(s@.take(i + 1).drop_last() =~= s@.take(i as int));
        }
        n = 10 * n + (c as u32 - '0' as u32) as i128;
        if n > 1_000_000_000_000_000_000_000_000_000_000 {
            n = 1_000_000_000_000_000_000_000_000_000_000;
        }
        i += 1;
    }
    assert(s@.take(i as int) =~= s@);
    n
}

/// Whole units, and whether at least half a unit is left over.
fn scale_digits(digits: &[char], k: i128) -> (r: (Option<u64>, bool))
    requires
        text::all_digits(digits@),
        -0x1000_0000_0000_0000_0000_0000_0000 <= k <= 0x1000_0000_0000_0000_0000_0000_0000,
    ensures
        match r.0 {
            Some(n) => n == floor_of(digits@, k as int) && n <= 1_000_000_000_000_000_000,
            None => floor_of(digits@, k as int) > 1_000_000_000_000_000_000,
        },
        r.0 is Some ==> r.1 == rounds_up_at(digits@, k as int),
{
    reveal(floor_of);
    reveal(rounds_up_at);
    let mut zeros: usize = 0;
    while zeros < digits.len() && digits[zeros] == '0'
        invariant
            zeros <= digits@.len(),
            forall|i: int| 0 <= i < zeros ==> digits@[i] == '0',
        decreases digits.len() - zeros,
    {
        zeros += 1;
    }
    let s = vstd::slice::slice_subrange(digits, zeros, digits.len());
    let n: usize = s.len();
    let ghost m = text::digits_value(digits@) as int;
    proof {
        lemma_leading_zeros(digits@, zeros as int);
        assert(s@ =~= digits@.skip(zeros as int));
        lemma_pow10_values();
        lemma_digits_below(s@);
        if k >= 0 {
            lemma_pow10_grows(0, k as nat);
        } else {
            lemma_pow10_grows(0, (-k) as nat);
        }
    }
    if n == 0 {
        proof {
            assert(text::digits_value(s@) == 0);
            if k >= 0 {
                assert(0 * pow10(k as nat) == 0);
            } else {
                vstd::arithmetic::div_mod::lemma_fundamental_div_mod_converse(0, pow10((-k) as nat) as int, 0, 0);
            }
        }
        return (Some(0), false);
    }
    proof {
        lemma_first_digit(s@);
        assert(text::is_digit(s@[0]) && s@[0] != '0');
        let d = text::digit_value(s@[0]);
        let p = pow10((n - 1) as nat) as int;
        assert(d * p >= p) by (nonlinear_arith)
            requires
                d >= 1,
                p >= 1,
        ;
        lemma_pow10_grows(0, (n - 1) as nat);
        assert(m >= p);
    }
    if k >= 0 {
        if n as i128 + k >= 20 {
            proof {
                let p = pow10((n - 1) as nat) as int;
                let q = pow10(k as nat) as int;
                lemma_pow10((n - 1) as nat, k as nat);
                lemma_pow10_grows(19, (n - 1 + k) as nat);
                assert(m * q >= p * q) by (nonlinear_arith)
                    requires
                        m >= p,
                        q >= 1,
                ;
            }
            return (None, false);
        }
        let mut value: u128 = small_value(s) as u128;
        let mut i: i128 = 0;
        assert(m * pow10(0) == m) by (nonlinear_arith)
            requires
                pow10(0) == 1,
        ;
        while i < k
            invariant
                0 <= i <= k,
                n + k <= 19,
                n >= 1,
                m == text::digits_value(s@),
                s@.len() == n,
                m < pow10(n as nat),
                value == m * pow10(i as nat),
                m * pow10(i as nat) < pow10((n + i) as nat),
            decreases k - i,
        {
            proof {
                lemma_pow10_values();
                lemma_pow10_grows((n + i + 1) as nat, 19);
                let p = pow10(i as nat) as int;
                assert(10 * (m * p) == m * (10 * p)) by (nonlinear_arith);
                assert(pow10((i + 1) as nat) == 10 * pow10(i as nat));
                assert(pow10((n + i + 1) as nat) == 10 * pow10((n + i) as nat));
            }
            value = 10 * value;
            i += 1;
        }
        if value > 1_000_000_000_000_000_000 {
            return (None, false);
        }
        return (Some(value as u64), false);
    }
    let j: i128 = -k;
    let ghost q = pow10(j as nat) as int;
    if j > n as i128 {
        proof {
            lemma_pow10_grows(n as nat, (j - 1) as nat);
            assert(q == 10 * pow10((j - 1) as nat));
            assert(2 * m < q);
            vstd::arithmetic::div_mod::lemma_fundamental_div_mod_converse(m, q, 0, m);
        }
        return (Some(0), false);
    }
    let cut: usize = n - j as usize;
    let head = vstd::slice::slice_subrange(s, 0, cut);
    let tail = vstd::slice::slice_subrange(s, cut, n);
    proof {
        assert(s@ =~= head@ + tail@);
        assert forall|i: int| 0 <= i < head@.len() implies text::is_digit(#[trigger] head@[i]) by {
            assert(head@[i] == s@[i]);
        }
        assert forall|i: int| 0 <= i < tail@.len() implies text::is_digit(#[trigger] tail@[i]) by {
            assert(tail@[i] == s@[i + cut]);
        }
        lemma_digits_concat(head@, tail@);
        lemma_digits_below(tail@);
        lemma_first_digit(tail@);
        assert(tail@.len() == j);
        vstd::arithmetic::div_mod::lemma_fundamental_div_mod_converse(
            m,
            q,
            text::digits_value(head@) as int,
            text::digits_value(tail@) as int,
        );
    }
    if cut >= 20 {
        proof {
            lemma_first_digit(head@);
            lemma_pow10_grows(19, (cut - 1) as nat);
            let d = text::digit_value(head@[0]);
            let p = pow10((cut - 1) as nat) as int;
            assert(head@[0] == s@[0]);
            assert(d * p >= p) by (nonlinear_arith)
                requires
                    d >= 1,
                    p >= 1,
            ;
        }
        return (None, false);
    }
    let value: u64 = small_value(head);
    if value > 1_000_000_000_000_000_000 {
        return (None, false);
    }
    let up = tail[0] >= '5';
    proof {
        let d = text::digit_value(tail@[0]);
        let p = pow10((j - 1) as nat) as int;
        let rest = text::digits_value(tail@.skip(1)) as int;
        assert(text::is_digit(tail@[0]));
        assert(q == 10 * p);
        assert(2 * (d * p + rest) >= 10 * p <==> d >= 5) by (nonlinear_arith)
            requires
                0 <= rest < p,
                0 <= d <= 9,
        ;
    }
    (Some(value), up)
}

fn two_runs(s: &[char], a: usize, b: usize, c: usize, d: usize) -> (r: Vec<char>)
    requires
        a <= b <= s@.len(),
        c <= d <= s@.len(),
        forall|k: int| a <= k < b ==> text::is_digit(#[trigger] s@[k]),
        forall|k: int| c <= k < d ==> text::is_digit(#[trigger] s@[k]),
    ensures
        r@ == s@.subrange(a as int, b as int) + s@.subrange(c as int, d as int),
        text::all_digits(r@),
{
    let mut out: Vec<char> = Vec::new();
    let mut i: usize = a;
    while i < b
        invariant
            a <= i <= b <= s@.len(),
            out@ == s@.subrange(a as int, i as int),
        decreases b - i,
    {
        out.push(s[i]);
        i += 1;
        assert(s@.subrange(a as int, i as int) =~= s@.subrange(a as int, i - 1).push(s@[i - 1]));
    }
    let ghost first = out@;
    let mut i: usize = c;
    assert(out@ =~= first + s@.subrange(c as int, c as int));
    while i < d
        invariant
            c <= i <= d <= s@.len(),
            out@ == first + s@.subrange(c as int, i as int),
        decreases d - i,
    {
        out.push(s[i]);
        i += 1;
        assert(out@ =~= first + s@.subrange(c as int, i as int));
    }
    assert forall|k: int| 0 <= k < out@.len() implies text::is_digit(#[trigger] out@[k]) by {
        if k < first.len() {
            assert(out@[k] == s@[k + a]);
        } else {
            assert(out@[k] == s@[k - first.len() + c]);
        }
    }
    out
}

/// The power of ten behind an `e` at `end`.
pub open spec fn power_at(s: Seq<char>, end: int) -> Option<int> {
    let signed = end + 1 < s.len() && is_sign(s[end + 1]);
    let from = if signed { end + 2 } else { end + 1 };
    if from < s.len() && digits_end(s, from) == s.len() {
        let power = text::digits_value(s.skip(from)) as int;
        Some(if signed && s[end + 1] == '-' { -power } else { power })
    } else {
        None
    }
}

fn read_power(s: &[char], end: usize) -> (r: Option<i128>)
    requires
        end < s@.len(),
    ensures
        match r {
            Some(p) => {
                let power = power_at(s@, end as int);
                &&& power is Some
                &&& -1_000_000_000_000_000_000_000_000_000_000 <= p
                    <= 1_000_000_000_000_000_000_000_000_000_000
                &&& p == power->0 || p == 1_000_000_000_000_000_000_000_000_000_000 && power->0 >= p
                    || p == -1_000_000_000_000_000_000_000_000_000_000 && power->0 <= p
            },
            None => power_at(s@, end as int) is None,
        },
{
    let signed = s.len() - end > 1 && (s[end + 1] == '+' || s[end + 1] == '-');
    if s.len() - end <= 1 || (signed && s.len() - end <= 2) {
        return None;
    }
    let from: usize = if signed {
        end + 2
    } else {
        end + 1
    };
    if find_digits_end(s, from) != s.len() {
        return None;
    }
    let tail = vstd::slice::slice_subrange(s, from, s.len());
    proof {
        assert(tail@ =~= s@.skip(from as int));
        assert forall|k: int| 0 <= k < tail@.len() implies text::is_digit(#[trigger] tail@[k]) by {
            assert(tail@[k] == s@[k + from]);
        }
    }
    let power: i128 = capped_value(tail);
    if signed && s[end + 1] == '-' {
        Some(-power)
    } else {
        Some(power)
    }
}

/// Reads a number: its sign, its digits and the power of ten they are multiplied by, which is
/// capped far from the point. `None` where the text is no such number.
pub fn read_parts(s: &[char]) -> (r: Option<(bool, Vec<char>, i128)>)
    ensures
        match r {
            Some((negative, digits, scale)) => {
                &&& written(s@) matches Some(number) && number.negative == negative
                    && number.digits == digits@ && is_capped(number.scale, scale as int)
                &&& text::all_digits(digits@)
            },
            None => written(s@) is None,
        },
{
    let signed = s.len() > 0 && (s[0] == '+' || s[0] == '-');
    let negative = s.len() > 0 && s[0] == '-';
    let start: usize = if signed {
        1
    } else {
        0
    };
    let whole_end = find_digits_end(s, start);
    let point = whole_end < s.len() && s[whole_end] == '.';
    let fraction: usize = if point {
        whole_end + 1
    } else {
        whole_end
    };
    let end: usize = if point {
        find_digits_end(s, fraction)
    } else {
        whole_end
    };
    let digits = two_runs(s, start, whole_end, fraction, end);
    if digits.len() == 0 {
        return None;
    }
    let mut power: i128 = 0;
    if end < s.len() {
        if s[end] != 'e' && s[end] != 'E' {
            return None;
        }
        match read_power(s, end) {
            Some(p) => {
                power = p;
            },
            None => {
                return None;
            },
        }
    }
    Some((negative, digits, power + fraction as i128 - end as i128))
}

/// A power of ten, or one that is as far from the point as any text of digits is long.
pub open spec fn is_capped(scale: int, capped: int) -> bool {
    &&& -0x100_0000_0000_0000_0000_0000_0000 <= capped <= 0x100_0000_0000_0000_0000_0000_0000
    &&& {
        ||| capped == scale
        ||| scale >= capped >= 200_000_000_000_000_000_000
        ||| scale <= capped <= -1_000_000_000_000_000_000_000
    }
}

/// Reads a number and gives its size in units of `10^-places`. `None` where the text is no such
/// number.
pub fn read_scaled(s: &[char], places: u8) -> (r: Option<Scaled>)
    ensures
        match r {
            Some(scaled) => written(s@) is Some && scaled.reads(written(s@)->0, places as int),
            None => written(s@) is None,
        },
{
    match read_parts(s) {
        None => None,
        Some((negative, digits, scale)) => {
            let k: i128 = scale + places as i128;
            let (floor, rounds_up) = scale_digits(digits.as_slice(), k);
            proof {
                let number = written(s@)->0;
                assert(digits@.len() == digits.len());
                if number.scale + places != k {
                    lemma_capped(digits@, number.scale + places, k as int);
                }
            }
            Some(Scaled { negative, floor, rounds_up })
        },
    }
}

/// Far from the point, moving it still further changes nothing.
proof fn lemma_capped(digits: Seq<char>, k: int, c: int)
    requires
        text::all_digits(digits),
        digits.len() <= 100_000_000_000_000_000_000,
        k >= c >= 100_000_000_000_000_000_000 || k <= c <= -900_000_000_000_000_000_000,
    ensures
        floor_of(digits, k) > 1_000_000_000_000_000_000 <==> floor_of(digits, c)
            > 1_000_000_000_000_000_000,
        floor_of(digits, k) <= 1_000_000_000_000_000_000 ==> floor_of(digits, k) == floor_of(
            digits,
            c,
        ) && rounds_up_at(digits, k) == rounds_up_at(digits, c),
{
    reveal(floor_of);
    reveal(rounds_up_at);
    let m = text::digits_value(digits) as int;
    lemma_digits_below(digits);
    lemma_pow10_values();
    if c >= 0 {
        lemma_pow10_grows(19, c as nat);
        lemma_pow10_grows(19, k as nat);
        let a = pow10(k as nat) as int;
        let b = pow10(c as nat) as int;
        if m == 0 {
            assert(0 * a == 0 && 0 * b == 0);
        } else {
            assert(m * a >= a && m * b >= b) by (nonlinear_arith)
                requires
                    m >= 1,
                    a >= 1,
                    b >= 1,
            ;
        }
    } else {
        let n = digits.len();
        let a = pow10((-k) as nat) as int;
        let b = pow10((-c) as nat) as int;
        lemma_pow10_grows(n, (-k - 1) as nat);
        lemma_pow10_grows(n, (-c - 1) as nat);
        assert(a == 10 * pow10((-k - 1) as nat));
        assert(b == 10 * pow10((-c - 1) as nat));
        assert(0 <= 2 * m < a && 0 <= 2 * m < b);
        vstd::arithmetic::div_mod::lemma_fundamental_div_mod_converse(m, a, 0, m);
        vstd::arithmetic::div_mod::lemma_fundamental_div_mod_converse(m, b, 0, m);
    }
}

// ---------------------------------------------------------------------------------------------
// Numbers
// ---------------------------------------------------------------------------------------------

/// A number with its sign, exactly: the digits times a power of ten.
#[derive(Debug, Clone, Copy, PartialEq, Eq, Structural)]
pub struct Decimal {
    pub negative: bool,
    pub digits: u64,
    pub power: i16,
}

/// The whole number nearest to `m` times `10^k`; halves go to the even neighbour.
pub open spec fn nearest(m: nat, k: int) -> nat {
    if k >= 0 {
        m * pow10(k as nat)
    } else {
        num::rounded_even(m as int, pow10((-k) as nat) as int) as nat
    }
}

/// `m` times `10^k` without what is behind the point.
pub open spec fn cut(m: nat, k: int) -> nat {
    if k >= 0 {
        m * pow10(k as nat)
    } else {
        m / pow10((-k) as nat)
    }
}

impl Decimal {
    pub open spec fn sign(self) -> Seq<char> {
        if self.negative {
            seq!['-']
        } else {
            seq![]
        }
    }

    /// The number without what is behind the point, as far as 64 bits reach.
    pub open spec fn truncated(self) -> int {
        let n = cut(self.digits as nat, self.power as int) as int;
        if self.negative {
            if n > 0x8000_0000_0000_0000 {
                i64::MIN as int
            } else {
                -n
            }
        } else if n > i64::MAX {
            i64::MAX as int
        } else {
            n
        }
    }

    /// The number without places behind the point, as `{:.0}` writes it.
    pub open spec fn rounded_text(self) -> Seq<char> {
        self.sign() + text::decimal(nearest(self.digits as nat, self.power as int))
    }

    /// The number with one place behind the point, as `{:.1}` writes it.
    pub open spec fn one_place(self) -> Seq<char> {
        let tenths = nearest(self.digits as nat, self.power + 1);
        self.sign() + text::decimal(tenths / 10) + "."@ + text::decimal(tenths % 10)
    }

    pub open spec fn is_positive(self) -> bool {
        !self.negative && self.digits > 0
    }
}

/// `10^n`, as far as 128 bits are sure to hold it with 64 more.
fn small_power(n: u32) -> (r: u128)
    requires
        n <= 19,
    ensures
        r == pow10(n as nat),
        1 <= r <= 10_000_000_000_000_000_000,
{
    let mut p: u128 = 1;
    let mut i: u32 = 0;
    proof {
        lemma_pow10_values();
        lemma_pow10_grows(n as nat, 19);
    }
    while i < n
        invariant
            i <= n <= 19,
            p == pow10(i as nat),
            pow10(19) == 10_000_000_000_000_000_000,
        decreases n - i,
    {
        proof {
            lemma_pow10_grows((i + 1) as nat, 19);
        }
        p = 10 * p;
        i += 1;
    }
    p
}

/// The whole number nearest to `m` times `10^k`. `None` for one with twenty zeros or more.
fn find_nearest(m: u64, k: i32) -> (r: Option<u128>)
    ensures
        match r {
            Some(n) => n == nearest(m as nat, k as int),
            None => k >= 20 && m > 0,
        },
{
    if m == 0 {
        proof {
            if k >= 0 {
                assert(0 * pow10(k as nat) == 0);
            } else {
                lemma_pow10_grows(0, (-k) as nat);
                let p = pow10((-k) as nat) as int;
                vstd::arithmetic::div_mod::lemma_fundamental_div_mod_converse(0, p, 0, 0);
            }
        }
        return Some(0);
    }
    if k >= 20 {
        return None;
    }
    if k >= 0 {
        let p = small_power(k as u32);
        assert(0 <= m * p <= 0xffff_ffff_ffff_ffff * 10_000_000_000_000_000_000) by (nonlinear_arith)
            requires
                0 <= m <= 0xffff_ffff_ffff_ffff,
                0 <= p <= 10_000_000_000_000_000_000,
        ;
        return Some(m as u128 * p);
    }
    if k < -19 {
        proof {
            lemma_pow10_values();
            lemma_pow10_grows(20, (-k) as nat);
            assert(pow10(20) == 10 * pow10(19));
            let p = pow10((-k) as nat) as int;
            vstd::arithmetic::div_mod::lemma_fundamental_div_mod_converse(m as int, p, 0, m as int);
        }
        return Some(0);
    }
    let p = small_power((-k) as u32);
    let q: u128 = m as u128 / p;
    let rest: u128 = m as u128 % p;
    if 2 * rest < p || (2 * rest == p && q % 2 == 0) {
        Some(q)
    } else {
        assert(q <= m) by (nonlinear_arith)
            requires
                q == m as u128 / p,
                p >= 1,
        ;
        Some(q + 1)
    }
}

/// Zeros behind a number multiply it by ten.
proof fn lemma_zeros_behind(m: nat, k: nat)
    requires
        m > 0,
    ensures
        text::decimal(m * pow10(k)) == text::decimal(m) + Seq::new(k, |i: int| '0'),
    decreases k,
{
    if k == 0 {
        assert(m * pow10(0) == m) by (nonlinear_arith)
            requires
                pow10(0) == 1,
        ;
        assert(Seq::new(0, |i: int| '0') =~= seq![]);
        assert(text::decimal(m) + Seq::<char>::empty() =~= text::decimal(m));
    } else {
        let before = m * pow10((k - 1) as nat);
        lemma_zeros_behind(m, (k - 1) as nat);
        lemma_pow10_grows(0, (k - 1) as nat);
        let p = pow10((k - 1) as nat);
        assert(m * (10 * p) == 10 * (m * p)) by (nonlinear_arith);
        assert(m * p >= 1) by (nonlinear_arith)
            requires
                m >= 1,
                p >= 1,
        ;
        assert(text::decimal(10 * before) == text::decimal(before).push('0'));
        assert(Seq::new(k, |i: int| '0') =~= Seq::new((k - 1) as nat, |i: int| '0').push('0'));
        assert(text::decimal(m) + Seq::new(k, |i: int| '0') =~= text::decimal(before).push('0'));
    }
}

/// Writes a number and zeros behind it.
fn push_with_zeros(out: &mut String, m: u64, k: u32)
    requires
        m > 0,
    ensures
        final(out)@ == old(out)@ + text::decimal(m as nat * pow10(k as nat)),
{
    text::push_decimal(out, m);
    let ghost start = out@;
    let mut i: u32 = 0;
    assert(start =~= start + Seq::new(0, |x: int| '0'));
    while i < k
        invariant
            i <= k,
            out@ == start + Seq::new(i as nat, |x: int| '0'),
        decreases k - i,
    {
        out.push('0');
        assert(out@ =~= start + Seq::new((i + 1) as nat, |x: int| '0'));
        i += 1;
    }
    proof {
        lemma_zeros_behind(m as nat, k as nat);
        assert(out@ =~= old(out)@ + text::decimal(m as nat * pow10(k as nat)));
    }
}

impl Decimal {
    pub fn is_above_zero(&self) -> (r: bool)
        ensures
            r == self.is_positive(),
    {
        !self.negative && self.digits > 0
    }

    pub fn from_whole(n: i64) -> (r: Decimal)
        ensures
            r == (Decimal {
                negative: n < 0,
                digits: num::size(n as int) as u64,
                power: 0,
            }),
    {
        let digits: u64 = if n >= 0 {
            n as u64
        } else {
            (-(n as i128)) as u64
        };
        Decimal { negative: n < 0, digits, power: 0 }
    }

    /// The number without what is behind the point, as far as 64 bits reach.
    pub fn truncate(&self) -> (r: i64)
        ensures
            r == self.truncated(),
    {
        let k: i32 = self.power as i32;
        let m: u64 = self.digits;
        let ghost n = cut(m as nat, k as int);
        let size: u128 = if m == 0 {
            proof {
                if k >= 0 {
                    assert(0 * pow10(k as nat) == 0);
                } else {
                    lemma_pow10_grows(0, (-k) as nat);
                    let p = pow10((-k) as nat) as int;
                    vstd::arithmetic::div_mod::lemma_fundamental_div_mod_converse(0, p, 0, 0);
                }
            }
            0
        } else if k > 19 {
            proof {
                lemma_pow10_values();
                lemma_pow10_grows(19, k as nat);
                let p = pow10(k as nat);
                assert(m as nat * p >= p) by (nonlinear_arith)
                    requires
                        m >= 1,
                ;
            }
            10_000_000_000_000_000_000
        } else if k >= 0 {
            let p = small_power(k as u32);
            assert(0 <= m * p <= 0xffff_ffff_ffff_ffff * 10_000_000_000_000_000_000)
                by (nonlinear_arith)
                requires
                    0 <= m <= 0xffff_ffff_ffff_ffff,
                    0 <= p <= 10_000_000_000_000_000_000,
            ;
            m as u128 * p
        } else if k < -19 {
            proof {
                lemma_pow10_values();
                lemma_pow10_grows(20, (-k) as nat);
                assert(pow10(20) == 10 * pow10(19));
                let p = pow10((-k) as nat) as int;
                vstd::arithmetic::div_mod::lemma_fundamental_div_mod_converse(m as int, p, 0, m as int);
            }
            0
        } else {
            m as u128 / small_power((-k) as u32)
        };
        if self.negative {
            if size > 0x8000_0000_0000_0000 {
                i64::MIN
            } else {
                (-(size as i128)) as i64
            }
        } else if size > 0x7fff_ffff_ffff_ffff {
            i64::MAX
        } else {
            size as i64
        }
    }

    pub fn push_rounded(&self, out: &mut String)
        ensures
            final(out)@ == old(out)@ + self.rounded_text(),
    {
        if self.negative {
            out.push('-');
        }
        match find_nearest(self.digits, self.power as i32) {
            Some(n) => text::push_decimal_large(out, n),
            None => push_with_zeros(out, self.digits, self.power as u32),
        }
        assert(out@ =~= old(out)@ + self.rounded_text());
    }

    pub fn push_one_place(&self, out: &mut String)
        ensures
            final(out)@ == old(out)@ + self.one_place(),
    {
        if self.negative {
            out.push('-');
        }
        match find_nearest(self.digits, self.power as i32 + 1) {
            Some(n) => {
                text::push_decimal_large(out, n / 10);
                out.append(".");
                text::push_decimal_large(out, n % 10);
            },
            None => {
                push_with_zeros(out, self.digits, self.power as u32);
                out.append(".");
                text::push_decimal_large(out, 0);
                proof {
                    let (m, p) = (self.digits as nat, pow10(self.power as nat));
                    assert(pow10((self.power + 1) as nat) == 10 * p);
                    assert(m * (10 * p) == 10 * (m * p)) by (nonlinear_arith);
                }
            },
        }
        assert(out@ =~= old(out)@ + self.one_place());
    }
}

} // verus!

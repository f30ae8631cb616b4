//! Dates of the proleptic Gregorian calendar, from the year -9999 to the year 9999.

use vstd::prelude::*;

use crate::text;

verus! {

#[derive(Debug, Clone, Copy, PartialEq, Eq, Structural)]
pub struct Date {
    pub year: i16,
    /// 1 is January.
    pub month: u8,
    pub day: u8,
}

pub open spec fn is_leap(year: int) -> bool {
    year % 4 == 0 && (year % 100 != 0 || year % 400 == 0)
}

pub open spec fn days_in_month(year: int, month: int) -> int {
    if month == 2 {
        if is_leap(year) { 29 } else { 28 }
    } else if month == 4 || month == 6 || month == 9 || month == 11 {
        30
    } else {
        31
    }
}

/// The days of a year that lie before its given month.
pub open spec fn days_before_month(year: int, month: int) -> int
    decreases month,
{
    if month <= 1 {
        0
    } else {
        days_before_month(year, month - 1) + days_in_month(year, month - 1)
    }
}

/// The days from the first day of year 0 to the first day of the given year.
pub open spec fn days_before_year(year: int) -> int {
    365 * year + (year - 1) / 4 - (year - 1) / 100 + (year - 1) / 400
}

impl Date {
    pub open spec fn valid(self) -> bool {
        &&& -9999 <= self.year <= 9999
        &&& 1 <= self.month <= 12
        &&& 1 <= self.day <= days_in_month(self.year as int, self.month as int)
    }

    /// Days since 1970-01-01.
    pub open spec fn epoch_day(self) -> int {
        days_before_year(self.year as int) + days_before_month(self.year as int, self.month as int)
            + self.day - 1 - 719_527
    }

    /// 0 is Monday, 6 Sunday.
    pub open spec fn monday_offset(self) -> int {
        (self.epoch_day() + 3) % 7
    }

    pub open spec fn at_or_before(self, other: Date) -> bool {
        ||| self.year < other.year
        ||| self.year == other.year && self.month < other.month
        ||| self.year == other.year && self.month == other.month && self.day <= other.day
    }

    /// The next day, if the calendar has one.
    pub open spec fn next_day(self) -> Option<Date> {
        if self.day < days_in_month(self.year as int, self.month as int) {
            Some(Date { day: (self.day + 1) as u8, ..self })
        } else if self.month < 12 {
            Some(Date { year: self.year, month: (self.month + 1) as u8, day: 1 })
        } else if self.year < 9999 {
            Some(Date { year: (self.year + 1) as i16, month: 1, day: 1 })
        } else {
            None
        }
    }

    /// The day before, if the calendar has one.
    pub open spec fn previous_day(self) -> Option<Date> {
        if self.day > 1 {
            Some(Date { day: (self.day - 1) as u8, ..self })
        } else if self.month > 1 {
            let month = self.month - 1;
            Some(
                Date {
                    year: self.year,
                    month: month as u8,
                    day: days_in_month(self.year as int, month) as u8,
                },
            )
        } else if self.year > -9999 {
            Some(Date { year: (self.year - 1) as i16, month: 12, day: 31 })
        } else {
            None
        }
    }

    /// The day `n` days later.
    pub open spec fn later(self, n: nat) -> Option<Date>
        decreases n,
    {
        if n == 0 {
            Some(self)
        } else {
            match self.later((n - 1) as nat) {
                Some(date) => date.next_day(),
                None => None,
            }
        }
    }

    pub open spec fn month_start(self) -> Date {
        Date { day: 1, ..self }
    }

    /// The first day of the following month.
    pub open spec fn next_month(self) -> Option<Date> {
        if self.month < 12 {
            Some(Date { year: self.year, month: (self.month + 1) as u8, day: 1 })
        } else if self.year < 9999 {
            Some(Date { year: (self.year + 1) as i16, month: 1, day: 1 })
        } else {
            None
        }
    }

    pub fn days_in_its_month(self) -> (r: u8)
        requires
            self.valid(),
        ensures
            r == days_in_month(self.year as int, self.month as int),
            28 <= r <= 31,
    {
        if self.month == 2 {
            // A multiple of 400 keeps the operands positive and the remainders the same.
            let year: i32 = self.year as i32 + 10_000;
            if year % 4 == 0 && (year % 100 != 0 || year % 400 == 0) {
                29
            } else {
                28
            }
        } else if self.month == 4 || self.month == 6 || self.month == 9 || self.month == 11 {
            30
        } else {
            31
        }
    }

    /// The number of days since 1970-01-01.
    pub fn since_epoch(self) -> (r: i64)
        requires
            self.valid(),
        ensures
            r == self.epoch_day(),
            -4_371_588 <= r <= 2_932_900,
    {
        let year: i64 = self.year as i64 + 10_000;
        let before_year: i64 = 365 * year + (year - 1) / 4 - (year - 1) / 100 + (year - 1) / 400
            - 25 * 146_097;
        let mut before_month: i64 = 0;
        let mut month: u8 = 1;
        while month < self.month
            invariant
                self.valid(),
                1 <= month <= self.month,
                before_month == days_before_month(self.year as int, month as int),
                0 <= before_month <= 31 * (month - 1),
            decreases self.month - month,
        {
            let length = (Date { month, day: 1, ..self }).days_in_its_month();
            before_month += length as i64;
            month += 1;
        }
        proof {
            assert(before_year == days_before_year(self.year as int));
            lemma_before_month(self.year as int, self.month as int);
        }
        before_year + before_month + self.day as i64 - 1 - 719_527
    }

    /// How many days after Monday the date lies.
    pub fn to_monday_zero_offset(self) -> (r: u8)
        requires
            self.valid(),
        ensures
            r == self.monday_offset(),
            r < 7,
    {
        // 7 * 624_514 days more make the dividend positive.
        ((self.since_epoch() + 3 + 4_371_598) % 7) as u8
    }

    pub fn tomorrow(self) -> (r: Option<Date>)
        requires
            self.valid(),
        ensures
            r == self.next_day(),
            r matches Some(date) ==> date.valid(),
    {
        if self.day < self.days_in_its_month() {
            Some(Date { year: self.year, month: self.month, day: self.day + 1 })
        } else if self.month < 12 {
            Some(Date { year: self.year, month: self.month + 1, day: 1 })
        } else if self.year < 9999 {
            Some(Date { year: self.year + 1, month: 1, day: 1 })
        } else {
            None
        }
    }

    pub fn yesterday(self) -> (r: Option<Date>)
        requires
            self.valid(),
        ensures
            r == self.previous_day(),
            r matches Some(date) ==> date.valid(),
    {
        if self.day > 1 {
            Some(Date { year: self.year, month: self.month, day: self.day - 1 })
        } else if self.month > 1 {
            let first = Date { year: self.year, month: self.month - 1, day: 1 };
            Some(Date { year: self.year, month: self.month - 1, day: first.days_in_its_month() })
        } else if self.year > -9999 {
            Some(Date { year: self.year - 1, month: 12, day: 31 })
        } else {
            None
        }
    }

    pub fn is_at_or_before(self, other: Date) -> (r: bool)
        ensures
            r == self.at_or_before(other),
    {
        self.year < other.year || (self.year == other.year && (self.month < other.month || (
        self.month == other.month && self.day <= other.day)))
    }

    pub fn first_of_month(self) -> (r: Date)
        ensures
            r == self.month_start(),
            self.valid() ==> r.valid(),
    {
        Date { year: self.year, month: self.month, day: 1 }
    }

    pub fn first_of_next_month(self) -> (r: Option<Date>)
        requires
            self.valid(),
        ensures
            r == self.next_month(),
            r matches Some(date) ==> date.valid(),
    {
        if self.month < 12 {
            Some(Date { year: self.year, month: self.month + 1, day: 1 })
        } else if self.year < 9999 {
            Some(Date { year: self.year + 1, month: 1, day: 1 })
        } else {
            None
        }
    }
}

proof fn lemma_before_month(year: int, month: int)
    requires
        1 <= month <= 12,
    ensures
        0 <= days_before_month(year, month) <= 31 * (month - 1),
        days_before_month(year, month) + days_in_month(year, month) <= 366,
{
    reveal_with_fuel(days_before_month, 13);
}

/// Every year is as long as its months together.
proof fn lemma_year_length(year: int)
    ensures
        days_before_year(year + 1) == days_before_year(year) + days_before_month(year, 12) + 31,
{
    let leap: int = if is_leap(year) {
        1
    } else {
        0
    };
    assert(days_before_month(year, 12) == 334 + leap) by {
        reveal_with_fuel(days_before_month, 13);
    }
    lemma_multiples(year, 4);
    lemma_multiples(year, 100);
    lemma_multiples(year, 400);
    assert(year % 100 == 0 ==> year % 4 == 0);
    assert(year % 400 == 0 ==> year % 100 == 0);
}

/// From one number to the next the quotient grows where the number is a multiple.
proof fn lemma_multiples(n: int, d: int)
    requires
        d > 1,
    ensures
        n / d == (n - 1) / d + if n % d == 0 {
            1int
        } else {
            0
        },
{
    vstd::arithmetic::div_mod::lemma_fundamental_div_mod(n, d);
    vstd::arithmetic::div_mod::lemma_mod_bound(n, d);
    let q = n / d;
    let m = n % d;
    if m == 0 {
        assert(n - 1 == (q - 1) * d + (d - 1)) by (nonlinear_arith)
            requires
                n == d * q + m,
                m == 0,
        ;
        vstd::arithmetic::div_mod::lemma_fundamental_div_mod_converse(n - 1, d, q - 1, d - 1);
    } else {
        assert(n - 1 == q * d + (m - 1)) by (nonlinear_arith)
            requires
                n == d * q + m,
        ;
        vstd::arithmetic::div_mod::lemma_fundamental_div_mod_converse(n - 1, d, q, m - 1);
    }
}

/// The next day lies one day later, and the day before it is the day itself.
pub proof fn next_day_is_one_day_later(date: Date)
    requires
        date.valid(),
    ensures
        date.next_day() matches Some(next) ==> next.valid() && next.epoch_day() == date.epoch_day()
            + 1 && next.previous_day() == Some(date),
{
    lemma_year_length(date.year as int);
    reveal_with_fuel(days_before_month, 3);
}

proof fn lemma_years_add_up(early: int, late: int)
    requires
        early < late,
    ensures
        days_before_year(early) + days_before_month(early, 12) + 31 <= days_before_year(late),
    decreases late - early,
{
    lemma_year_length(early);
    if early + 1 < late {
        lemma_years_add_up(early + 1, late);
        lemma_before_month(early + 1, 12);
    }
}

proof fn lemma_months_add_up(year: int, early: int, late: int)
    requires
        1 <= early < late <= 13,
    ensures
        days_before_month(year, early) + days_in_month(year, early) <= days_before_month(year, late),
    decreases late - early,
{
    if early + 1 < late {
        lemma_months_add_up(year, early, late - 1);
    }
}

/// Comparing year, month and day in turn orders dates as they follow one another.
pub proof fn dates_order_as_their_days(a: Date, b: Date)
    requires
        a.valid(),
        b.valid(),
    ensures
        a.at_or_before(b) <==> a.epoch_day() <= b.epoch_day(),
        a.epoch_day() == b.epoch_day() ==> a == b,
{
    if a.year < b.year {
        lemma_earlier(a, b);
    } else if b.year < a.year {
        lemma_earlier(b, a);
    } else if a.month < b.month {
        lemma_earlier(a, b);
    } else if b.month < a.month {
        lemma_earlier(b, a);
    }
}

proof fn lemma_earlier(a: Date, b: Date)
    requires
        a.valid(),
        b.valid(),
        a.year < b.year || a.year == b.year && a.month < b.month,
    ensures
        a.epoch_day() < b.epoch_day(),
{
    lemma_before_month(b.year as int, b.month as int);
    if a.year < b.year {
        lemma_years_add_up(a.year as int, b.year as int);
        if a.month < 12 {
            lemma_months_add_up(a.year as int, a.month as int, 12);
        }
    } else {
        lemma_months_add_up(a.year as int, a.month as int, b.month as int);
    }
}

/// Counting on by `n` days from a date passes `n` days.
pub proof fn later_counts_days(date: Date, n: nat)
    requires
        date.valid(),
    ensures
        date.later(n) matches Some(later) ==> later.valid() && later.epoch_day() == date.epoch_day()
            + n,
    decreases n,
{
    if n > 0 {
        later_counts_days(date, (n - 1) as nat);
        if let Some(before) = date.later((n - 1) as nat) {
            next_day_is_one_day_later(before);
        }
    }
}

// ---------------------------------------------------------------------------------------------
// Names
// ---------------------------------------------------------------------------------------------

/// A year in four characters or more.
pub open spec fn year_text(year: int) -> Seq<char> {
    if year >= 0 {
        text::zero_padded(text::decimal(year as nat), 4)
    } else {
        "-"@ + text::zero_padded(text::decimal((-year) as nat), 3)
    }
}

pub fn push_year(out: &mut String, year: i16)
    ensures
        final(out)@ == old(out)@ + year_text(year as int),
{
    if year >= 0 {
        let digits = text::decimal_string(year as u64);
        text::push_zero_padded(out, digits.as_str(), 4);
    } else {
        out.append("-");
        let digits = text::decimal_string((-(year as i32)) as u64);
        text::push_zero_padded(out, digits.as_str(), 3);
        assert(out@ =~= old(out)@ + year_text(year as int));
    }
}

pub open spec fn month_name(month: int) -> Seq<char> {
    if month == 1 {
        "January"@
    } else if month == 2 {
        "February"@
    } else if month == 3 {
        "March"@
    } else if month == 4 {
        "April"@
    } else if month == 5 {
        "May"@
    } else if month == 6 {
        "June"@
    } else if month == 7 {
        "July"@
    } else if month == 8 {
        "August"@
    } else if month == 9 {
        "September"@
    } else if month == 10 {
        "October"@
    } else if month == 11 {
        "November"@
    } else {
        "December"@
    }
}

pub fn month_str(month: u8) -> (r: &'static str)
    ensures
        r@ == month_name(month as int),
{
    match month {
        1 => "January",
        2 => "February",
        3 => "March",
        4 => "April",
        5 => "May",
        6 => "June",
        7 => "July",
        8 => "August",
        9 => "September",
        10 => "October",
        11 => "November",
        _ => "December",
    }
}

/// The first three letters.
pub open spec fn month_abbreviation(month: int) -> Seq<char> {
    month_name(month).take(3)
}

pub fn push_month_abbreviation(out: &mut String, month: u8)
    ensures
        final(out)@ == old(out)@ + month_abbreviation(month as int),
{
    proof {
        reveal_strlit("January");
        reveal_strlit("February");
        reveal_strlit("March");
        reveal_strlit("April");
        reveal_strlit("May");
        reveal_strlit("June");
        reveal_strlit("July");
        reveal_strlit("August");
        reveal_strlit("September");
        reveal_strlit("October");
        reveal_strlit("November");
        reveal_strlit("December");
    }
    let name = text::chars(month_str(month));
    let short = text::string(vstd::slice::slice_subrange(name.as_slice(), 0, 3));
    assert(short@ =~= month_abbreviation(month as int));
    out.append(short.as_str());
}

/// The day before lies one day earlier.
pub proof fn previous_day_is_one_day_earlier(date: Date)
    requires
        date.valid(),
    ensures
        date.previous_day() matches Some(before) ==> before.valid() && before.epoch_day()
            == date.epoch_day() - 1,
        date.previous_day() is None <==> date.year == -9999 && date.month == 1 && date.day == 1,
{
    if let Some(before) = date.previous_day() {
        assert(before.next_day() == Some(date));
        next_day_is_one_day_later(before);
    }
}

/// Weekdays follow one another through the week, from Monday, which is 0, to Sunday, which is 6,
/// and 1970-01-01 was a Thursday.
pub proof fn weekdays_follow_one_another(date: Date)
    requires
        date.valid(),
    ensures
        0 <= date.monday_offset() <= 6,
        date.next_day() matches Some(next) ==> next.monday_offset() == if date.monday_offset()
            == 6 {
            0
        } else {
            date.monday_offset() + 1
        },
        (Date { year: 1970, month: 1, day: 1 }).monday_offset() == 3,
        (Date { year: 1970, month: 1, day: 1 }).epoch_day() == 0,
{
    next_day_is_one_day_later(date);
    reveal_with_fuel(days_before_month, 3);
}

/// The calendar ends with the year 9999 and has every day before that.
pub proof fn only_the_last_day_has_no_next(date: Date)
    requires
        date.valid(),
    ensures
        date.next_day() is None <==> date.year == 9999 && date.month == 12 && date.day == 31,
{
}

} // verus!

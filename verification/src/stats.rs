//! Who printed how much, with whose filament, and what is owed for it. Weights are in
//! milligrams, values in thousandths of a cent. Like `accounts`, functions take timestamps
//! rather than reading the clock.

use vstd::prelude::*;

use crate::accounts::{self, Accounts};
use crate::calendar::{self, Date};
use crate::inventory::{self, ConsumptionKind, Inventory, LedgerEntry, Spool};
use crate::jobs::{Job, JobState, Jobs};
use crate::lists;
use crate::num;
use crate::order;
use crate::text;
use crate::zone::Zone;

verus! {

#[derive(Debug, Clone, Copy, PartialEq, Eq, Structural)]
pub enum Period {
    Last30Days,
    Last12Months,
    AllTime,
}

impl Period {
    pub const ALL: [Period; 3] = [Period::Last30Days, Period::Last12Months, Period::AllTime];

    pub open spec fn name(self) -> Seq<char> {
        match self {
            Period::Last30Days => "30d"@,
            Period::Last12Months => "12m"@,
            Period::AllTime => "all"@,
        }
    }

    pub open spec fn named(raw: Seq<char>) -> Option<Period> {
        if raw == "30d"@ {
            Some(Period::Last30Days)
        } else if raw == "12m"@ {
            Some(Period::Last12Months)
        } else if raw == "all"@ {
            Some(Period::AllTime)
        } else {
            None
        }
    }

    pub open spec fn title(self) -> Seq<char> {
        match self {
            Period::Last30Days => "Last 30 days"@,
            Period::Last12Months => "Last 12 months"@,
            Period::AllTime => "All time"@,
        }
    }

    /// The first second that counts, 0 for all time. Twelve months start on the first of a
    /// month, so the chart's first bar covers a whole one.
    pub open spec fn start(self, now: i64, zone: Zone) -> int {
        match self {
            Period::Last30Days => now - 30 * 86_400,
            Period::Last12Months => match eleven_months_before(zone.date_at(now as int)) {
                Some(month) => match zone.instant_at(month, 0) {
                    Some(start) => start,
                    None => 0,
                },
                None => 0,
            },
            Period::AllTime => 0,
        }
    }

    pub fn as_str(self) -> (r: &'static str)
        ensures
            r@ == self.name(),
    {
        match self {
            Period::Last30Days => "30d",
            Period::Last12Months => "12m",
            Period::AllTime => "all",
        }
    }

    pub fn parse(raw: &str) -> (r: Option<Period>)
        ensures
            r == Period::named(raw@),
    {
        if text::same(raw, "30d") {
            Some(Period::Last30Days)
        } else if text::same(raw, "12m") {
            Some(Period::Last12Months)
        } else if text::same(raw, "all") {
            Some(Period::AllTime)
        } else {
            None
        }
    }

    pub fn label(self) -> (r: &'static str)
        ensures
            r@ == self.title(),
    {
        match self {
            Period::Last30Days => "Last 30 days",
            Period::Last12Months => "Last 12 months",
            Period::AllTime => "All time",
        }
    }

    /// The first second that counts, 0 for all time. Twelve months start on the first of a
    /// month, so the chart's first bar covers a whole one.
    pub fn since(self, now: i64, zone: &Zone) -> (r: i64)
        requires
            now >= i64::MIN + 2_592_000,
        ensures
            r == self.start(now, *zone),
    {
        match self {
            Period::Last30Days => now - 30 * 86_400,
            Period::Last12Months => {
                match months_before(zone.date(now)) {
                    Some(month) => match zone.instant(month, 0) {
                        Some(start) => start,
                        None => 0,
                    },
                    None => 0,
                }
            },
            Period::AllTime => 0,
        }
    }

    pub fn granularity(self) -> (r: Granularity)
        ensures
            r == self.steps(),
    {
        match self {
            Period::Last30Days => Granularity::Day,
            Period::Last12Months => Granularity::Month,
            Period::AllTime => Granularity::Month,
        }
    }

    pub open spec fn steps(self) -> Granularity {
        match self {
            Period::Last30Days => Granularity::Day,
            _ => Granularity::Month,
        }
    }
}

/// A period is read back from its name, and from nothing else.
pub proof fn period_names_round_trip(period: Period, raw: Seq<char>)
    ensures
        Period::named(period.name()) == Some(period),
        Period::named(raw) == Some(period) ==> raw == period.name(),
{
    reveal_strlit("30d");
    reveal_strlit("12m");
    reveal_strlit("all");
    assert("30d"@[0] == '3' && "12m"@[0] == '1' && "all"@[0] == 'a');
}

/// The first of the month eleven months before the one a date lies in.
pub open spec fn eleven_months_before(date: Date) -> Option<Date> {
    if date.month == 12 {
        Some(Date { year: date.year, month: 1, day: 1 })
    } else if date.year > -9999 {
        Some(Date { year: (date.year - 1) as i16, month: (date.month + 1) as u8, day: 1 })
    } else {
        None
    }
}

fn months_before(date: Date) -> (r: Option<Date>)
    requires
        date.valid(),
    ensures
        r == eleven_months_before(date),
        r matches Some(month) ==> month.valid(),
{
    if date.month == 12 {
        Some(Date { year: date.year, month: 1, day: 1 })
    } else if date.year > -9999 {
        Some(Date { year: date.year - 1, month: date.month + 1, day: 1 })
    } else {
        None
    }
}

#[derive(Debug, Clone, Copy, PartialEq, Eq, Structural)]
pub enum Granularity {
    Day,
    Month,
}

impl Granularity {
    /// The day itself, or the first of its month.
    pub open spec fn from(self, date: Date) -> Date {
        match self {
            Granularity::Day => date,
            Granularity::Month => date.month_start(),
        }
    }

    pub open spec fn after(self, date: Date) -> Option<Date> {
        match self {
            Granularity::Day => date.next_day(),
            Granularity::Month => date.next_month(),
        }
    }

    /// The start of the step `n` steps after the one that starts at `date`.
    pub open spec fn nth(self, date: Date, n: nat) -> Option<Date>
        decreases n,
    {
        if n == 0 {
            Some(date)
        } else {
            match self.nth(date, (n - 1) as nat) {
                Some(before) => self.after(before),
                None => None,
            }
        }
    }

    pub fn start(self, date: Date) -> (r: Date)
        ensures
            r == self.from(date),
            date.valid() ==> r.valid(),
    {
        match self {
            Granularity::Day => date,
            Granularity::Month => date.first_of_month(),
        }
    }

    pub fn next(self, start: Date) -> (r: Option<Date>)
        requires
            start.valid(),
        ensures
            r == self.after(start),
            r matches Some(date) ==> date.valid() && date.epoch_day() > start.epoch_day(),
    {
        let next = match self {
            Granularity::Day => start.tomorrow(),
            Granularity::Month => start.first_of_next_month(),
        };
        proof {
            if let Some(date) = next {
                calendar::dates_order_as_their_days(start, date);
                calendar::dates_order_as_their_days(date, start);
            }
        }
        next
    }
}

pub fn local_date(unix: i64, zone: &Zone) -> (r: Date)
    ensures
        r == zone.date_at(unix as int),
        r.valid(),
{
    zone.date(unix)
}

/// Whose spool filament came from, seen from whoever used it.
#[derive(Debug, Clone, Copy, PartialEq, Eq, Structural)]
pub enum Whose {
    Own,
    Shared,
    Others,
}

impl Whose {
    pub const ALL: [Whose; 3] = [Whose::Own, Whose::Shared, Whose::Others];

    pub open spec fn place(self) -> int {
        match self {
            Whose::Own => 0,
            Whose::Shared => 1,
            Whose::Others => 2,
        }
    }

    pub fn index(self) -> (r: usize)
        ensures
            r == self.place(),
            r < 3,
    {
        match self {
            Whose::Own => 0,
            Whose::Shared => 1,
            Whose::Others => 2,
        }
    }
}

/// One ledger entry.
#[derive(Debug, PartialEq, Eq)]
pub struct Use {
    /// Whoever printed, or for a weigh-in whoever weighed.
    pub user_id: Option<i64>,
    /// The spool's owner when the entry was written; `None` for a shared spool.
    pub owner_id: Option<i64>,
    pub kind: ConsumptionKind,
    pub mg: i64,
    /// `None` when the spool had no price.
    pub value: Option<i128>,
    pub material: String,
    pub at: i64,
}

impl Clone for Use {
    fn clone(&self) -> (r: Use)
        ensures
            r == *self,
    {
        Use {
            user_id: self.user_id,
            owner_id: self.owner_id,
            kind: self.kind,
            mg: self.mg,
            value: self.value,
            material: self.material.clone(),
            at: self.at,
        }
    }
}

impl Use {
    /// `None` for weigh-ins, which nobody printed.
    pub open spec fn origin(self) -> Option<Whose> {
        if self.kind == ConsumptionKind::WeighIn || self.user_id is None {
            None
        } else {
            Some(
                match self.owner_id {
                    None => Whose::Shared,
                    Some(owner) => if owner == self.user_id->0 {
                        Whose::Own
                    } else {
                        Whose::Others
                    },
                },
            )
        }
    }

    /// `None` for weigh-ins, which nobody printed.
    pub fn whose(&self) -> (r: Option<Whose>)
        ensures
            r == self.origin(),
    {
        if self.kind == ConsumptionKind::WeighIn {
            return None;
        }
        match self.user_id {
            None => None,
            Some(user) => Some(
                match self.owner_id {
                    None => Whose::Shared,
                    Some(owner) => if owner == user {
                        Whose::Own
                    } else {
                        Whose::Others
                    },
                },
            ),
        }
    }
}

/// A job that reached the printer and ended.
#[derive(Debug, Clone, Copy, PartialEq, Eq, Structural)]
pub struct Print {
    pub owner_id: Option<i64>,
    pub state: JobState,
    /// Includes time spent paused.
    pub seconds: i64,
    pub finished_at: i64,
}

#[derive(Debug, PartialEq, Eq)]
pub struct Ledger {
    pub uses: Vec<Use>,
    pub prints: Vec<Print>,
}

pub open spec fn printed_by_user(user_id: i64) -> spec_fn(Use) -> bool {
    |entry: Use| entry.origin() is Some && entry.user_id == Some(user_id)
}

pub open spec fn print_of(user_id: i64) -> spec_fn(Print) -> bool {
    |print: Print| print.owner_id == Some(user_id)
}

impl Ledger {
    /// Only `user_id`'s prints and the filament they used.
    pub fn of_user(&self, user_id: i64) -> (r: Ledger)
        ensures
            r.uses@ == self.uses@.filter(printed_by_user(user_id)),
            r.prints@ == self.prints@.filter(print_of(user_id)),
    {
        let ghost p = printed_by_user(user_id);
        let ghost q = print_of(user_id);
        proof {
            lists::lemma_filter_ends(self.uses@, p);
            lists::lemma_filter_ends(self.prints@, q);
        }
        let mut uses: Vec<Use> = Vec::new();
        let mut i: usize = 0;
        while i < self.uses.len()
            invariant
                i <= self.uses@.len(),
                p == printed_by_user(user_id),
                uses@ == self.uses@.take(i as int).filter(p),
            decreases self.uses.len() - i,
        {
            proof {
                lists::lemma_filter_step(self.uses@, p, i as int);
            }
            let theirs = match self.uses[i].user_id {
                Some(id) => id == user_id,
                None => false,
            };
            if theirs && self.uses[i].whose().is_some() {
                uses.push(self.uses[i].clone());
            }
            i += 1;
        }
        let mut prints: Vec<Print> = Vec::new();
        let mut i: usize = 0;
        while i < self.prints.len()
            invariant
                i <= self.prints@.len(),
                q == print_of(user_id),
                prints@ == self.prints@.take(i as int).filter(q),
            decreases self.prints.len() - i,
        {
            proof {
                lists::lemma_filter_step(self.prints@, q, i as int);
            }
            let theirs = match self.prints[i].owner_id {
                Some(id) => id == user_id,
                None => false,
            };
            if theirs {
                prints.push(self.prints[i]);
            }
            i += 1;
        }
        Ledger { uses, prints }
    }
}

// ---------------------------------------------------------------------------------------------
// Sums
// ---------------------------------------------------------------------------------------------

/// The weight of the entries that `p` picks.
pub open spec fn total_mg(uses: Seq<Use>, p: spec_fn(Use) -> bool) -> int
    decreases uses.len(),
{
    if uses.len() == 0 {
        0
    } else {
        total_mg(uses.drop_last(), p) + if p(uses.last()) {
            uses.last().mg as int
        } else {
            0
        }
    }
}

/// The value of the entries that `p` picks and that have one; `None` where none has one.
pub open spec fn total_value(uses: Seq<Use>, p: spec_fn(Use) -> bool) -> Option<int>
    decreases uses.len(),
{
    if uses.len() == 0 {
        None
    } else {
        let before = total_value(uses.drop_last(), p);
        match uses.last().value {
            Some(value) if p(uses.last()) => Some(or_zero(before) + value),
            _ => before,
        }
    }
}

pub open spec fn or_zero(value: Option<int>) -> int {
    match value {
        Some(value) => value,
        None => 0,
    }
}

/// How many prints `p` picks.
pub open spec fn count_prints(prints: Seq<Print>, p: spec_fn(Print) -> bool) -> nat
    decreases prints.len(),
{
    if prints.len() == 0 {
        0
    } else {
        count_prints(prints.drop_last(), p) + if p(prints.last()) { 1nat } else { 0 }
    }
}

/// How long the prints took that `p` picks.
pub open spec fn total_seconds(prints: Seq<Print>, p: spec_fn(Print) -> bool) -> int
    decreases prints.len(),
{
    if prints.len() == 0 {
        0
    } else {
        total_seconds(prints.drop_last(), p) + if p(prints.last()) {
            prints.last().seconds as int
        } else {
            0
        }
    }
}

/// What uses are worth, each without its sign.
pub open spec fn worth(uses: Seq<Use>) -> int
    decreases uses.len(),
{
    if uses.len() == 0 {
        0
    } else {
        worth(uses.drop_last()) + num::size(or_zero_value(uses.last().value))
    }
}

pub open spec fn or_zero_value(value: Option<i128>) -> int {
    match value {
        Some(value) => value as int,
        None => 0,
    }
}

/// The values can be added up in 128 bits.
pub open spec fn values_fit(uses: Seq<Use>) -> bool {
    worth(uses) <= i128::MAX
}

proof fn lemma_worth_grows(uses: Seq<Use>, i: int)
    requires
        0 <= i <= uses.len(),
    ensures
        0 <= worth(uses.take(i)) <= worth(uses),
    decreases uses.len(),
{
    if i < uses.len() {
        lemma_worth_grows(uses.drop_last(), i);
        assert(uses.drop_last().take(i) =~= uses.take(i));
    } else {
        assert(uses.take(i) =~= uses);
        if uses.len() > 0 {
            lemma_worth_grows(uses.drop_last(), i - 1);
        }
    }
}

fn sum_mg<F: Fn(usize) -> bool>(uses: &Vec<Use>, pick: F, Ghost(p): Ghost<spec_fn(Use) -> bool>) -> (r:
    i128)
    requires
        forall|i: usize| i < uses@.len() ==> #[trigger] call_requires(pick, (i,)),
        forall|i: usize, b: bool| #[trigger]
            call_ensures(pick, (i,), b) && i < uses@.len() ==> b == p(uses@[i as int]),
    ensures
        r == total_mg(uses@, p),
        -0x8000_0000_0000_0000 * uses@.len() <= r <= 0x8000_0000_0000_0000 * uses@.len(),
{
    let mut sum: i128 = 0;
    let mut i: usize = 0;
    while i < uses.len()
        invariant
            i <= uses@.len(),
            sum == total_mg(uses@.take(i as int), p),
            -0x8000_0000_0000_0000 * i <= sum <= 0x8000_0000_0000_0000 * i,
            forall|i: usize| i < uses@.len() ==> #[trigger] call_requires(pick, (i,)),
            forall|i: usize, b: bool| #[trigger]
                call_ensures(pick, (i,), b) && i < uses@.len() ==> b == p(uses@[i as int]),
        decreases uses.len() - i,
    {
        assert(uses@.take(i + 1).drop_last() =~= uses@.take(i as int));
        if pick(i) {
            sum = sum + uses[i].mg as i128;
        }
        i += 1;
    }
    assert(uses@.take(i as int) =~= uses@);
    sum
}

fn sum_value<F: Fn(usize) -> bool>(
    uses: &Vec<Use>,
    pick: F,
    Ghost(p): Ghost<spec_fn(Use) -> bool>,
) -> (r: Option<i128>)
    requires
        values_fit(uses@),
        forall|i: usize| i < uses@.len() ==> #[trigger] call_requires(pick, (i,)),
        forall|i: usize, b: bool| #[trigger]
            call_ensures(pick, (i,), b) && i < uses@.len() ==> b == p(uses@[i as int]),
    ensures
        r matches Some(value) ==> total_value(uses@, p) == Some(value as int),
        r is None ==> total_value(uses@, p) is None,
{
    let mut sum: Option<i128> = None;
    let mut i: usize = 0;
    while i < uses.len()
        invariant
            i <= uses@.len(),
            values_fit(uses@),
            sum matches Some(value) ==> total_value(uses@.take(i as int), p) == Some(value as int)
                && -worth(uses@.take(i as int)) <= value <= worth(uses@.take(i as int)),
            sum is None ==> total_value(uses@.take(i as int), p) is None,
            forall|i: usize| i < uses@.len() ==> #[trigger] call_requires(pick, (i,)),
            forall|i: usize, b: bool| #[trigger]
                call_ensures(pick, (i,), b) && i < uses@.len() ==> b == p(uses@[i as int]),
        decreases uses.len() - i,
    {
        proof {
            lemma_worth_grows(uses@, i as int);
            lemma_worth_grows(uses@, i + 1);
        }
        assert(uses@.take(i + 1).drop_last() =~= uses@.take(i as int));
        if pick(i) {
            if let Some(value) = uses[i].value {
                assert(uses@[i as int].value == Some(value));
                let before: i128 = match sum {
                    Some(before) => before,
                    None => 0,
                };
                sum = Some(before + value);
            }
        }
        i += 1;
    }
    assert(uses@.take(i as int) =~= uses@);
    sum
}

fn count_ended(prints: &Vec<Print>, user_id: i64, state: JobState) -> (r: u64)
    ensures
        r == count_prints(prints@, ended_as(user_id, state)),
{
    let ghost p = ended_as(user_id, state);
    let mut count: u64 = 0;
    let mut i: usize = 0;
    while i < prints.len()
        invariant
            i <= prints@.len(),
            p == ended_as(user_id, state),
            count == count_prints(prints@.take(i as int), p),
            count <= i,
        decreases prints.len() - i,
    {
        assert(prints@.take(i + 1).drop_last() =~= prints@.take(i as int));
        let theirs = match prints[i].owner_id {
            Some(id) => id == user_id,
            None => false,
        };
        if theirs && prints[i].state == state {
            count += 1;
        }
        i += 1;
    }
    assert(prints@.take(i as int) =~= prints@);
    count
}

fn sum_seconds(prints: &Vec<Print>, user_id: i64) -> (r: i128)
    ensures
        r == total_seconds(prints@, ended_by(user_id)),
{
    let ghost p = ended_by(user_id);
    let mut sum: i128 = 0;
    let mut i: usize = 0;
    while i < prints.len()
        invariant
            i <= prints@.len(),
            p == ended_by(user_id),
            sum == total_seconds(prints@.take(i as int), p),
            -0x8000_0000_0000_0000 * i <= sum <= 0x8000_0000_0000_0000 * i,
        decreases prints.len() - i,
    {
        assert(prints@.take(i + 1).drop_last() =~= prints@.take(i as int));
        let theirs = match prints[i].owner_id {
            Some(id) => id == user_id,
            None => false,
        };
        if theirs && prints[i].state.is_finished() {
            sum = sum + prints[i].seconds as i128;
        }
        i += 1;
    }
    assert(prints@.take(i as int) =~= prints@);
    sum
}

// ---------------------------------------------------------------------------------------------
// People
// ---------------------------------------------------------------------------------------------

#[derive(Debug, Clone, Copy, PartialEq, Eq, Structural)]
pub struct Person {
    pub user_id: i64,
    pub done: u64,
    pub failed: u64,
    pub cancelled: u64,
    pub print_seconds: i128,
    pub own_mg: i128,
    pub shared_mg: i128,
    pub others_mg: i128,
    /// All of it together.
    pub total_mg: i128,
    /// What the filament from other people's spools was worth, counting priced spools only.
    pub others_value: i128,
    /// Filament that went into prints that failed or were stopped.
    pub wasted_mg: i128,
}

impl Person {
    pub open spec fn print_count(self) -> int {
        self.done + self.failed + self.cancelled
    }

    pub fn prints(&self) -> (r: u128)
        ensures
            r == self.print_count(),
    {
        self.done as u128 + self.failed as u128 + self.cancelled as u128
    }

    pub fn grams(&self) -> (r: i128)
        ensures
            r == self.total_mg,
    {
        self.total_mg
    }
}

pub open spec fn ended_as(user_id: i64, state: JobState) -> spec_fn(Print) -> bool {
    |print: Print| print.owner_id == Some(user_id) && print.state == state
}

pub open spec fn ended_by(user_id: i64) -> spec_fn(Print) -> bool {
    |print: Print| print.owner_id == Some(user_id) && print.state.ended()
}

pub open spec fn used_from(user_id: i64, whose: Whose) -> spec_fn(Use) -> bool {
    |entry: Use| entry.user_id == Some(user_id) && entry.origin() == Some(whose)
}

pub open spec fn wasted_by(user_id: i64) -> spec_fn(Use) -> bool {
    |entry: Use|
        entry.user_id == Some(user_id) && entry.origin() is Some && entry.kind
            == ConsumptionKind::Estimate
}

/// What the ledger says of a person.
pub open spec fn person_of(uses: Seq<Use>, prints: Seq<Print>, user_id: i64) -> Person {
    let own = total_mg(uses, used_from(user_id, Whose::Own));
    let shared = total_mg(uses, used_from(user_id, Whose::Shared));
    let others = total_mg(uses, used_from(user_id, Whose::Others));
    Person {
        user_id,
        done: count_prints(prints, ended_as(user_id, JobState::Done)) as u64,
        failed: count_prints(prints, ended_as(user_id, JobState::Failed)) as u64,
        cancelled: count_prints(prints, ended_as(user_id, JobState::Cancelled)) as u64,
        print_seconds: total_seconds(prints, ended_by(user_id)) as i128,
        own_mg: own as i128,
        shared_mg: shared as i128,
        others_mg: others as i128,
        total_mg: (own + shared + others) as i128,
        others_value: or_zero(total_value(uses, used_from(user_id, Whose::Others))) as i128,
        wasted_mg: total_mg(uses, wasted_by(user_id)) as i128,
    }
}

fn find_person(ledger: &Ledger, user_id: i64) -> (r: Person)
    requires
        values_fit(ledger.uses@),
    ensures
        r == person_of(ledger.uses@, ledger.prints@, user_id),
{
    let uses = &ledger.uses;
    let own = |i: usize| -> (b: bool)
        requires
            i < uses@.len(),
        ensures
            b == used_from(user_id, Whose::Own)(uses@[i as int]),
        { is_use_of(&uses[i], user_id, Whose::Own) };
    let shared = |i: usize| -> (b: bool)
        requires
            i < uses@.len(),
        ensures
            b == used_from(user_id, Whose::Shared)(uses@[i as int]),
        { is_use_of(&uses[i], user_id, Whose::Shared) };
    let others = |i: usize| -> (b: bool)
        requires
            i < uses@.len(),
        ensures
            b == used_from(user_id, Whose::Others)(uses@[i as int]),
        { is_use_of(&uses[i], user_id, Whose::Others) };
    let wasted = |i: usize| -> (b: bool)
        requires
            i < uses@.len(),
        ensures
            b == wasted_by(user_id)(uses@[i as int]),
        {
            uses[i].kind == ConsumptionKind::Estimate && match uses[i].user_id {
                Some(id) => id == user_id,
                None => false,
            }
        };
    let own_mg: i128 = sum_mg(uses, own, Ghost(used_from(user_id, Whose::Own)));
    let shared_mg: i128 = sum_mg(uses, shared, Ghost(used_from(user_id, Whose::Shared)));
    let others_mg: i128 = sum_mg(uses, others, Ghost(used_from(user_id, Whose::Others)));
    let printed = |i: usize| -> (b: bool)
        requires
            i < uses@.len(),
        ensures
            b == printed_by_user(user_id)(uses@[i as int]),
        {
            uses[i].whose().is_some() && match uses[i].user_id {
                Some(id) => id == user_id,
                None => false,
            }
        };
    let total_mg: i128 = sum_mg(uses, printed, Ghost(printed_by_user(user_id)));
    proof {
        filament_is_split_by_whose_it_was(uses@, user_id);
    }
    let others_value: i128 = match sum_value(
        uses,
        others,
        Ghost(used_from(user_id, Whose::Others)),
    ) {
        Some(value) => value,
        None => 0,
    };
    Person {
        user_id,
        done: count_ended(&ledger.prints, user_id, JobState::Done),
        failed: count_ended(&ledger.prints, user_id, JobState::Failed),
        cancelled: count_ended(&ledger.prints, user_id, JobState::Cancelled),
        print_seconds: sum_seconds(&ledger.prints, user_id),
        own_mg,
        shared_mg,
        others_mg,
        total_mg,
        others_value,
        wasted_mg: sum_mg(uses, wasted, Ghost(wasted_by(user_id))),
    }
}

fn is_use_of(entry: &Use, user_id: i64, whose: Whose) -> (r: bool)
    ensures
        r == used_from(user_id, whose)(*entry),
{
    let theirs = match entry.user_id {
        Some(id) => id == user_id,
        None => false,
    };
    theirs && match entry.whose() {
        Some(origin) => origin == whose,
        None => false,
    }
}

/// Whose prints are in the ledger.
pub open spec fn printers(prints: Seq<Print>) -> Seq<i64>
    decreases prints.len(),
{
    if prints.len() == 0 {
        seq![]
    } else {
        match prints.last().owner_id {
            Some(owner) => printers(prints.drop_last()).push(owner),
            None => printers(prints.drop_last()),
        }
    }
}

pub open spec fn was_printed() -> spec_fn(Use) -> bool {
    |entry: Use| entry.origin() is Some
}

/// The users of the entries that `p` picks.
pub open spec fn users_of(uses: Seq<Use>, p: spec_fn(Use) -> bool) -> Seq<i64>
    decreases uses.len(),
{
    if uses.len() == 0 {
        seq![]
    } else {
        match uses.last().user_id {
            Some(user) if p(uses.last()) => users_of(uses.drop_last(), p).push(user),
            _ => users_of(uses.drop_last(), p),
        }
    }
}

/// Everyone who printed.
pub open spec fn everyone(uses: Seq<Use>, prints: Seq<Print>) -> Seq<i64> {
    lists::first_seen(printers(prints) + users_of(uses, was_printed()))
}

/// Most filament first; then most prints, then the lower id.
pub open spec fn most_first() -> spec_fn(Person, Person) -> bool {
    |a: Person, b: Person|
        {
            if a.total_mg != b.total_mg {
                b.total_mg < a.total_mg
            } else if a.print_count() != b.print_count() {
                b.print_count() < a.print_count()
            } else {
                a.user_id <= b.user_id
            }
        }
}

fn add_id(ids: &mut Vec<i64>, id: i64, Ghost(all): Ghost<Seq<i64>>)
    requires
        old(ids)@ == lists::first_seen(all),
    ensures
        final(ids)@ == lists::first_seen(all.push(id)),
{
    proof {
        assert(all.push(id).drop_last() =~= all);
    }
    let mut i: usize = 0;
    while i < ids.len()
        invariant
            i <= ids@.len(),
            ids@ == old(ids)@,
            forall|k: int| 0 <= k < i ==> ids@[k] != id,
            ids@ == lists::first_seen(all),
            all.push(id).drop_last() == all,
        decreases ids.len() - i,
    {
        if ids[i] == id {
            assert(ids@[i as int] == id);
            return ;
        }
        i += 1;
    }
    ids.push(id);
}

fn find_everyone(ledger: &Ledger) -> (r: Vec<i64>)
    ensures
        r@ == everyone(ledger.uses@, ledger.prints@),
{
    let mut ids: Vec<i64> = Vec::new();
    let ghost mut all: Seq<i64> = seq![];
    let mut i: usize = 0;
    while i < ledger.prints.len()
        invariant
            i <= ledger.prints@.len(),
            all == printers(ledger.prints@.take(i as int)),
            ids@ == lists::first_seen(all),
        decreases ledger.prints.len() - i,
    {
        assert(ledger.prints@.take(i + 1).drop_last() =~= ledger.prints@.take(i as int));
        if let Some(owner) = ledger.prints[i].owner_id {
            add_id(&mut ids, owner, Ghost(all));
            proof {
                all = all.push(owner);
            }
        }
        i += 1;
    }
    assert(ledger.prints@.take(i as int) =~= ledger.prints@);
    let ghost first = all;
    let mut i: usize = 0;
    assert(all =~= first + users_of(ledger.uses@.take(0), was_printed()));
    while i < ledger.uses.len()
        invariant
            i <= ledger.uses@.len(),
            all == first + users_of(ledger.uses@.take(i as int), was_printed()),
            ids@ == lists::first_seen(all),
        decreases ledger.uses.len() - i,
    {
        assert(ledger.uses@.take(i + 1).drop_last() =~= ledger.uses@.take(i as int));
        if ledger.uses[i].whose().is_some() {
            if let Some(user) = ledger.uses[i].user_id {
                add_id(&mut ids, user, Ghost(all));
                proof {
                    all = all.push(user);
                }
            }
        }
        i += 1;
        assert(all =~= first + users_of(ledger.uses@.take(i as int), was_printed()));
    }
    assert(ledger.uses@.take(i as int) =~= ledger.uses@);
    ids
}

pub open spec fn as_person(uses: Seq<Use>, prints: Seq<Print>) -> spec_fn(i64) -> Person {
    |id: i64| person_of(uses, prints, id)
}

/// Everyone who printed, with most filament first.
pub open spec fn people_of(uses: Seq<Use>, prints: Seq<Print>) -> Seq<Person> {
    order::sorted(
        everyone(uses, prints).map_values(as_person(uses, prints)),
        most_first(),
    )
}

fn find_people(ledger: &Ledger) -> (r: Vec<Person>)
    requires
        values_fit(ledger.uses@),
    ensures
        r@ == people_of(ledger.uses@, ledger.prints@),
{
    let ids = find_everyone(ledger);
    let mut people: Vec<Person> = Vec::new();
    let mut i: usize = 0;
    while i < ids.len()
        invariant
            i <= ids@.len(),
            values_fit(ledger.uses@),
            people@.len() == i,
            forall|k: int|
                0 <= k < i ==> people@[k] == person_of(ledger.uses@, ledger.prints@, ids@[k]),
        decreases ids.len() - i,
    {
        people.push(find_person(ledger, ids[i]));
        i += 1;
    }
    assert(people@ =~= ids@.map_values(
        as_person(ledger.uses@, ledger.prints@),
    ));
    let before = |a: &Person, b: &Person| -> (r: bool)
        ensures
            r == most_first()(*a, *b),
        {
            if a.total_mg != b.total_mg {
                b.total_mg < a.total_mg
            } else if a.prints() != b.prints() {
                b.prints() < a.prints()
            } else {
                a.user_id <= b.user_id
            }
        };
    order::sort_by(people, before, Ghost(most_first()))
}

// ---------------------------------------------------------------------------------------------
// Whose filament
// ---------------------------------------------------------------------------------------------

/// What one person used of one owner's filament.
#[derive(Debug, Clone, Copy, PartialEq, Eq, Structural)]
pub struct Pair {
    pub user_id: i64,
    /// `None` for shared spools.
    pub owner_id: Option<i64>,
    pub mg: i128,
    /// `None` when none of the spools had a price.
    pub value: Option<i128>,
}

/// What weigh-ins found missing from one owner's spools, beyond what prints recorded. Negative
/// when they found more than recorded.
#[derive(Debug, Clone, Copy, PartialEq, Eq, Structural)]
pub struct Unaccounted {
    pub owner_id: Option<i64>,
    pub mg: i128,
    pub value: Option<i128>,
}

pub open spec fn used_of(user_id: i64, owner_id: Option<i64>) -> spec_fn(Use) -> bool {
    |entry: Use|
        entry.origin() is Some && entry.user_id == Some(user_id) && entry.owner_id == owner_id
}

pub open spec fn weighed_of(owner_id: Option<i64>) -> spec_fn(Use) -> bool {
    |entry: Use| entry.kind == ConsumptionKind::WeighIn && entry.owner_id == owner_id
}

/// Who used whose filament, entry by entry.
pub open spec fn uses_between(uses: Seq<Use>) -> Seq<(i64, Option<i64>)>
    decreases uses.len(),
{
    if uses.len() == 0 {
        seq![]
    } else {
        let before = uses_between(uses.drop_last());
        if uses.last().origin() is Some {
            before.push((uses.last().user_id->0, uses.last().owner_id))
        } else {
            before
        }
    }
}

/// Whose spools were weighed, entry by entry.
pub open spec fn weighed(uses: Seq<Use>) -> Seq<Option<i64>>
    decreases uses.len(),
{
    if uses.len() == 0 {
        seq![]
    } else {
        let before = weighed(uses.drop_last());
        if uses.last().kind == ConsumptionKind::WeighIn {
            before.push(uses.last().owner_id)
        } else {
            before
        }
    }
}

pub open spec fn as_value(value: Option<int>) -> Option<i128> {
    match value {
        Some(value) => Some(value as i128),
        None => None,
    }
}

pub open spec fn pair_of(uses: Seq<Use>, user_id: i64, owner_id: Option<i64>) -> Pair {
    Pair {
        user_id,
        owner_id,
        mg: total_mg(uses, used_of(user_id, owner_id)) as i128,
        value: as_value(total_value(uses, used_of(user_id, owner_id))),
    }
}

pub open spec fn unaccounted_of(uses: Seq<Use>, owner_id: Option<i64>) -> Unaccounted {
    Unaccounted {
        owner_id,
        mg: total_mg(uses, weighed_of(owner_id)) as i128,
        value: as_value(total_value(uses, weighed_of(owner_id))),
    }
}

/// By owner, with shared spools last.
pub open spec fn owner_at_or_before(a: Option<i64>, b: Option<i64>) -> bool {
    match (a, b) {
        (Some(x), Some(y)) => x <= y,
        (Some(_), None) => true,
        (None, Some(_)) => false,
        (None, None) => true,
    }
}

pub open spec fn pair_order() -> spec_fn(Pair, Pair) -> bool {
    |a: Pair, b: Pair|
        a.user_id < b.user_id || a.user_id == b.user_id && owner_at_or_before(
            a.owner_id,
            b.owner_id,
        )
}

pub open spec fn unaccounted_order() -> spec_fn(Unaccounted, Unaccounted) -> bool {
    |a: Unaccounted, b: Unaccounted| owner_at_or_before(a.owner_id, b.owner_id)
}

/// By user, then owner, with shared spools last.
pub open spec fn pairs_of(uses: Seq<Use>) -> Seq<Pair> {
    order::sorted(
        lists::first_seen(uses_between(uses)).map_values(
            |key: (i64, Option<i64>)| pair_of(uses, key.0, key.1),
        ),
        pair_order(),
    )
}

pub open spec fn unaccounted_in(uses: Seq<Use>) -> Seq<Unaccounted> {
    order::sorted(
        lists::first_seen(weighed(uses)).map_values(
            |owner: Option<i64>| unaccounted_of(uses, owner),
        ),
        unaccounted_order(),
    )
}

fn owner_first(a: Option<i64>, b: Option<i64>) -> (r: bool)
    ensures
        r == owner_at_or_before(a, b),
{
    match (a, b) {
        (Some(x), Some(y)) => x <= y,
        (Some(_), None) => true,
        (None, Some(_)) => false,
        (None, None) => true,
    }
}

fn same_owner(a: Option<i64>, b: Option<i64>) -> (r: bool)
    ensures
        r == (a == b),
{
    match (a, b) {
        (Some(x), Some(y)) => x == y,
        (None, None) => true,
        _ => false,
    }
}

fn find_pairs(uses: &Vec<Use>) -> (r: Vec<Pair>)
    requires
        values_fit(uses@),
    ensures
        r@ == pairs_of(uses@),
{
    let mut keys: Vec<(i64, Option<i64>)> = Vec::new();
    let mut i: usize = 0;
    while i < uses.len()
        invariant
            i <= uses@.len(),
            keys@ == lists::first_seen(uses_between(uses@.take(i as int))),
        decreases uses.len() - i,
    {
        let ghost before = uses_between(uses@.take(i as int));
        assert(uses@.take(i + 1).drop_last() =~= uses@.take(i as int));
        if uses[i].whose().is_some() {
            if let Some(user) = uses[i].user_id {
                let owner = uses[i].owner_id;
                proof {
                    assert(before.push((user, owner)).drop_last() =~= before);
                }
                let mut known = false;
                let mut k: usize = 0;
                while k < keys.len() && !known
                    invariant
                        k <= keys@.len(),
                        known ==> keys@.contains((user, owner)),
                        !known ==> forall|m: int| 0 <= m < k ==> keys@[m] != (user, owner),
                    decreases keys.len() - k,
                {
                    if keys[k].0 == user && same_owner(keys[k].1, owner) {
                        known = true;
                        assert(keys@[k as int] == (user, owner));
                    }
                    k += 1;
                }
                if !known {
                    keys.push((user, owner));
                }
            }
        }
        i += 1;
    }
    assert(uses@.take(i as int) =~= uses@);
    let mut pairs: Vec<Pair> = Vec::new();
    let mut i: usize = 0;
    while i < keys.len()
        invariant
            i <= keys@.len(),
            values_fit(uses@),
            pairs@.len() == i,
            forall|k: int| 0 <= k < i ==> pairs@[k] == pair_of(uses@, keys@[k].0, keys@[k].1),
        decreases keys.len() - i,
    {
        let (user_id, owner_id) = keys[i];
        let ghost p = used_of(user_id, owner_id);
        let pick = |k: usize| -> (b: bool)
            requires
                k < uses@.len(),
            ensures
                b == p(uses@[k as int]),
            {
                uses[k].whose().is_some() && same_owner(uses[k].owner_id, owner_id) && same_owner(
                    uses[k].user_id,
                    Some(user_id),
                )
            };
        let mg: i128 = sum_mg(uses, pick, Ghost(p));
        let value = sum_value(uses, pick, Ghost(p));
        pairs.push(Pair { user_id, owner_id, mg, value });
        i += 1;
    }
    assert(pairs@ =~= keys@.map_values(
        |key: (i64, Option<i64>)| pair_of(uses@, key.0, key.1),
    ));
    let before = |a: &Pair, b: &Pair| -> (r: bool)
        ensures
            r == pair_order()(*a, *b),
        { a.user_id < b.user_id || (a.user_id == b.user_id && owner_first(a.owner_id, b.owner_id)) };
    order::sort_by(pairs, before, Ghost(pair_order()))
}

fn find_unaccounted(uses: &Vec<Use>) -> (r: Vec<Unaccounted>)
    requires
        values_fit(uses@),
    ensures
        r@ == unaccounted_in(uses@),
{
    let mut owners: Vec<Option<i64>> = Vec::new();
    let mut i: usize = 0;
    while i < uses.len()
        invariant
            i <= uses@.len(),
            owners@ == lists::first_seen(weighed(uses@.take(i as int))),
        decreases uses.len() - i,
    {
        let ghost before = weighed(uses@.take(i as int));
        assert(uses@.take(i + 1).drop_last() =~= uses@.take(i as int));
        if uses[i].kind == ConsumptionKind::WeighIn {
            let owner = uses[i].owner_id;
            proof {
                assert(before.push(owner).drop_last() =~= before);
            }
            let mut known = false;
            let mut k: usize = 0;
            while k < owners.len() && !known
                invariant
                    k <= owners@.len(),
                    known ==> owners@.contains(owner),
                    !known ==> forall|m: int| 0 <= m < k ==> owners@[m] != owner,
                decreases owners.len() - k,
            {
                if same_owner(owners[k], owner) {
                    known = true;
                    assert(owners@[k as int] == owner);
                }
                k += 1;
            }
            if !known {
                owners.push(owner);
            }
        }
        i += 1;
    }
    assert(uses@.take(i as int) =~= uses@);
    let mut out: Vec<Unaccounted> = Vec::new();
    let mut i: usize = 0;
    while i < owners.len()
        invariant
            i <= owners@.len(),
            values_fit(uses@),
            out@.len() == i,
            forall|k: int| 0 <= k < i ==> out@[k] == unaccounted_of(uses@, owners@[k]),
        decreases owners.len() - i,
    {
        let owner_id = owners[i];
        let ghost p = weighed_of(owner_id);
        let pick = |k: usize| -> (b: bool)
            requires
                k < uses@.len(),
            ensures
                b == p(uses@[k as int]),
            { uses[k].kind == ConsumptionKind::WeighIn && same_owner(uses[k].owner_id, owner_id) };
        let mg: i128 = sum_mg(uses, pick, Ghost(p));
        let value = sum_value(uses, pick, Ghost(p));
        out.push(Unaccounted { owner_id, mg, value });
        i += 1;
    }
    assert(out@ =~= owners@.map_values(|owner: Option<i64>| unaccounted_of(uses@, owner)));
    let before = |a: &Unaccounted, b: &Unaccounted| -> (r: bool)
        ensures
            r == unaccounted_order()(*a, *b),
        { owner_first(a.owner_id, b.owner_id) };
    order::sort_by(out, before, Ghost(unaccounted_order()))
}

// ---------------------------------------------------------------------------------------------
// Materials
// ---------------------------------------------------------------------------------------------

/// A material without white space around it and without regard to the case of its letters.
pub open spec fn material_key(material: Seq<char>) -> Seq<char> {
    text::lower(text::trim(material))
}

pub open spec fn of_material(key: Seq<char>) -> spec_fn(Use) -> bool {
    |entry: Use| entry.origin() is Some && material_key(entry.material@) == key
}

pub open spec fn is_named(names: Seq<Seq<char>>, key: Seq<char>) -> bool {
    exists|i: int| 0 <= i < names.len() && text::lower(#[trigger] names[i]) == key
}

/// The materials that were printed, each in the first spelling seen.
pub open spec fn material_names(uses: Seq<Use>) -> Seq<Seq<char>>
    decreases uses.len(),
{
    if uses.len() == 0 {
        seq![]
    } else {
        let before = material_names(uses.drop_last());
        let name = text::trim(uses.last().material@);
        if uses.last().origin() is Some && !is_named(before, text::lower(name)) {
            before.push(name)
        } else {
            before
        }
    }
}

/// Most filament first, then by name.
pub open spec fn material_order() -> spec_fn((Seq<char>, i128), (Seq<char>, i128)) -> bool {
    |a: (Seq<char>, i128), b: (Seq<char>, i128)|
        b.1 < a.1 || b.1 == a.1 && text::at_or_before(a.0, b.0)
}

/// Most filament first; names compare case-insensitively and keep the first spelling seen.
pub open spec fn materials_of(uses: Seq<Use>) -> Seq<(Seq<char>, i128)> {
    order::sorted(
        material_names(uses).map_values(
            |name: Seq<char>| (name, total_mg(uses, of_material(text::lower(name))) as i128),
        ),
        material_order(),
    )
}

/// A material and its weight, by the text of its name.
pub open spec fn by_text() -> spec_fn((String, i128)) -> (Seq<char>, i128) {
    |material: (String, i128)| (material.0@, material.1)
}

fn find_names(uses: &Vec<Use>) -> (r: Vec<String>)
    ensures
        text::views(r@) == material_names(uses@),
{
    let mut names: Vec<String> = Vec::new();
    let mut i: usize = 0;
    assert(text::views(names@) =~= seq![]);
    while i < uses.len()
        invariant
            i <= uses@.len(),
            text::views(names@) == material_names(uses@.take(i as int)),
        decreases uses.len() - i,
    {
        let ghost known = material_names(uses@.take(i as int));
        assert(uses@.take(i + 1).drop_last() =~= uses@.take(i as int));
        if uses[i].whose().is_some() {
            let name = text::trim_str(uses[i].material.as_str());
            let chars = text::chars(name.as_str());
            let mut found = false;
            let mut k: usize = 0;
            while k < names.len() && !found
                invariant
                    k <= names@.len(),
                    chars@ == name@,
                    known == text::views(names@),
                    found ==> is_named(known, text::lower(name@)),
                    !found ==> forall|m: int|
                        0 <= m < k ==> text::lower(#[trigger] known[m]) != text::lower(name@),
                decreases names.len() - k,
            {
                let held = text::chars(names[k].as_str());
                assert(known[k as int] == names@[k as int]@);
                if text::same_ignoring_case(held.as_slice(), chars.as_slice()) {
                    found = true;
                }
                k += 1;
            }
            if !found {
                names.push(name);
                assert(text::views(names@) =~= known.push(name@));
            }
        }
        i += 1;
    }
    assert(uses@.take(i as int) =~= uses@);
    names
}

fn find_materials(uses: &Vec<Use>) -> (r: Vec<(String, i128)>)
    ensures
        r@.map_values(by_text()) == materials_of(uses@),
{
    let names = find_names(uses);
    let ghost all = names@;
    let mut out: Vec<(String, i128)> = Vec::new();
    for name in it: names
        invariant
            it.seq() == all,
            out@.len() == it.index(),
            forall|k: int|
                0 <= k < it.index() ==> (#[trigger] out@[k]).0@ == all[k]@ && out@[k].1 == total_mg(
                    uses@,
                    of_material(text::lower(all[k]@)),
                ) as i128,
    {
        let key = text::lower_chars(text::chars(name.as_str()).as_slice());
        let ghost p = of_material(text::lower(name@));
        let pick = |k: usize| -> (b: bool)
            requires
                k < uses@.len(),
            ensures
                b == p(uses@[k as int]),
            {
                let material = text::chars(uses[k].material.as_str());
                let lower = text::lower_chars(text::trimmed(material.as_slice()));
                uses[k].whose().is_some() && text::slices_equal(lower.as_slice(), key.as_slice())
            };
        let mg: i128 = sum_mg(uses, pick, Ghost(p));
        out.push((name, mg));
    }
    let ghost le = |a: (String, i128), b: (String, i128)|
        material_order()((a.0@, a.1), (b.0@, b.1));
    let before = |a: &(String, i128), b: &(String, i128)| -> (r: bool)
        ensures
            r == le(*a, *b),
        {
            b.1 < a.1 || (b.1 == a.1 && text::slice_at_or_before(
                text::chars(a.0.as_str()).as_slice(),
                text::chars(b.0.as_str()).as_slice(),
            ))
        };
    let ghost unsorted = out@;
    let out = order::sort_by(out, before, Ghost(le));
    proof {
        order::sorting_a_view(unsorted, le, by_text(), material_order());
        assert(unsorted.map_values(by_text()) =~= material_names(uses@).map_values(
            |name: Seq<char>| (name, total_mg(uses@, of_material(text::lower(name))) as i128),
        )) by {
            assert(text::views(all) == material_names(uses@));
            assert forall|k: int| 0 <= k < unsorted.len() implies material_names(uses@)[k]
                == all[k]@ by {
                assert(text::views(all)[k] == all[k]@);
            }
        }
    }
    out
}

// ---------------------------------------------------------------------------------------------
// Buckets
// ---------------------------------------------------------------------------------------------

#[derive(Debug, PartialEq, Eq)]
pub struct Bucket {
    /// The day, or the first of the month.
    pub start: Date,
    /// Weights by user, by ascending id.
    pub by_user: Vec<(i64, i128)>,
    /// Indexed in [`Whose::ALL`] order.
    pub by_whose: [i128; 3],
}

impl Bucket {
    pub fn whose(&self, whose: Whose) -> (r: i128)
        ensures
            r == self.by_whose@[whose.place()],
    {
        self.by_whose[whose.index()]
    }
}

pub open spec fn used_in(zone: Zone, steps: Granularity, start: Date) -> spec_fn(Use) -> bool {
    |entry: Use| entry.origin() is Some && steps.from(zone.date_at(entry.at as int)) == start
}

pub open spec fn used_in_by(zone: Zone, steps: Granularity, start: Date, user_id: i64) -> spec_fn(
    Use,
) -> bool {
    |entry: Use|
        entry.origin() is Some && steps.from(zone.date_at(entry.at as int)) == start
            && entry.user_id == Some(user_id)
}

pub open spec fn used_in_from(zone: Zone, steps: Granularity, start: Date, whose: Whose) -> spec_fn(
    Use,
) -> bool {
    |entry: Use|
        steps.from(zone.date_at(entry.at as int)) == start && entry.origin() == Some(whose)
}

pub open spec fn ascending() -> spec_fn(i64, i64) -> bool {
    |a: i64, b: i64| a <= b
}

impl Bucket {
    /// What was used in the step that starts at `start`, by user and by whose it was.
    pub open spec fn holds(self, uses: Seq<Use>, zone: Zone, steps: Granularity, start: Date) -> bool {
        &&& self.start == start
        &&& self.by_user@ == order::sorted(
            lists::first_seen(users_of(uses, used_in(zone, steps, start))),
            ascending(),
        ).map_values(
            |id: i64| (id, total_mg(uses, used_in_by(zone, steps, start, id)) as i128),
        )
        &&& self.by_whose@[0] == total_mg(uses, used_in_from(zone, steps, start, Whose::Own))
        &&& self.by_whose@[1] == total_mg(uses, used_in_from(zone, steps, start, Whose::Shared))
        &&& self.by_whose@[2] == total_mg(uses, used_in_from(zone, steps, start, Whose::Others))
    }
}

impl Bucket {
    /// The bucket of the step `i` steps after the first, which starts by the last date.
    pub open spec fn is_nth(
        self,
        uses: Seq<Use>,
        zone: Zone,
        steps: Granularity,
        first: Date,
        last: Date,
        i: int,
    ) -> bool {
        match steps.nth(first, i as nat) {
            Some(start) => start.at_or_before(last) && self.holds(uses, zone, steps, start),
            None => false,
        }
    }
}

fn fill_bucket(
    uses: &Vec<Use>,
    days: &Vec<Date>,
    start: Date,
    zone: &Zone,
    steps: Granularity,
) -> (r: Bucket)
    requires
        days@.len() == uses@.len(),
        forall|i: int|
            0 <= i < uses@.len() ==> #[trigger] days@[i] == steps.from(
                zone.date_at(uses@[i].at as int),
            ),
    ensures
        r.holds(uses@, *zone, steps, start),
{
    let ghost inside = used_in(*zone, steps, start);
    let mut ids: Vec<i64> = Vec::new();
    let ghost mut all: Seq<i64> = seq![];
    let mut i: usize = 0;
    while i < uses.len()
        invariant
            i <= uses@.len(),
            days@.len() == uses@.len(),
            forall|i: int|
                0 <= i < uses@.len() ==> #[trigger] days@[i] == steps.from(
                    zone.date_at(uses@[i].at as int),
                ),
            inside == used_in(*zone, steps, start),
            all == users_of(uses@.take(i as int), inside),
            ids@ == lists::first_seen(all),
        decreases uses.len() - i,
    {
        assert(uses@.take(i + 1).drop_last() =~= uses@.take(i as int));
        if days[i] == start && uses[i].whose().is_some() {
            if let Some(user) = uses[i].user_id {
                add_id(&mut ids, user, Ghost(all));
                proof {
                    all = all.push(user);
                }
            }
        }
        i += 1;
    }
    assert(uses@.take(i as int) =~= uses@);
    let before = |a: &i64, b: &i64| -> (r: bool)
        ensures
            r == ascending()(*a, *b),
        { *a <= *b };
    let ids = order::sort_by(ids, before, Ghost(ascending()));
    let mut by_user: Vec<(i64, i128)> = Vec::new();
    let mut i: usize = 0;
    while i < ids.len()
        invariant
            i <= ids@.len(),
            days@.len() == uses@.len(),
            forall|i: int|
                0 <= i < uses@.len() ==> #[trigger] days@[i] == steps.from(
                    zone.date_at(uses@[i].at as int),
                ),
            by_user@.len() == i,
            forall|k: int|
                0 <= k < i ==> #[trigger] by_user@[k] == (
                    ids@[k],
                    total_mg(uses@, used_in_by(*zone, steps, start, ids@[k])) as i128,
                ),
        decreases ids.len() - i,
    {
        let id: i64 = ids[i];
        let ghost p = used_in_by(*zone, steps, start, id);
        let ghost day_of = |entry: Use| steps.from(zone.date_at(entry.at as int));
        let pick = |k: usize| -> (b: bool)
            requires
                k < uses@.len(),
                k < days@.len(),
                days@[k as int] == day_of(uses@[k as int]),
            ensures
                b == p(uses@[k as int]),
            {
                days[k] == start && uses[k].whose().is_some() && same_owner(
                    uses[k].user_id,
                    Some(id),
                )
            };
        let mg: i128 = sum_mg(uses, pick, Ghost(p));
        by_user.push((id, mg));
        i += 1;
    }
    assert(by_user@ =~= ids@.map_values(
        |id: i64| (id, total_mg(uses@, used_in_by(*zone, steps, start, id)) as i128),
    ));
    let own = sum_whose(uses, days, start, Whose::Own, zone, steps);
    let shared = sum_whose(uses, days, start, Whose::Shared, zone, steps);
    let others = sum_whose(uses, days, start, Whose::Others, zone, steps);
    Bucket { start, by_user, by_whose: [own, shared, others] }
}

fn sum_whose(
    uses: &Vec<Use>,
    days: &Vec<Date>,
    start: Date,
    whose: Whose,
    zone: &Zone,
    steps: Granularity,
) -> (r: i128)
    requires
        days@.len() == uses@.len(),
        forall|i: int|
            0 <= i < uses@.len() ==> #[trigger] days@[i] == steps.from(
                zone.date_at(uses@[i].at as int),
            ),
    ensures
        r == total_mg(uses@, used_in_from(*zone, steps, start, whose)),
{
    let ghost p = used_in_from(*zone, steps, start, whose);
    let ghost day_of = |entry: Use| steps.from(zone.date_at(entry.at as int));
    let pick = |k: usize| -> (b: bool)
        requires
            k < uses@.len(),
            k < days@.len(),
            days@[k as int] == day_of(uses@[k as int]),
        ensures
            b == p(uses@[k as int]),
        {
            days[k] == start && match uses[k].whose() {
                Some(origin) => origin == whose,
                None => false,
            }
        };
    sum_mg(uses, pick, Ghost(p))
}

/// The first instant of the ledger, or `now` where it is empty.
pub open spec fn first_instant(uses: Seq<Use>, prints: Seq<Print>, now: i64) -> i64 {
    match earliest(uses, prints) {
        Some(at) => at,
        None => now,
    }
}

pub open spec fn earliest_use(uses: Seq<Use>) -> Option<i64>
    decreases uses.len(),
{
    if uses.len() == 0 {
        None
    } else {
        crate::schedule::earlier(earliest_use(uses.drop_last()), Some(uses.last().at))
    }
}

pub open spec fn earliest_print(prints: Seq<Print>) -> Option<i64>
    decreases prints.len(),
{
    if prints.len() == 0 {
        None
    } else {
        crate::schedule::earlier(
            earliest_print(prints.drop_last()),
            Some(prints.last().finished_at),
        )
    }
}

pub open spec fn earliest(uses: Seq<Use>, prints: Seq<Print>) -> Option<i64> {
    crate::schedule::earlier(earliest_use(uses), earliest_print(prints))
}

fn find_first_instant(ledger: &Ledger, now: i64) -> (r: i64)
    ensures
        r == first_instant(ledger.uses@, ledger.prints@, now),
{
    let mut first_use: Option<i64> = None;
    let mut i: usize = 0;
    while i < ledger.uses.len()
        invariant
            i <= ledger.uses@.len(),
            first_use == earliest_use(ledger.uses@.take(i as int)),
        decreases ledger.uses.len() - i,
    {
        assert(ledger.uses@.take(i + 1).drop_last() =~= ledger.uses@.take(i as int));
        let at: i64 = ledger.uses[i].at;
        first_use = match first_use {
            Some(first) => Some(
                if at < first {
                    at
                } else {
                    first
                },
            ),
            None => Some(at),
        };
        i += 1;
    }
    assert(ledger.uses@.take(i as int) =~= ledger.uses@);
    let mut first_print: Option<i64> = None;
    let mut i: usize = 0;
    while i < ledger.prints.len()
        invariant
            i <= ledger.prints@.len(),
            first_print == earliest_print(ledger.prints@.take(i as int)),
        decreases ledger.prints.len() - i,
    {
        assert(ledger.prints@.take(i + 1).drop_last() =~= ledger.prints@.take(i as int));
        let at: i64 = ledger.prints[i].finished_at;
        first_print = match first_print {
            Some(first) => Some(
                if at < first {
                    at
                } else {
                    first
                },
            ),
            None => Some(at),
        };
        i += 1;
    }
    assert(ledger.prints@.take(i as int) =~= ledger.prints@);
    match (first_use, first_print) {
        (Some(a), Some(b)) => if b < a {
            b
        } else {
            a
        },
        (Some(a), None) => a,
        (None, Some(b)) => b,
        (None, None) => now,
    }
}

// ---------------------------------------------------------------------------------------------
// The summary
// ---------------------------------------------------------------------------------------------

#[derive(Debug, PartialEq, Eq)]
pub struct Summary {
    /// Most filament first.
    pub people: Vec<Person>,
    /// By user, then owner, with shared spools last.
    pub pairs: Vec<Pair>,
    /// Most filament first; names compare case-insensitively and keep the first spelling seen.
    pub materials: Vec<(String, i128)>,
    pub unaccounted: Vec<Unaccounted>,
    /// Consecutive, from the period's start (or the first entry, for all time) to `now`.
    pub buckets: Vec<Bucket>,
    pub granularity: Granularity,
}

impl Summary {
    /// The buckets follow one another from the first to the last that starts by the given date,
    /// and each holds what was used in it.
    pub open spec fn buckets_cover(
        self,
        uses: Seq<Use>,
        zone: Zone,
        steps: Granularity,
        first: Date,
        last: Date,
    ) -> bool {
        &&& forall|i: int|
            0 <= i < self.buckets@.len() ==> (#[trigger] self.buckets@[i]).is_nth(
                uses,
                zone,
                steps,
                first,
                last,
                i,
            )
        &&& steps.nth(first, self.buckets@.len()) matches Some(next) ==> !next.at_or_before(last)
    }
}

/// The day or month in which the period starts.
pub open spec fn first_step(ledger: Ledger, period: Period, since: i64, now: i64, zone: Zone) -> Date {
    let first = if since > 0 {
        since
    } else {
        first_instant(ledger.uses@, ledger.prints@, now)
    };
    period.steps().from(zone.date_at(first as int))
}

pub fn summarize(ledger: &Ledger, period: Period, since: i64, now: i64, zone: &Zone) -> (r: Summary)
    requires
        values_fit(ledger.uses@),
    ensures
        r.people@ == people_of(ledger.uses@, ledger.prints@),
        r.pairs@ == pairs_of(ledger.uses@),
        r.materials@.map_values(by_text()) == materials_of(ledger.uses@),
        r.unaccounted@ == unaccounted_in(ledger.uses@),
        r.granularity == period.steps(),
        r.buckets_cover(
            ledger.uses@,
            *zone,
            period.steps(),
            first_step(*ledger, period, since, now, *zone),
            zone.date_at(now as int),
        ),
{
    let granularity = period.granularity();
    let first: i64 = if since > 0 {
        since
    } else {
        find_first_instant(ledger, now)
    };
    let last = local_date(now, zone);
    let first = granularity.start(local_date(first, zone));
    assert(first == first_step(*ledger, period, since, now, *zone));
    let uses = &ledger.uses;
    let mut days: Vec<Date> = Vec::new();
    let mut i: usize = 0;
    while i < uses.len()
        invariant
            i <= uses@.len(),
            days@.len() == i,
            forall|k: int|
                0 <= k < i ==> #[trigger] days@[k] == granularity.from(
                    zone.date_at(uses@[k].at as int),
                ),
        decreases uses.len() - i,
    {
        days.push(granularity.start(local_date(uses[i].at, zone)));
        i += 1;
    }
    let mut buckets: Vec<Bucket> = Vec::new();
    let mut date = first;
    let mut more = true;
    while more && date.is_at_or_before(last)
        invariant
            uses@ == ledger.uses@,
            days@.len() == uses@.len(),
            forall|k: int|
                0 <= k < uses@.len() ==> #[trigger] days@[k] == granularity.from(
                    zone.date_at(uses@[k].at as int),
                ),
            more ==> granularity.nth(first, buckets@.len()) == Some(date) && date.valid(),
            !more ==> granularity.nth(first, buckets@.len()) is None,
            last.valid(),
            forall|i: int|
                0 <= i < buckets@.len() ==> (#[trigger] buckets@[i]).is_nth(
                    uses@,
                    *zone,
                    granularity,
                    first,
                    last,
                    i,
                ),
        decreases
                (if more && date.at_or_before(last) {
                    last.epoch_day() - date.epoch_day() + 1
                } else {
                    0
                }),
    {
        proof {
            calendar::dates_order_as_their_days(date, last);
        }
        let ghost before = buckets@;
        let bucket = fill_bucket(uses, &days, date, zone, granularity);
        buckets.push(bucket);
        assert forall|i: int| 0 <= i < buckets@.len() implies (#[trigger] buckets@[i]).is_nth(
            uses@,
            *zone,
            granularity,
            first,
            last,
            i,
        ) by {
            if i < before.len() {
                assert(buckets@[i] == before[i]);
            }
        }
        match granularity.next(date) {
            Some(next) => {
                proof {
                    calendar::dates_order_as_their_days(next, last);
                }
                date = next;
            },
            None => {
                more = false;
            },
        }
    }
    Summary {
        people: find_people(ledger),
        pairs: find_pairs(uses),
        materials: find_materials(uses),
        unaccounted: find_unaccounted(uses),
        buckets,
        granularity,
    }
}

/// What a person used is their own, shared or someone else's, and nothing of it is counted
/// twice.
pub proof fn filament_is_split_by_whose_it_was(uses: Seq<Use>, user_id: i64)
    ensures
        total_mg(uses, used_from(user_id, Whose::Own)) + total_mg(
            uses,
            used_from(user_id, Whose::Shared),
        ) + total_mg(uses, used_from(user_id, Whose::Others)) == total_mg(
            uses,
            printed_by_user(user_id),
        ),
    decreases uses.len(),
{
    if uses.len() > 0 {
        filament_is_split_by_whose_it_was(uses.drop_last(), user_id);
    }
}

/// Everyone who printed is listed once, and nobody before someone who used more.
pub proof fn everyone_is_listed_once(uses: Seq<Use>, prints: Seq<Print>)
    ensures
        people_of(uses, prints).to_multiset() == everyone(uses, prints).map_values(
            as_person(uses, prints),
        ).to_multiset(),
        forall|i: int, j: int|
            0 <= i < j < everyone(uses, prints).len() ==> #[trigger] everyone(uses, prints)[i]
                != #[trigger] everyone(uses, prints)[j],
        order::is_sorted(people_of(uses, prints), most_first()),
        forall|id: i64|
            #[trigger] everyone(uses, prints).contains(id) <==> printers(prints).contains(id)
                || users_of(uses, was_printed()).contains(id),
{
    let all = printers(prints) + users_of(uses, was_printed());
    lists::first_seen_keeps_each_item_once(all, 0);
    order::sorting_keeps_every_item(
        everyone(uses, prints).map_values(as_person(uses, prints)),
        most_first(),
    );
    order::sorting_sorts(
        everyone(uses, prints).map_values(as_person(uses, prints)),
        most_first(),
    );
    assert forall|id: i64| #[trigger] everyone(uses, prints).contains(id) <==> printers(
        prints,
    ).contains(id) || users_of(uses, was_printed()).contains(id) by {
        lists::first_seen_keeps_each_item_once(all, id);
        let a = printers(prints);
        let b = users_of(uses, was_printed());
        if all.contains(id) {
            let i = choose|i: int| 0 <= i < all.len() && all[i] == id;
            if i < a.len() {
                assert(a[i] == id);
            } else {
                assert(b[i - a.len()] == id);
            }
        }
        if a.contains(id) {
            let i = choose|i: int| 0 <= i < a.len() && a[i] == id;
            assert(all[i] == id);
        }
        if b.contains(id) {
            let i = choose|i: int| 0 <= i < b.len() && b[i] == id;
            assert(all[a.len() + i] == id);
        }
    }
}

// ---------------------------------------------------------------------------------------------
// Debts
// ---------------------------------------------------------------------------------------------

/// A payment between two people.
#[derive(Debug, PartialEq, Eq)]
pub struct Settlement {
    pub id: i64,
    pub from: (i64, String),
    pub to: (i64, String),
    pub amount_cents: i64,
    pub recorded_by: Option<String>,
    pub created_at: i64,
}

impl Clone for Settlement {
    fn clone(&self) -> (r: Self)
        ensures
            r == *self,
    {
        Settlement {
            id: self.id,
            from: (self.from.0, self.from.1.clone()),
            to: (self.to.0, self.to.1.clone()),
            amount_cents: self.amount_cents,
            recorded_by: match &self.recorded_by {
                Some(name) => Some(name.clone()),
                None => None,
            },
            created_at: self.created_at,
        }
    }
}

#[derive(Debug, Clone, Copy, PartialEq, Eq, Structural)]
pub struct Debt {
    pub debtor: i64,
    pub creditor: i64,
    pub cents: i64,
}

/// What one debt of `debtor` to `creditor` adds to what `low` owes `high`.
pub open spec fn adds(debtor: i64, creditor: i64, amount: int, low: i64, high: i64) -> int {
    if debtor == low && creditor == high {
        amount
    } else if debtor == high && creditor == low {
        -amount
    } else {
        0
    }
}

/// What `low` owes `high` for filament.
pub open spec fn owed_between(owed: Seq<(i64, i64, i128)>, low: i64, high: i64) -> int
    decreases owed.len(),
{
    if owed.len() == 0 {
        0
    } else {
        let (user, owner, value) = owed.last();
        owed_between(owed.drop_last(), low, high) + adds(user, owner, value as int, low, high)
    }
}

/// What `low` has paid `high`.
pub open spec fn paid_between(paid: Seq<Settlement>, low: i64, high: i64) -> int
    decreases paid.len(),
{
    if paid.len() == 0 {
        0
    } else {
        let payment = paid.last();
        paid_between(paid.drop_last(), low, high) + adds(
            payment.from.0,
            payment.to.0,
            payment.amount_cents * 1000,
            low,
            high,
        )
    }
}

/// What `low` still owes `high`, in thousandths of a cent; negative when `high` owes `low`.
pub open spec fn net(owed: Seq<(i64, i64, i128)>, paid: Seq<Settlement>, low: i64, high: i64) -> int {
    owed_between(owed, low, high) - paid_between(paid, low, high)
}

/// Two people, the lower id first.
pub open spec fn pair_key(a: i64, b: i64) -> (i64, i64) {
    if a < b {
        (a, b)
    } else {
        (b, a)
    }
}

/// The pairs of different people between whom anything was used or paid.
pub open spec fn owing_pairs(owed: Seq<(i64, i64, i128)>) -> Seq<(i64, i64)>
    decreases owed.len(),
{
    if owed.len() == 0 {
        seq![]
    } else {
        let before = owing_pairs(owed.drop_last());
        let (user, owner, _) = owed.last();
        if user != owner {
            before.push(pair_key(user, owner))
        } else {
            before
        }
    }
}

pub open spec fn paying_pairs(paid: Seq<Settlement>) -> Seq<(i64, i64)>
    decreases paid.len(),
{
    if paid.len() == 0 {
        seq![]
    } else {
        let before = paying_pairs(paid.drop_last());
        let payment = paid.last();
        if payment.from.0 != payment.to.0 {
            before.push(pair_key(payment.from.0, payment.to.0))
        } else {
            before
        }
    }
}

pub open spec fn key_order() -> spec_fn((i64, i64), (i64, i64)) -> bool {
    |a: (i64, i64), b: (i64, i64)| a.0 < b.0 || a.0 == b.0 && a.1 <= b.1
}

/// The pairs, each once, by the lower id and then the higher.
pub open spec fn pairs_between(owed: Seq<(i64, i64, i128)>, paid: Seq<Settlement>) -> Seq<
    (i64, i64),
> {
    order::sorted(lists::first_seen(owing_pairs(owed) + paying_pairs(paid)), key_order())
}

/// The whole number of cents nearest to an amount in thousandths, as far as 64 bits hold it.
pub open spec fn whole_cents(amount: int) -> int {
    let cents = num::rounded(amount, 1000);
    if cents > i64::MAX {
        i64::MAX as int
    } else if cents < -i64::MAX {
        -i64::MAX
    } else {
        cents
    }
}

/// What is left between two people, in whole cents, if it is not nothing.
pub open spec fn debt_between(amount: int, low: i64, high: i64) -> Option<Debt> {
    let cents = whole_cents(amount);
    if cents > 0 {
        Some(Debt { debtor: low, creditor: high, cents: cents as i64 })
    } else if cents < 0 {
        Some(Debt { debtor: high, creditor: low, cents: (-cents) as i64 })
    } else {
        None
    }
}

/// The debts between the first `n` pairs.
pub open spec fn debts(
    owed: Seq<(i64, i64, i128)>,
    paid: Seq<Settlement>,
    pairs: Seq<(i64, i64)>,
    n: int,
) -> Seq<Debt>
    decreases n,
{
    if n <= 0 {
        seq![]
    } else {
        let before = debts(owed, paid, pairs, n - 1);
        let (low, high) = pairs[n - 1];
        match debt_between(net(owed, paid, low, high), low, high) {
            Some(debt) => before.push(debt),
            None => before,
        }
    }
}

/// Everything that is left between people.
pub open spec fn all_debts(owed: Seq<(i64, i64, i128)>, paid: Seq<Settlement>) -> Seq<Debt> {
    let pairs = pairs_between(owed, paid);
    debts(owed, paid, pairs, pairs.len() as int)
}

/// The sum of the values, each without its sign.
pub open spec fn size_of(owed: Seq<(i64, i64, i128)>) -> int
    decreases owed.len(),
{
    if owed.len() == 0 {
        0
    } else {
        size_of(owed.drop_last()) + if owed.last().2 >= 0 {
            owed.last().2 as int
        } else {
            -owed.last().2
        }
    }
}

proof fn lemma_size_grows(owed: Seq<(i64, i64, i128)>, i: int)
    requires
        0 <= i <= owed.len(),
    ensures
        0 <= size_of(owed.take(i)) <= size_of(owed),
    decreases owed.len(),
{
    if i < owed.len() {
        lemma_size_grows(owed.drop_last(), i);
        assert(owed.drop_last().take(i) =~= owed.take(i));
    } else {
        assert(owed.take(i) =~= owed);
        if owed.len() > 0 {
            lemma_size_grows(owed.drop_last(), i - 1);
        }
    }
}

/// The sum of payments in cents, each without its sign.
pub open spec fn paid_size(paid: Seq<Settlement>) -> int
    decreases paid.len(),
{
    if paid.len() == 0 {
        0
    } else {
        paid_size(paid.drop_last()) + num::size(paid.last().amount_cents as int)
    }
}

proof fn lemma_paid_size_grows(paid: Seq<Settlement>, i: int)
    requires
        0 <= i <= paid.len(),
    ensures
        0 <= paid_size(paid.take(i)) <= paid_size(paid),
    decreases paid.len(),
{
    if i < paid.len() {
        lemma_paid_size_grows(paid.drop_last(), i);
        assert(paid.drop_last().take(i) =~= paid.take(i));
    } else {
        assert(paid.take(i) =~= paid);
        if paid.len() > 0 {
            lemma_paid_size_grows(paid.drop_last(), i - 1);
        }
    }
}

/// What is owed and what was paid can be added up in 128 bits.
pub open spec fn amounts_fit(owed: Seq<(i64, i64, i128)>, paid: Seq<Settlement>) -> bool {
    size_of(owed) + 1000 * paid_size(paid) <= i128::MAX
}

/// Whether what is owed and what was paid can be added up.
pub fn can_be_netted(owed: &[(i64, i64, i128)], paid: &[Settlement]) -> (r: bool)
    ensures
        r == amounts_fit(owed@, paid@),
{
    let mut sum: u128 = 0;
    let mut i: usize = 0;
    proof {
        lemma_paid_size_grows(paid@, 0);
    }
    while i < owed.len()
        invariant
            i <= owed@.len(),
            paid_size(paid@) >= 0,
            sum == size_of(owed@.take(i as int)),
            sum <= i128::MAX,
        decreases owed.len() - i,
    {
        proof {
            lemma_size_grows(owed@, i + 1);
        }
        assert(owed@.take(i + 1).drop_last() =~= owed@.take(i as int));
        match add_size(sum, Some(owed[i].2)) {
            Some(total) => {
                sum = total;
            },
            None => {
                return false;
            },
        }
        i += 1;
    }
    assert(owed@.take(i as int) =~= owed@);
    let mut i: usize = 0;
    assert(paid@.take(0) =~= seq![]);
    while i < paid.len()
        invariant
            i <= paid@.len(),
            sum == size_of(owed@) + 1000 * paid_size(paid@.take(i as int)),
            sum <= i128::MAX,
        decreases paid.len() - i,
    {
        proof {
            lemma_paid_size_grows(paid@, i + 1);
        }
        assert(paid@.take(i + 1).drop_last() =~= paid@.take(i as int));
        match add_size(sum, Some(paid[i].amount_cents as i128 * 1000)) {
            Some(total) => {
                sum = total;
            },
            None => {
                return false;
            },
        }
        i += 1;
    }
    assert(paid@.take(i as int) =~= paid@);
    true
}

fn add_key(keys: &mut Vec<(i64, i64)>, key: (i64, i64), Ghost(all): Ghost<Seq<(i64, i64)>>)
    requires
        old(keys)@ == lists::first_seen(all),
    ensures
        final(keys)@ == lists::first_seen(all.push(key)),
{
    proof {
        assert(all.push(key).drop_last() =~= all);
    }
    let mut i: usize = 0;
    while i < keys.len()
        invariant
            i <= keys@.len(),
            keys@ == old(keys)@,
            forall|k: int| 0 <= k < i ==> keys@[k] != key,
            keys@ == lists::first_seen(all),
            all.push(key).drop_last() == all,
        decreases keys.len() - i,
    {
        if keys[i].0 == key.0 && keys[i].1 == key.1 {
            assert(keys@[i as int] == key);
            return ;
        }
        i += 1;
    }
    keys.push(key);
}

fn find_pairs_between(owed: &[(i64, i64, i128)], paid: &[Settlement]) -> (r: Vec<(i64, i64)>)
    ensures
        r@ == pairs_between(owed@, paid@),
{
    let mut keys: Vec<(i64, i64)> = Vec::new();
    let ghost mut all: Seq<(i64, i64)> = seq![];
    let mut i: usize = 0;
    while i < owed.len()
        invariant
            i <= owed@.len(),
            all == owing_pairs(owed@.take(i as int)),
            keys@ == lists::first_seen(all),
        decreases owed.len() - i,
    {
        assert(owed@.take(i + 1).drop_last() =~= owed@.take(i as int));
        let (user, owner, _) = owed[i];
        if user != owner {
            let key = if user < owner {
                (user, owner)
            } else {
                (owner, user)
            };
            add_key(&mut keys, key, Ghost(all));
            proof {
                all = all.push(key);
            }
        }
        i += 1;
    }
    assert(owed@.take(i as int) =~= owed@);
    let ghost first = all;
    let mut i: usize = 0;
    assert(all =~= first + paying_pairs(paid@.take(0)));
    while i < paid.len()
        invariant
            i <= paid@.len(),
            all == first + paying_pairs(paid@.take(i as int)),
            keys@ == lists::first_seen(all),
        decreases paid.len() - i,
    {
        assert(paid@.take(i + 1).drop_last() =~= paid@.take(i as int));
        let from: i64 = paid[i].from.0;
        let to: i64 = paid[i].to.0;
        if from != to {
            let key = if from < to {
                (from, to)
            } else {
                (to, from)
            };
            add_key(&mut keys, key, Ghost(all));
            proof {
                all = all.push(key);
            }
        }
        i += 1;
        assert(all =~= first + paying_pairs(paid@.take(i as int)));
    }
    assert(paid@.take(i as int) =~= paid@);
    let before = |a: &(i64, i64), b: &(i64, i64)| -> (r: bool)
        ensures
            r == key_order()(*a, *b),
        { a.0 < b.0 || (a.0 == b.0 && a.1 <= b.1) };
    order::sort_by(keys, before, Ghost(key_order()))
}

fn find_net(owed: &[(i64, i64, i128)], paid: &[Settlement], low: i64, high: i64) -> (r: i128)
    requires
        amounts_fit(owed@, paid@),
    ensures
        r == net(owed@, paid@, low, high),
        r > i128::MIN,
{
    proof {
        lemma_paid_size_grows(paid@, 0);
        lemma_size_grows(owed@, 0);
    }
    let mut sum: i128 = 0;
    let mut i: usize = 0;
    while i < owed.len()
        invariant
            i <= owed@.len(),
            size_of(owed@) <= i128::MAX,
            sum == owed_between(owed@.take(i as int), low, high),
            -size_of(owed@.take(i as int)) <= sum <= size_of(owed@.take(i as int)),
        decreases owed.len() - i,
    {
        proof {
            lemma_size_grows(owed@, i as int);
            lemma_size_grows(owed@, i + 1);
        }
        assert(owed@.take(i + 1).drop_last() =~= owed@.take(i as int));
        let (user, owner, value) = owed[i];
        if user == low && owner == high {
            sum = sum + value;
        } else if user == high && owner == low {
            sum = sum - value;
        }
        i += 1;
    }
    assert(owed@.take(i as int) =~= owed@);
    let mut paid_sum: i128 = 0;
    let mut i: usize = 0;
    while i < paid.len()
        invariant
            i <= paid@.len(),
            1000 * paid_size(paid@) <= i128::MAX,
            paid_sum == paid_between(paid@.take(i as int), low, high),
            -1000 * paid_size(paid@.take(i as int)) <= paid_sum <= 1000 * paid_size(
                paid@.take(i as int),
            ),
        decreases paid.len() - i,
    {
        proof {
            lemma_paid_size_grows(paid@, i as int);
            lemma_paid_size_grows(paid@, i + 1);
        }
        assert(paid@.take(i + 1).drop_last() =~= paid@.take(i as int));
        let from: i64 = paid[i].from.0;
        let to: i64 = paid[i].to.0;
        let amount: i128 = paid[i].amount_cents as i128 * 1000;
        if from == low && to == high {
            paid_sum = paid_sum + amount;
        } else if from == high && to == low {
            paid_sum = paid_sum - amount;
        }
        i += 1;
    }
    assert(paid@.take(i as int) =~= paid@);
    sum - paid_sum
}

/// Nets, for every pair of people, the filament each used of the other's spools against the
/// payments between them. `owed` holds `(user, owner, value)`.
pub fn balances(owed: &[(i64, i64, i128)], paid: &[Settlement]) -> (r: Vec<Debt>)
    requires
        amounts_fit(owed@, paid@),
    ensures
        r@ == all_debts(owed@, paid@),
{
    let pairs = find_pairs_between(owed, paid);
    let mut out: Vec<Debt> = Vec::new();
    let mut i: usize = 0;
    while i < pairs.len()
        invariant
            i <= pairs@.len(),
            amounts_fit(owed@, paid@),
            pairs@ == pairs_between(owed@, paid@),
            out@ == debts(owed@, paid@, pairs@, i as int),
        decreases pairs.len() - i,
    {
        let (low, high) = pairs[i];
        assert(pairs@[i as int] == (low, high));
        let amount = find_net(owed, paid, low, high);
        let nearest: i128 = num::round_div(amount, 1000);
        let cents: i128 = if nearest > i64::MAX as i128 {
            i64::MAX as i128
        } else if nearest < -(i64::MAX as i128) {
            -(i64::MAX as i128)
        } else {
            nearest
        };
        if cents > 0 {
            out.push(Debt { debtor: low, creditor: high, cents: cents as i64 });
        } else if cents < 0 {
            out.push(Debt { debtor: high, creditor: low, cents: (-cents) as i64 });
        }
        i += 1;
    }
    out
}

proof fn lemma_net_after_payment(
    owed: Seq<(i64, i64, i128)>,
    paid: Seq<Settlement>,
    payment: Settlement,
    low: i64,
    high: i64,
)
    ensures
        net(owed, paid.push(payment), low, high) == net(owed, paid, low, high) - adds(
            payment.from.0,
            payment.to.0,
            payment.amount_cents * 1000,
            low,
            high,
        ),
{
    assert(paid.push(payment).drop_last() =~= paid);
}

proof fn lemma_owing_pairs(owed: Seq<(i64, i64, i128)>)
    ensures
        forall|k: int|
            0 <= k < owing_pairs(owed).len() ==> (#[trigger] owing_pairs(owed)[k]).0 < owing_pairs(
                owed,
            )[k].1,
    decreases owed.len(),
{
    if owed.len() > 0 {
        lemma_owing_pairs(owed.drop_last());
        let before = owing_pairs(owed.drop_last());
        assert forall|k: int| 0 <= k < owing_pairs(owed).len() implies (#[trigger] owing_pairs(
            owed,
        )[k]).0 < owing_pairs(owed)[k].1 by {
            if k < before.len() {
                assert(owing_pairs(owed)[k] == before[k]);
            }
        }
    }
}

proof fn lemma_paying_pairs(paid: Seq<Settlement>)
    ensures
        forall|k: int|
            0 <= k < paying_pairs(paid).len() ==> (#[trigger] paying_pairs(paid)[k]).0
                < paying_pairs(paid)[k].1,
    decreases paid.len(),
{
    if paid.len() > 0 {
        lemma_paying_pairs(paid.drop_last());
        let before = paying_pairs(paid.drop_last());
        assert forall|k: int| 0 <= k < paying_pairs(paid).len() implies (#[trigger] paying_pairs(
            paid,
        )[k]).0 < paying_pairs(paid)[k].1 by {
            if k < before.len() {
                assert(paying_pairs(paid)[k] == before[k]);
            }
        }
    }
}

/// The pairs are of two different people, the lower id first, and no pair comes twice.
proof fn lemma_pairs_between(owed: Seq<(i64, i64, i128)>, paid: Seq<Settlement>)
    ensures
        forall|k: int|
            0 <= k < pairs_between(owed, paid).len() ==> (#[trigger] pairs_between(owed, paid)[k]).0
                < pairs_between(owed, paid)[k].1 && (owing_pairs(owed) + paying_pairs(
                paid,
            )).contains(pairs_between(owed, paid)[k]),
        pairs_between(owed, paid).no_duplicates(),
{
    broadcast use vstd::seq_lib::group_to_multiset_ensures;

    let all = owing_pairs(owed) + paying_pairs(paid);
    let once = lists::first_seen(all);
    let pairs = pairs_between(owed, paid);
    lemma_owing_pairs(owed);
    lemma_paying_pairs(paid);
    order::sorting_keeps_every_item(once, key_order());
    lists::first_seen_keeps_each_item_once(all, (0, 0));
    assert(once.no_duplicates());
    once.lemma_multiset_has_no_duplicates();
    pairs.lemma_multiset_has_no_duplicates_conv();
    assert forall|k: int| 0 <= k < pairs.len() implies (#[trigger] pairs[k]).0 < pairs[k].1
        && all.contains(pairs[k]) by {
        assert(pairs.contains(pairs[k]));
        assert(pairs.to_multiset().count(pairs[k]) > 0);
        assert(once.contains(pairs[k]));
        lists::first_seen_keeps_each_item_once(all, pairs[k]);
        let m = choose|m: int| 0 <= m < all.len() && all[m] == pairs[k];
        let split = owing_pairs(owed).len() as int;
        if m < split {
            assert(owing_pairs(owed)[m] == pairs[k]);
        } else {
            assert(paying_pairs(paid)[m - split] == pairs[k]);
        }
    }
}

/// The place of the pair that a debt is between.
proof fn lemma_debt_place(
    owed: Seq<(i64, i64, i128)>,
    paid: Seq<Settlement>,
    pairs: Seq<(i64, i64)>,
    n: int,
    i: int,
) -> (k: int)
    requires
        0 <= n <= pairs.len(),
        0 <= i < debts(owed, paid, pairs, n).len(),
    ensures
        0 <= k < n,
        debts(owed, paid, pairs, k).len() == i,
        debt_between(net(owed, paid, pairs[k].0, pairs[k].1), pairs[k].0, pairs[k].1) == Some(
            debts(owed, paid, pairs, n)[i],
        ),
    decreases n,
{
    let before = debts(owed, paid, pairs, n - 1);
    if i < before.len() {
        lemma_debt_place(owed, paid, pairs, n - 1, i)
    } else {
        n - 1
    }
}

proof fn lemma_debts_grow(
    owed: Seq<(i64, i64, i128)>,
    paid: Seq<Settlement>,
    pairs: Seq<(i64, i64)>,
    a: int,
    b: int,
)
    requires
        0 <= a <= b <= pairs.len(),
    ensures
        debts(owed, paid, pairs, a).len() <= debts(owed, paid, pairs, b).len(),
    decreases b - a,
{
    if a < b {
        lemma_debts_grow(owed, paid, pairs, a, b - 1);
    }
}

/// Every debt is between two different people and of more than nothing: what the one used of
/// the other's spools and has not paid back, to the nearest cent.
pub proof fn debts_are_what_is_left(owed: Seq<(i64, i64, i128)>, paid: Seq<Settlement>, i: int)
    requires
        0 <= i < all_debts(owed, paid).len(),
    ensures
        ({
            let debt = all_debts(owed, paid)[i];
            let (low, high) = pair_key(debt.debtor, debt.creditor);
            &&& debt.debtor != debt.creditor
            &&& debt.cents > 0
            &&& whole_cents(net(owed, paid, low, high)) == if debt.debtor == low {
                debt.cents as int
            } else {
                -debt.cents
            }
        }),
{
    let pairs = pairs_between(owed, paid);
    lemma_pairs_between(owed, paid);
    let k = lemma_debt_place(owed, paid, pairs, pairs.len() as int, i);
    assert(pairs[k].0 < pairs[k].1);
}

/// No two debts are between the same two people.
pub proof fn two_people_have_one_debt(
    owed: Seq<(i64, i64, i128)>,
    paid: Seq<Settlement>,
    i: int,
    j: int,
)
    requires
        0 <= i < j < all_debts(owed, paid).len(),
    ensures
        ({
            let (a, b) = (all_debts(owed, paid)[i], all_debts(owed, paid)[j]);
            pair_key(a.debtor, a.creditor) != pair_key(b.debtor, b.creditor)
        }),
{
    let pairs = pairs_between(owed, paid);
    lemma_pairs_between(owed, paid);
    let k = lemma_debt_place(owed, paid, pairs, pairs.len() as int, i);
    let m = lemma_debt_place(owed, paid, pairs, pairs.len() as int, j);
    assert(pairs[k].0 < pairs[k].1 && pairs[m].0 < pairs[m].1);
    assert(k != m);
    assert(pairs[k] != pairs[m]);
}

proof fn lemma_debts_without(
    owed: Seq<(i64, i64, i128)>,
    paid: Seq<Settlement>,
    payment: Settlement,
    pairs: Seq<(i64, i64)>,
    k: int,
    n: int,
)
    requires
        0 <= k < pairs.len(),
        0 <= n <= pairs.len(),
        pairs.no_duplicates(),
        forall|m: int| 0 <= m < pairs.len() ==> (#[trigger] pairs[m]).0 < pairs[m].1,
        payment.from.0 != payment.to.0,
        pairs[k] == pair_key(payment.from.0, payment.to.0),
        debt_between(net(owed, paid, pairs[k].0, pairs[k].1), pairs[k].0, pairs[k].1) is Some,
        debt_between(
            net(owed, paid.push(payment), pairs[k].0, pairs[k].1),
            pairs[k].0,
            pairs[k].1,
        ) is None,
    ensures
        debts(owed, paid.push(payment), pairs, n) == if n <= k {
            debts(owed, paid, pairs, n)
        } else {
            debts(owed, paid, pairs, n).remove(debts(owed, paid, pairs, k).len() as int)
        },
        n > k ==> debts(owed, paid, pairs, k).len() < debts(owed, paid, pairs, n).len(),
    decreases n,
{
    if n > 0 {
        lemma_debts_without(owed, paid, payment, pairs, k, n - 1);
        let (low, high) = pairs[n - 1];
        lemma_net_after_payment(owed, paid, payment, low, high);
        let at = debts(owed, paid, pairs, k).len() as int;
        let before = debts(owed, paid, pairs, n - 1);
        if n - 1 == k {
            assert(debts(owed, paid, pairs, n).remove(at) =~= before);
        } else {
            assert(pairs[n - 1] != pairs[k]);
            assert(pairs[n - 1].0 < pairs[n - 1].1);
            assert(net(owed, paid.push(payment), low, high) == net(owed, paid, low, high));
            if n - 1 > k {
                match debt_between(net(owed, paid, low, high), low, high) {
                    Some(debt) => {
                        assert(before.push(debt).remove(at) =~= before.remove(at).push(debt));
                    },
                    None => {},
                }
            }
        }
    }
}

/// Paying a debt in full removes that debt and leaves every other as it was. (Where half a cent
/// was rounded up, paying it leaves half a cent the other way; and what 64 bits do not hold is
/// not paid in full.)
pub proof fn paying_a_debt_removes_just_that_debt(
    owed: Seq<(i64, i64, i128)>,
    paid: Seq<Settlement>,
    payment: Settlement,
    i: int,
)
    requires
        0 <= i < all_debts(owed, paid).len(),
        payment.from.0 == all_debts(owed, paid)[i].debtor,
        payment.to.0 == all_debts(owed, paid)[i].creditor,
        payment.amount_cents == all_debts(owed, paid)[i].cents,
        ({
            let (low, high) = pair_key(payment.from.0, payment.to.0);
            let left = net(owed, paid, low, high);
            left % 1000 != 500 && -i64::MAX <= num::rounded(left, 1000) <= i64::MAX
        }),
    ensures
        all_debts(owed, paid.push(payment)) == all_debts(owed, paid).remove(i),
{
    let pairs = pairs_between(owed, paid);
    lemma_pairs_between(owed, paid);
    let k = lemma_debt_place(owed, paid, pairs, pairs.len() as int, i);
    assert(pairs[k].0 < pairs[k].1);
    let (low, high) = pairs[k];
    assert(pair_key(payment.from.0, payment.to.0) == pairs[k]);
    lemma_net_after_payment(owed, paid, payment, low, high);
    let all = owing_pairs(owed) + paying_pairs(paid);
    assert(paid.push(payment).drop_last() =~= paid);
    assert(owing_pairs(owed) + paying_pairs(paid.push(payment)) =~= all.push(pairs[k]));
    assert(all.push(pairs[k]).drop_last() =~= all);
    lists::first_seen_keeps_each_item_once(all, pairs[k]);
    assert(lists::first_seen(all.push(pairs[k])) == lists::first_seen(all));
    assert(pairs_between(owed, paid.push(payment)) == pairs);
    lemma_debts_without(owed, paid, payment, pairs, k, pairs.len() as int);
}

/// What one uses of one's own filament is owed to nobody.
pub proof fn own_filament_is_not_owed(owed: Seq<(i64, i64, i128)>, user: i64, value: i128, low: i64, high: i64)
    requires
        low < high,
    ensures
        owed_between(owed.push((user, user, value)), low, high) == owed_between(owed, low, high),
        owing_pairs(owed.push((user, user, value))) == owing_pairs(owed),
{
    assert(owed.push((user, user, value)).drop_last() =~= owed);
}

// ---------------------------------------------------------------------------------------------
// The books
// ---------------------------------------------------------------------------------------------

/// The entries from `since` on, of spools there are.
pub open spec fn used_since(spools: Seq<Spool>, since: i64) -> spec_fn(LedgerEntry) -> bool {
    |entry: LedgerEntry|
        entry.created_at >= since && inventory::spool_at(spools, entry.spool_id, 0) < spools.len()
}

pub open spec fn use_from(spools: Seq<Spool>) -> spec_fn(LedgerEntry) -> Use {
    |entry: LedgerEntry|
        Use {
            user_id: entry.user_id,
            owner_id: entry.spool_owner_id,
            kind: entry.kind,
            mg: entry.mg,
            value: entry.value,
            material: spools[inventory::spool_at(spools, entry.spool_id, 0)].material,
            at: entry.created_at,
        }
}

/// Handing a spool on or repricing it rewrites nothing: as long as the ledger stays, what is owed
/// stays, and of every use whose it was, what it weighed and what it was worth.
pub proof fn changing_a_spool_rewrites_no_use(before: Inventory, after: Inventory, entry: LedgerEntry)
    requires
        after.ledger@ == before.ledger@,
    ensures
        lists::first_seen(owing(after.ledger@)).map_values(with_value(after.ledger@))
            == lists::first_seen(owing(before.ledger@)).map_values(with_value(before.ledger@)),
        use_from(after.spools@)(entry) == (Use {
            material: use_from(after.spools@)(entry).material,
            ..use_from(before.spools@)(entry)
        }),
{
}

pub open spec fn oldest_first() -> spec_fn(Use, Use) -> bool {
    |a: Use, b: Use| a.at <= b.at
}

pub open spec fn is_over(state: JobState) -> bool {
    state == JobState::Done || state == JobState::Failed || state == JobState::Cancelled
}

/// The jobs that reached the printer and ended from `since` on.
pub open spec fn ended_since(since: i64) -> spec_fn(Job) -> bool {
    |job: Job|
        is_over(job.state) && job.started_at is Some && (job.finished_at matches Some(at) && at
            >= since)
}

pub open spec fn print_from() -> spec_fn(Job) -> Print {
    |job: Job|
        Print {
            owner_id: owner_id(job),
            state: job.state,
            seconds: if job.finished_at->0 > job.started_at->0 {
                (job.finished_at->0 - job.started_at->0) as i64
            } else {
                0
            },
            finished_at: job.finished_at->0,
        }
}

pub open spec fn owner_id(job: Job) -> Option<i64> {
    match job.owner {
        Some(owner) => Some(owner.0),
        None => None,
    }
}

/// How long every job took can be counted in seconds.
pub open spec fn durations_fit(jobs: Seq<Job>) -> bool {
    forall|i: int|
        0 <= i < jobs.len() ==> ((#[trigger] jobs[i]).started_at is Some && jobs[i].finished_at is Some
            ==> jobs[i].finished_at->0 - jobs[i].started_at->0 <= i64::MAX)
}

fn job_is_over(state: JobState) -> (r: bool)
    ensures
        r == is_over(state),
{
    state == JobState::Done || state == JobState::Failed || state == JobState::Cancelled
}

fn job_owner_id(job: &Job) -> (r: Option<i64>)
    ensures
        r == owner_id(*job),
{
    match &job.owner {
        Some(owner) => Some(owner.0),
        None => None,
    }
}

fn load_uses(db: &Inventory, since: i64) -> (r: Vec<Use>)
    ensures
        r@ == order::sorted(
            db.ledger@.filter(used_since(db.spools@, since)).map_values(use_from(db.spools@)),
            oldest_first(),
        ),
{
    let ghost p = used_since(db.spools@, since);
    let ghost show = use_from(db.spools@);
    let mut uses: Vec<Use> = Vec::new();
    proof {
        lists::lemma_filter_ends(db.ledger@, p);
    }
    let mut i: usize = 0;
    while i < db.ledger.len()
        invariant
            i <= db.ledger@.len(),
            p == used_since(db.spools@, since),
            show == use_from(db.spools@),
            uses@ =~= db.ledger@.take(i as int).filter(p).map_values(show),
        decreases db.ledger.len() - i,
    {
        proof {
            lists::lemma_filter_step(db.ledger@, p, i as int);
        }
        let entry = &db.ledger[i];
        let k = inventory::find_spool(&db.spools, entry.spool_id);
        if entry.created_at >= since && k < db.spools.len() {
            uses.push(
                Use {
                    user_id: entry.user_id,
                    owner_id: entry.spool_owner_id,
                    kind: entry.kind,
                    mg: entry.mg,
                    value: entry.value,
                    material: db.spools[k].material.clone(),
                    at: entry.created_at,
                },
            );
        }
        i += 1;
    }
    let before = |a: &Use, b: &Use| -> (r: bool)
        ensures
            r == oldest_first()(*a, *b),
        { a.at <= b.at };
    order::sort_by(uses, before, Ghost(oldest_first()))
}

/// What happened from `since` on: the uses oldest first, and the prints.
pub fn load(db: &Inventory, jobs: &Jobs, since: i64) -> (r: Ledger)
    requires
        durations_fit(jobs.jobs@),
    ensures
        r.uses@ == order::sorted(
            db.ledger@.filter(used_since(db.spools@, since)).map_values(use_from(db.spools@)),
            oldest_first(),
        ),
        r.prints@ == jobs.jobs@.filter(ended_since(since)).map_values(print_from()),
{
    let uses = load_uses(db, since);
    let ghost p = ended_since(since);
    let mut prints: Vec<Print> = Vec::new();
    proof {
        lists::lemma_filter_ends(jobs.jobs@, p);
    }
    let mut i: usize = 0;
    while i < jobs.jobs.len()
        invariant
            i <= jobs.jobs@.len(),
            durations_fit(jobs.jobs@),
            p == ended_since(since),
            prints@ =~= jobs.jobs@.take(i as int).filter(p).map_values(print_from()),
        decreases jobs.jobs.len() - i,
    {
        proof {
            lists::lemma_filter_step(jobs.jobs@, p, i as int);
        }
        let job = &jobs.jobs[i];
        assert(jobs.jobs@[i as int] == *job);
        if let Some(started) = job.started_at {
            if let Some(finished) = job.finished_at {
                if job_is_over(job.state) && finished >= since {
                    let seconds: i64 = if finished > started {
                        finished - started
                    } else {
                        0
                    };
                    prints.push(
                        Print {
                            owner_id: job_owner_id(job),
                            state: job.state,
                            seconds,
                            finished_at: finished,
                        },
                    );
                }
            }
        }
        i += 1;
    }
    assert(jobs.jobs@.take(i as int) =~= jobs.jobs@);
    Ledger { uses, prints }
}

/// The entries that a person owes another for.
pub open spec fn is_owed(entry: LedgerEntry) -> bool {
    &&& entry.kind != ConsumptionKind::WeighIn
    &&& entry.user_id is Some
    &&& entry.spool_owner_id is Some
    &&& entry.user_id != entry.spool_owner_id
    &&& entry.value is Some
}

/// Who owes whom, entry by entry.
pub open spec fn owing(ledger: Seq<LedgerEntry>) -> Seq<(i64, i64)>
    decreases ledger.len(),
{
    if ledger.len() == 0 {
        seq![]
    } else {
        let before = owing(ledger.drop_last());
        if is_owed(ledger.last()) {
            before.push((ledger.last().user_id->0, ledger.last().spool_owner_id->0))
        } else {
            before
        }
    }
}

/// The value of what `user_id` printed from `owner_id`'s priced spools.
pub open spec fn value_owed(ledger: Seq<LedgerEntry>, user_id: i64, owner_id: i64) -> int
    decreases ledger.len(),
{
    if ledger.len() == 0 {
        0
    } else {
        let entry = ledger.last();
        value_owed(ledger.drop_last(), user_id, owner_id) + if is_owed(entry) && entry.user_id
            == Some(user_id) && entry.spool_owner_id == Some(owner_id) {
            entry.value->0 as int
        } else {
            0
        }
    }
}

pub open spec fn with_value(ledger: Seq<LedgerEntry>) -> spec_fn((i64, i64)) -> (i64, i64, i128) {
    |pair: (i64, i64)| (pair.0, pair.1, value_owed(ledger, pair.0, pair.1) as i128)
}

/// What the entries of a ledger are worth, each without its sign.
pub open spec fn ledger_worth(ledger: Seq<LedgerEntry>) -> int
    decreases ledger.len(),
{
    if ledger.len() == 0 {
        0
    } else {
        ledger_worth(ledger.drop_last()) + num::size(or_zero_value(ledger.last().value))
    }
}

/// The values on the ledger can be added up in 128 bits.
pub open spec fn entries_fit(ledger: Seq<LedgerEntry>) -> bool {
    ledger_worth(ledger) <= i128::MAX
}

proof fn lemma_ledger_worth_grows(ledger: Seq<LedgerEntry>, i: int)
    requires
        0 <= i <= ledger.len(),
    ensures
        0 <= ledger_worth(ledger.take(i)) <= ledger_worth(ledger),
    decreases ledger.len(),
{
    if i < ledger.len() {
        lemma_ledger_worth_grows(ledger.drop_last(), i);
        assert(ledger.drop_last().take(i) =~= ledger.take(i));
    } else {
        assert(ledger.take(i) =~= ledger);
        if ledger.len() > 0 {
            lemma_ledger_worth_grows(ledger.drop_last(), i - 1);
        }
    }
}

/// Adds the size of a value, as far as 128 bits hold it.
fn add_size(sum: u128, value: Option<i128>) -> (r: Option<u128>)
    requires
        sum <= i128::MAX,
    ensures
        match r {
            Some(total) => total == sum + num::size(or_zero_value(value)) && total <= i128::MAX,
            None => sum + num::size(or_zero_value(value)) > i128::MAX,
        },
{
    let size: u128 = match value {
        Some(value) => if value >= 0 {
            value as u128
        } else if value > i128::MIN {
            (-value) as u128
        } else {
            return None;
        },
        None => 0,
    };
    if size <= i128::MAX as u128 - sum {
        Some(sum + size)
    } else {
        None
    }
}

/// Whether what uses are worth can be added up.
pub fn uses_can_be_added(uses: &Vec<Use>) -> (r: bool)
    ensures
        r == values_fit(uses@),
{
    let mut sum: u128 = 0;
    let mut i: usize = 0;
    while i < uses.len()
        invariant
            i <= uses@.len(),
            sum == worth(uses@.take(i as int)),
            sum <= i128::MAX,
        decreases uses.len() - i,
    {
        proof {
            lemma_worth_grows(uses@, i + 1);
        }
        assert(uses@.take(i + 1).drop_last() =~= uses@.take(i as int));
        match add_size(sum, uses[i].value) {
            Some(total) => {
                sum = total;
            },
            None => {
                return false;
            },
        }
        i += 1;
    }
    assert(uses@.take(i as int) =~= uses@);
    true
}

/// Whether the values on a ledger can be added up.
pub fn can_be_added(ledger: &Vec<LedgerEntry>) -> (r: bool)
    ensures
        r == entries_fit(ledger@),
{
    let mut sum: u128 = 0;
    let mut i: usize = 0;
    while i < ledger.len()
        invariant
            i <= ledger@.len(),
            sum == ledger_worth(ledger@.take(i as int)),
            sum <= i128::MAX,
        decreases ledger.len() - i,
    {
        proof {
            lemma_ledger_worth_grows(ledger@, i + 1);
        }
        assert(ledger@.take(i + 1).drop_last() =~= ledger@.take(i as int));
        match add_size(sum, ledger[i].value) {
            Some(total) => {
                sum = total;
            },
            None => {
                return false;
            },
        }
        i += 1;
    }
    assert(ledger@.take(i as int) =~= ledger@);
    true
}

fn entry_is_owed(entry: &LedgerEntry) -> (r: Option<(i64, i64, i128)>)
    ensures
        match r {
            Some((user_id, owner_id, value)) => is_owed(*entry) && entry.user_id == Some(user_id)
                && entry.spool_owner_id == Some(owner_id) && entry.value == Some(value),
            None => !is_owed(*entry),
        },
{
    if entry.kind == ConsumptionKind::WeighIn {
        return None;
    }
    match (entry.user_id, entry.spool_owner_id, entry.value) {
        (Some(user_id), Some(owner_id), Some(value)) => {
            if user_id != owner_id {
                Some((user_id, owner_id, value))
            } else {
                None
            }
        },
        _ => None,
    }
}

fn sum_owed(ledger: &Vec<LedgerEntry>, user_id: i64, owner_id: i64) -> (r: i128)
    requires
        entries_fit(ledger@),
    ensures
        r == value_owed(ledger@, user_id, owner_id),
{
    let mut sum: i128 = 0;
    let mut i: usize = 0;
    while i < ledger.len()
        invariant
            i <= ledger@.len(),
            entries_fit(ledger@),
            sum == value_owed(ledger@.take(i as int), user_id, owner_id),
            -ledger_worth(ledger@.take(i as int)) <= sum <= ledger_worth(ledger@.take(i as int)),
        decreases ledger.len() - i,
    {
        proof {
            lemma_ledger_worth_grows(ledger@, i as int);
            lemma_ledger_worth_grows(ledger@, i + 1);
        }
        assert(ledger@.take(i + 1).drop_last() =~= ledger@.take(i as int));
        if let Some((user, owner, value)) = entry_is_owed(&ledger[i]) {
            assert(ledger@[i as int].value == Some(value));
            if user == user_id && owner == owner_id {
                sum = sum + value;
            }
        }
        i += 1;
    }
    assert(ledger@.take(i as int) =~= ledger@);
    sum
}

/// The value of everything each person printed from someone else's priced spools, over all
/// time, as `(user, owner, value)`.
pub fn owed(db: &Inventory) -> (r: Vec<(i64, i64, i128)>)
    requires
        entries_fit(db.ledger@),
    ensures
        r@ == lists::first_seen(owing(db.ledger@)).map_values(with_value(db.ledger@)),
{
    let mut keys: Vec<(i64, i64)> = Vec::new();
    let ghost mut all: Seq<(i64, i64)> = seq![];
    let mut i: usize = 0;
    while i < db.ledger.len()
        invariant
            i <= db.ledger@.len(),
            all == owing(db.ledger@.take(i as int)),
            keys@ == lists::first_seen(all),
        decreases db.ledger.len() - i,
    {
        assert(db.ledger@.take(i + 1).drop_last() =~= db.ledger@.take(i as int));
        if let Some((user, owner, _)) = entry_is_owed(&db.ledger[i]) {
            add_key(&mut keys, (user, owner), Ghost(all));
            proof {
                all = all.push((user, owner));
            }
        }
        i += 1;
    }
    assert(db.ledger@.take(i as int) =~= db.ledger@);
    let mut out: Vec<(i64, i64, i128)> = Vec::new();
    let mut i: usize = 0;
    while i < keys.len()
        invariant
            i <= keys@.len(),
            entries_fit(db.ledger@),
            out@ =~= keys@.take(i as int).map_values(with_value(db.ledger@)),
        decreases keys.len() - i,
    {
        let (user, owner) = keys[i];
        out.push((user, owner, sum_owed(&db.ledger, user, owner)));
        i += 1;
    }
    assert(keys@.take(i as int) =~= keys@);
    out
}

// ---------------------------------------------------------------------------------------------
// Payments
// ---------------------------------------------------------------------------------------------

/// A payment as it is kept.
#[derive(Debug, Clone, Copy, PartialEq, Eq, Structural)]
pub struct Payment {
    pub id: i64,
    pub from_user: i64,
    pub to_user: i64,
    pub amount_cents: i64,
    pub recorded_by: Option<i64>,
    pub created_at: i64,
}

#[derive(Debug, PartialEq, Eq)]
pub struct Payments {
    pub rows: Vec<Payment>,
}

pub open spec fn username_of(db: Accounts, id: i64) -> Option<String> {
    let k = accounts::account_at(db.accounts@, id, 0);
    if k < db.accounts@.len() {
        Some(db.accounts@[k].user.username)
    } else {
        None
    }
}

fn find_username(db: &Accounts, id: i64) -> (r: Option<String>)
    ensures
        r == username_of(*db, id),
{
    match accounts::user(db, id) {
        Some(user) => Some(user.username),
        None => None,
    }
}

/// Both sides of the payment still have an account.
pub open spec fn is_between_users(db: Accounts) -> spec_fn(Payment) -> bool {
    |row: Payment|
        username_of(db, row.from_user) is Some && username_of(db, row.to_user) is Some
}

/// A payment with everybody's names.
pub open spec fn named_payment(db: Accounts) -> spec_fn(Payment) -> Settlement {
    |row: Payment|
        Settlement {
            id: row.id,
            from: (row.from_user, username_of(db, row.from_user)->0),
            to: (row.to_user, username_of(db, row.to_user)->0),
            amount_cents: row.amount_cents,
            recorded_by: match row.recorded_by {
                Some(id) => username_of(db, id),
                None => None,
            },
            created_at: row.created_at,
        }
}

pub open spec fn newest_payment_first() -> spec_fn(Settlement, Settlement) -> bool {
    |a: Settlement, b: Settlement|
        a.created_at > b.created_at || a.created_at == b.created_at && a.id >= b.id
}

/// Newest first.
pub fn settlements(db: &Payments, accounts: &Accounts) -> (r: Vec<Settlement>)
    ensures
        r@ == order::sorted(
            db.rows@.filter(is_between_users(*accounts)).map_values(named_payment(*accounts)),
            newest_payment_first(),
        ),
{
    let ghost p = is_between_users(*accounts);
    let ghost show = named_payment(*accounts);
    let mut all: Vec<Settlement> = Vec::new();
    proof {
        lists::lemma_filter_ends(db.rows@, p);
    }
    let mut i: usize = 0;
    while i < db.rows.len()
        invariant
            i <= db.rows@.len(),
            p == is_between_users(*accounts),
            show == named_payment(*accounts),
            all@ =~= db.rows@.take(i as int).filter(p).map_values(show),
        decreases db.rows.len() - i,
    {
        proof {
            lists::lemma_filter_step(db.rows@, p, i as int);
        }
        let row = db.rows[i];
        if let Some(from) = find_username(accounts, row.from_user) {
            if let Some(to) = find_username(accounts, row.to_user) {
                let recorded_by: Option<String> = match row.recorded_by {
                    Some(id) => find_username(accounts, id),
                    None => None,
                };
                all.push(
                    Settlement {
                        id: row.id,
                        from: (row.from_user, from),
                        to: (row.to_user, to),
                        amount_cents: row.amount_cents,
                        recorded_by,
                        created_at: row.created_at,
                    },
                );
            }
        }
        i += 1;
    }
    let before = |a: &Settlement, b: &Settlement| -> (r: bool)
        ensures
            r == newest_payment_first()(*a, *b),
        { a.created_at > b.created_at || (a.created_at == b.created_at && a.id >= b.id) };
    order::sort_by(all, before, Ghost(newest_payment_first()))
}

/// One more than the highest id.
pub open spec fn next_payment_id(rows: Seq<Payment>) -> int
    decreases rows.len(),
{
    if rows.len() == 0 {
        1
    } else {
        let before = next_payment_id(rows.drop_last());
        if rows.last().id >= before {
            rows.last().id + 1
        } else {
            before
        }
    }
}

pub fn record_settlement(
    db: &mut Payments,
    from: i64,
    to: i64,
    amount_cents: i64,
    recorded_by: i64,
    now: i64,
) -> (r: i64)
    requires
        next_payment_id(old(db).rows@) <= i64::MAX,
    ensures
        r == next_payment_id(old(db).rows@),
        final(db).rows@ == old(db).rows@.push(
            (Payment {
                id: r,
                from_user: from,
                to_user: to,
                amount_cents,
                recorded_by: Some(recorded_by),
                created_at: now,
            }),
        ),
{
    let mut id: i64 = 1;
    let mut i: usize = 0;
    while i < db.rows.len()
        invariant
            i <= db.rows@.len(),
            db.rows@ == old(db).rows@,
            id == next_payment_id(db.rows@.take(i as int)),
            next_payment_id(db.rows@) <= i64::MAX,
        decreases db.rows.len() - i,
    {
        assert(db.rows@.take(i + 1).drop_last() =~= db.rows@.take(i as int));
        proof {
            lemma_next_payment_id(db.rows@, i + 1);
        }
        if db.rows[i].id >= id {
            id = db.rows[i].id + 1;
        }
        i += 1;
    }
    assert(db.rows@.take(i as int) =~= db.rows@);
    db.rows.push(
        Payment {
            id,
            from_user: from,
            to_user: to,
            amount_cents,
            recorded_by: Some(recorded_by),
            created_at: now,
        },
    );
    id
}

proof fn lemma_next_payment_id(rows: Seq<Payment>, i: int)
    requires
        0 <= i <= rows.len(),
    ensures
        next_payment_id(rows.take(i)) <= next_payment_id(rows),
    decreases rows.len(),
{
    if i < rows.len() {
        lemma_next_payment_id(rows.drop_last(), i);
        assert(rows.drop_last().take(i) =~= rows.take(i));
    } else {
        assert(rows.take(i) =~= rows);
    }
}

pub open spec fn with_other_payment_id(id: i64) -> spec_fn(Payment) -> bool {
    |row: Payment| row.id != id
}

/// Returns whether there was such a payment.
pub fn delete_settlement(db: &mut Payments, id: i64) -> (r: bool)
    ensures
        final(db).rows@ == old(db).rows@.filter(with_other_payment_id(id)),
        r == exists|i: int| 0 <= i < old(db).rows@.len() && (#[trigger] old(db).rows@[i]).id == id,
{
    let ghost p = with_other_payment_id(id);
    let mut out: Vec<Payment> = Vec::new();
    let mut found = false;
    proof {
        lists::lemma_filter_ends(db.rows@, p);
    }
    let mut i: usize = 0;
    while i < db.rows.len()
        invariant
            i <= db.rows@.len(),
            db.rows@ == old(db).rows@,
            p == with_other_payment_id(id),
            out@ == db.rows@.take(i as int).filter(p),
            found == exists|k: int| 0 <= k < i && (#[trigger] db.rows@[k]).id == id,
        decreases db.rows.len() - i,
    {
        proof {
            lists::lemma_filter_step(db.rows@, p, i as int);
        }
        if db.rows[i].id == id {
            found = true;
        } else {
            out.push(db.rows[i]);
        }
        i += 1;
    }
    db.rows = out;
    found
}

/// A deleted payment is gone: deleting it again finds nothing.
pub proof fn a_payment_is_deleted_once(rows: Seq<Payment>, id: i64, i: int)
    requires
        0 <= i < rows.filter(with_other_payment_id(id)).len(),
    ensures
        rows.filter(with_other_payment_id(id))[i].id != id,
{
    lists::lemma_filter_positions(rows, with_other_payment_id(id));
}

// ---------------------------------------------------------------------------------------------
// Recent prints
// ---------------------------------------------------------------------------------------------

#[derive(Debug, PartialEq, Eq)]
pub struct RecentPrint {
    pub job_id: i64,
    pub name: String,
    pub state: JobState,
    pub finished_at: i64,
    pub mg: i128,
    /// `None` when the print used nothing from other people's priced spools.
    pub others_value: Option<i128>,
}

pub open spec fn printed_in(entry: LedgerEntry, job_id: i64) -> bool {
    entry.kind != ConsumptionKind::WeighIn && entry.job_id == Some(job_id)
}

/// What a job used, in milligrams.
pub open spec fn job_mg(ledger: Seq<LedgerEntry>, job_id: i64) -> int
    decreases ledger.len(),
{
    if ledger.len() == 0 {
        0
    } else {
        job_mg(ledger.drop_last(), job_id) + if printed_in(ledger.last(), job_id) {
            ledger.last().mg as int
        } else {
            0
        }
    }
}

/// What a job of `user_id` used of other people's priced spools.
pub open spec fn job_others_value(ledger: Seq<LedgerEntry>, job_id: i64, user_id: i64) -> Option<int>
    decreases ledger.len(),
{
    if ledger.len() == 0 {
        None
    } else {
        let before = job_others_value(ledger.drop_last(), job_id, user_id);
        let entry = ledger.last();
        if printed_in(entry, job_id) && entry.value is Some && (entry.spool_owner_id matches Some(
            owner,
        ) && owner != user_id) {
            Some(or_zero(before) + entry.value->0)
        } else {
            before
        }
    }
}

/// The prints of `user_id` that ended from `since` on.
pub open spec fn ended_for(user_id: i64, since: i64) -> spec_fn(Job) -> bool {
    |job: Job| owner_id(job) == Some(user_id) && ended_since(since)(job)
}

pub open spec fn recent_from(ledger: Seq<LedgerEntry>, user_id: i64) -> spec_fn(Job) -> RecentPrint {
    |job: Job|
        RecentPrint {
            job_id: job.id,
            name: job.name,
            state: job.state,
            finished_at: job.finished_at->0,
            mg: job_mg(ledger, job.id) as i128,
            others_value: as_value(job_others_value(ledger, job.id, user_id)),
        }
}

pub open spec fn latest_first() -> spec_fn(RecentPrint, RecentPrint) -> bool {
    |a: RecentPrint, b: RecentPrint|
        a.finished_at > b.finished_at || a.finished_at == b.finished_at && a.job_id >= b.job_id
}

fn sum_job(ledger: &Vec<LedgerEntry>, job_id: i64, user_id: i64) -> (r: (i128, Option<i128>))
    requires
        entries_fit(ledger@),
    ensures
        r.0 == job_mg(ledger@, job_id),
        r.1 == as_value(job_others_value(ledger@, job_id, user_id)),
{
    let mut mg: i128 = 0;
    let mut value: Option<i128> = None;
    let mut i: usize = 0;
    while i < ledger.len()
        invariant
            i <= ledger@.len(),
            entries_fit(ledger@),
            mg == job_mg(ledger@.take(i as int), job_id),
            -0x8000_0000_0000_0000 * i <= mg <= 0x8000_0000_0000_0000 * i,
            value matches Some(v) ==> job_others_value(ledger@.take(i as int), job_id, user_id)
                == Some(v as int) && -ledger_worth(ledger@.take(i as int)) <= v <= ledger_worth(
                ledger@.take(i as int),
            ),
            value is None ==> job_others_value(ledger@.take(i as int), job_id, user_id) is None,
        decreases ledger.len() - i,
    {
        proof {
            lemma_ledger_worth_grows(ledger@, i as int);
            lemma_ledger_worth_grows(ledger@, i + 1);
        }
        assert(ledger@.take(i + 1).drop_last() =~= ledger@.take(i as int));
        let entry = &ledger[i];
        assert(ledger@[i as int] == *entry);
        let of_job = match entry.job_id {
            Some(id) => id == job_id,
            None => false,
        };
        if of_job && entry.kind != ConsumptionKind::WeighIn {
            mg = mg + entry.mg as i128;
            if let Some(owner) = entry.spool_owner_id {
                if let Some(worth) = entry.value {
                    if owner != user_id {
                        let before: i128 = match value {
                            Some(v) => v,
                            None => 0,
                        };
                        value = Some(before + worth);
                    }
                }
            }
        }
        i += 1;
    }
    assert(ledger@.take(i as int) =~= ledger@);
    (mg, value)
}

/// `user_id`'s prints that ended since `since`, newest first; at most `limit` of them, all of
/// them for a negative limit.
pub fn recent_prints(db: &Inventory, jobs: &Jobs, user_id: i64, since: i64, limit: i64) -> (r: Vec<
    RecentPrint,
>)
    requires
        entries_fit(db.ledger@),
    ensures
        ({
            let all = order::sorted(
                jobs.jobs@.filter(ended_for(user_id, since)).map_values(
                    recent_from(db.ledger@, user_id),
                ),
                latest_first(),
            );
            r@ == if 0 <= limit < all.len() {
                all.take(limit as int)
            } else {
                all
            }
        }),
{
    let ghost p = ended_for(user_id, since);
    let ghost show = recent_from(db.ledger@, user_id);
    let mut all: Vec<RecentPrint> = Vec::new();
    proof {
        lists::lemma_filter_ends(jobs.jobs@, p);
    }
    let mut i: usize = 0;
    while i < jobs.jobs.len()
        invariant
            i <= jobs.jobs@.len(),
            entries_fit(db.ledger@),
            p == ended_for(user_id, since),
            show == recent_from(db.ledger@, user_id),
            all@ =~= jobs.jobs@.take(i as int).filter(p).map_values(show),
        decreases jobs.jobs.len() - i,
    {
        proof {
            lists::lemma_filter_step(jobs.jobs@, p, i as int);
        }
        let job = &jobs.jobs[i];
        assert(jobs.jobs@[i as int] == *job);
        let theirs = match job_owner_id(job) {
            Some(id) => id == user_id,
            None => false,
        };
        if theirs && job_is_over(job.state) && job.started_at.is_some() {
            if let Some(finished_at) = job.finished_at {
                if finished_at >= since {
                    let (mg, others_value) = sum_job(&db.ledger, job.id, user_id);
                    all.push(
                        RecentPrint {
                            job_id: job.id,
                            name: job.name.clone(),
                            state: job.state,
                            finished_at,
                            mg,
                            others_value,
                        },
                    );
                }
            }
        }
        i += 1;
    }
    let before = |a: &RecentPrint, b: &RecentPrint| -> (r: bool)
        ensures
            r == latest_first()(*a, *b),
        {
            a.finished_at > b.finished_at || (a.finished_at == b.finished_at && a.job_id
                >= b.job_id)
        };
    let mut sorted = order::sort_by(all, before, Ghost(latest_first()));
    if limit >= 0 && (limit as u64) < sorted.len() as u64 {
        sorted.truncate(limit as usize);
    }
    sorted
}

// ---------------------------------------------------------------------------------------------
// Laws
// ---------------------------------------------------------------------------------------------

/// Filament that somebody used of another's priced spool is owed for, whether its print finished
/// or not: such an entry adds its value to what the one owes the other and to nothing else.
/// Weigh-ins, one's own and shared spools, and spools without a price add nothing.
pub proof fn used_filament_is_owed_for(
    ledger: Seq<LedgerEntry>,
    entry: LedgerEntry,
    user_id: i64,
    owner_id: i64,
)
    ensures
        value_owed(seq![], user_id, owner_id) == 0,
        value_owed(ledger.push(entry), user_id, owner_id) - value_owed(ledger, user_id, owner_id)
            == if (entry.kind == ConsumptionKind::Print || entry.kind == ConsumptionKind::Estimate)
            && entry.user_id == Some(user_id) && entry.spool_owner_id == Some(owner_id) && user_id
            != owner_id && entry.value is Some {
            entry.value->0 as int
        } else {
            0
        },
{
    assert(ledger.push(entry).drop_last() =~= ledger);
}

proof fn lemma_owing(ledger: Seq<LedgerEntry>, user_id: i64, owner_id: i64)
    ensures
        owing(ledger).contains((user_id, owner_id)) <==> exists|i: int|
            0 <= i < ledger.len() && (#[trigger] ledger[i]).kind != ConsumptionKind::WeighIn
                && ledger[i].user_id == Some(user_id) && ledger[i].spool_owner_id == Some(owner_id)
                && user_id != owner_id && ledger[i].value is Some,
    decreases ledger.len(),
{
    if ledger.len() > 0 {
        let front = ledger.drop_last();
        let last = ledger.len() - 1;
        lemma_owing(front, user_id, owner_id);
        assert forall|i: int| 0 <= i < last implies #[trigger] front[i] == ledger[i] by {}
        let before = owing(front);
        let after = owing(ledger);
        if after.contains((user_id, owner_id)) {
            let k = choose|k: int| 0 <= k < after.len() && after[k] == (user_id, owner_id);
            if k < before.len() {
                assert(before[k] == (user_id, owner_id));
                let i = choose|i: int|
                    0 <= i < front.len() && (#[trigger] front[i]).kind != ConsumptionKind::WeighIn
                        && front[i].user_id == Some(user_id) && front[i].spool_owner_id == Some(
                        owner_id,
                    ) && user_id != owner_id && front[i].value is Some;
                assert(ledger[i].value is Some);
            } else {
                assert(ledger[last].value is Some);
            }
        }
        if exists|i: int|
            0 <= i < ledger.len() && (#[trigger] ledger[i]).kind != ConsumptionKind::WeighIn
                && ledger[i].user_id == Some(user_id) && ledger[i].spool_owner_id == Some(owner_id)
                && user_id != owner_id && ledger[i].value is Some {
            let i = choose|i: int|
                0 <= i < ledger.len() && (#[trigger] ledger[i]).kind != ConsumptionKind::WeighIn
                    && ledger[i].user_id == Some(user_id) && ledger[i].spool_owner_id == Some(
                    owner_id,
                ) && user_id != owner_id && ledger[i].value is Some;
            if i < last {
                assert(front[i].value is Some);
                let k = choose|k: int| 0 <= k < before.len() && before[k] == (user_id, owner_id);
                assert(after[k] == (user_id, owner_id));
            } else {
                assert(after[before.len() as int] == (user_id, owner_id));
            }
        }
    }
}

/// Two people stand in the list of what is owed, once, exactly when the one has a priced entry,
/// printed or estimated, from the other's spools.
pub proof fn everyone_who_used_anothers_filament_is_listed(
    ledger: Seq<LedgerEntry>,
    user_id: i64,
    owner_id: i64,
)
    ensures
        ({
            let owed = lists::first_seen(owing(ledger)).map_values(with_value(ledger));
            &&& (exists|k: int|
                0 <= k < owed.len() && (#[trigger] owed[k]).0 == user_id && owed[k].1 == owner_id)
                <==> exists|i: int|
                0 <= i < ledger.len() && ((#[trigger] ledger[i]).kind == ConsumptionKind::Print
                    || ledger[i].kind == ConsumptionKind::Estimate) && ledger[i].user_id == Some(
                    user_id,
                ) && ledger[i].spool_owner_id == Some(owner_id) && user_id != owner_id
                    && ledger[i].value is Some
            &&& forall|k: int, m: int|
                0 <= k < m < owed.len() ==> ((#[trigger] owed[k]).0, owed[k].1) != ((
                #[trigger] owed[m]).0, owed[m].1)
            &&& entries_fit(ledger) ==> forall|k: int|
                0 <= k < owed.len() ==> (#[trigger] owed[k]).2 == value_owed(
                    ledger,
                    owed[k].0,
                    owed[k].1,
                )
        }),
{
    let all = owing(ledger);
    let keys = lists::first_seen(all);
    let owed = keys.map_values(with_value(ledger));
    lemma_owing(ledger, user_id, owner_id);
    lists::first_seen_keeps_each_item_once(all, (user_id, owner_id));
    assert forall|i: int| 0 <= i < ledger.len() implies ((#[trigger] ledger[i]).kind
        != ConsumptionKind::WeighIn <==> ledger[i].kind == ConsumptionKind::Print || ledger[i].kind
        == ConsumptionKind::Estimate) by {}
    assert forall|k: int| 0 <= k < owed.len() implies (#[trigger] owed[k]).0 == keys[k].0
        && owed[k].1 == keys[k].1 by {}
    if keys.contains((user_id, owner_id)) {
        let k = choose|k: int| 0 <= k < keys.len() && keys[k] == (user_id, owner_id);
        assert(owed[k].0 == user_id);
    }
    if exists|k: int|
        0 <= k < owed.len() && (#[trigger] owed[k]).0 == user_id && owed[k].1 == owner_id {
        let k = choose|k: int|
            0 <= k < owed.len() && (#[trigger] owed[k]).0 == user_id && owed[k].1 == owner_id;
        assert(keys[k] == (user_id, owner_id));
    }
    assert forall|k: int, m: int| 0 <= k < m < owed.len() implies ((#[trigger] owed[k]).0, owed[k].1)
        != ((#[trigger] owed[m]).0, owed[m].1) by {
        assert(keys[k] != keys[m]);
    }
    if entries_fit(ledger) {
        assert forall|k: int| 0 <= k < owed.len() implies (#[trigger] owed[k]).2 == value_owed(
            ledger,
            owed[k].0,
            owed[k].1,
        ) by {
            lemma_owed_fits(ledger, owed[k].0, owed[k].1);
        }
    }
}

proof fn lemma_owed_fits(ledger: Seq<LedgerEntry>, user_id: i64, owner_id: i64)
    ensures
        -ledger_worth(ledger) <= value_owed(ledger, user_id, owner_id) <= ledger_worth(ledger),
    decreases ledger.len(),
{
    if ledger.len() > 0 {
        lemma_owed_fits(ledger.drop_last(), user_id, owner_id);
    }
}

/// What is owed counts in full from the debtor to the creditor and against what is owed the other
/// way, a payment counts against what the payer owes, and neither touches anybody else.
pub proof fn debts_and_payments_count_between_two(
    owed: Seq<(i64, i64, i128)>,
    paid: Seq<Settlement>,
    use_of: (i64, i64, i128),
    payment: Settlement,
    low: i64,
    high: i64,
)
    requires
        low != high,
    ensures
        net(seq![], seq![], low, high) == 0,
        net(owed.push(use_of), paid, low, high) - net(owed, paid, low, high) == if use_of.0 == low
            && use_of.1 == high {
            use_of.2 as int
        } else if use_of.0 == high && use_of.1 == low {
            -use_of.2
        } else {
            0
        },
        net(owed, paid.push(payment), low, high) - net(owed, paid, low, high) == if payment.from.0
            == low && payment.to.0 == high {
            -1000 * payment.amount_cents
        } else if payment.from.0 == high && payment.to.0 == low {
            1000 * payment.amount_cents
        } else {
            0
        },
        net(owed, paid, low, high) == -net(owed, paid, high, low),
{
    assert(owed.push(use_of).drop_last() =~= owed);
    assert(paid.push(payment).drop_last() =~= paid);
    lemma_owed_both_ways(owed, low, high);
    lemma_paid_both_ways(paid, low, high);
}

proof fn lemma_owed_both_ways(owed: Seq<(i64, i64, i128)>, low: i64, high: i64)
    requires
        low != high,
    ensures
        owed_between(owed, low, high) == -owed_between(owed, high, low),
    decreases owed.len(),
{
    if owed.len() > 0 {
        lemma_owed_both_ways(owed.drop_last(), low, high);
    }
}

proof fn lemma_paid_both_ways(paid: Seq<Settlement>, low: i64, high: i64)
    requires
        low != high,
    ensures
        paid_between(paid, low, high) == -paid_between(paid, high, low),
    decreases paid.len(),
{
    if paid.len() > 0 {
        lemma_paid_both_ways(paid.drop_last(), low, high);
    }
}

/// A debt is what is left to the nearest cent, of the one to the other; less than half a cent is
/// no debt.
pub proof fn debts_are_rounded_to_the_cent(amount: int, low: i64, high: i64)
    requires
        -9_000_000_000_000_000_000_000 <= amount <= 9_000_000_000_000_000_000_000,
    ensures
        debt_between(amount, low, high) is None <==> -500 < amount < 500,
        debt_between(amount, low, high) matches Some(debt) ==> {
            &&& debt.cents > 0
            &&& amount > 0 ==> debt.debtor == low && debt.creditor == high && -1000 <= 2 * (1000
                * debt.cents - amount) <= 1000
            &&& amount < 0 ==> debt.debtor == high && debt.creditor == low && -1000 <= 2 * (1000
                * debt.cents + amount) <= 1000
        },
{
    num::rounding_misses_by_half_at_most(amount, 1000);
}

proof fn lemma_pair_is_listed(
    owed: Seq<(i64, i64, i128)>,
    paid: Seq<Settlement>,
    low: i64,
    high: i64,
)
    requires
        low < high,
        net(owed, paid, low, high) != 0,
    ensures
        pairs_between(owed, paid).contains((low, high)),
{
    let all = owing_pairs(owed) + paying_pairs(paid);
    lemma_owing_pair(owed, low, high);
    lemma_paying_pair(paid, low, high);
    assert(all.contains((low, high))) by {
        if owing_pairs(owed).contains((low, high)) {
            let k = choose|k: int|
                0 <= k < owing_pairs(owed).len() && owing_pairs(owed)[k] == (low, high);
            assert(all[k] == (low, high));
        } else {
            let k = choose|k: int|
                0 <= k < paying_pairs(paid).len() && paying_pairs(paid)[k] == (low, high);
            assert(all[owing_pairs(owed).len() + k] == (low, high));
        }
    }
    lists::first_seen_keeps_each_item_once(all, (low, high));
    let seen = lists::first_seen(all);
    order::sorting_keeps_every_item(seen, key_order());
    let pairs = pairs_between(owed, paid);
    vstd::seq_lib::to_multiset_contains(seen, (low, high));
    vstd::seq_lib::to_multiset_contains(pairs, (low, high));
}

proof fn lemma_owing_pair(owed: Seq<(i64, i64, i128)>, low: i64, high: i64)
    requires
        low < high,
    ensures
        owed_between(owed, low, high) != 0 ==> owing_pairs(owed).contains((low, high)),
    decreases owed.len(),
{
    if owed.len() > 0 {
        let front = owed.drop_last();
        lemma_owing_pair(front, low, high);
        let before = owing_pairs(front);
        let after = owing_pairs(owed);
        if before.contains((low, high)) {
            let k = choose|k: int| 0 <= k < before.len() && before[k] == (low, high);
            assert(after[k] == (low, high));
        } else if owed_between(owed, low, high) != 0 {
            assert(after[before.len() as int] == (low, high));
        }
    }
}

proof fn lemma_paying_pair(paid: Seq<Settlement>, low: i64, high: i64)
    requires
        low < high,
    ensures
        paid_between(paid, low, high) != 0 ==> paying_pairs(paid).contains((low, high)),
    decreases paid.len(),
{
    if paid.len() > 0 {
        let front = paid.drop_last();
        lemma_paying_pair(front, low, high);
        let before = paying_pairs(front);
        let after = paying_pairs(paid);
        if before.contains((low, high)) {
            let k = choose|k: int| 0 <= k < before.len() && before[k] == (low, high);
            assert(after[k] == (low, high));
        } else if paid_between(paid, low, high) != 0 {
            assert(after[before.len() as int] == (low, high));
        }
    }
}

/// Nobody's debt is forgotten: where half a cent or more is left between two people, the debt is
/// listed, of the one who owes to the one who is owed.
pub proof fn no_debt_is_forgotten(
    owed: Seq<(i64, i64, i128)>,
    paid: Seq<Settlement>,
    debtor: i64,
    creditor: i64,
)
    requires
        debtor != creditor,
        500 <= net(owed, paid, debtor, creditor) <= 9_000_000_000_000_000_000_000,
    ensures
        exists|k: int|
            0 <= k < all_debts(owed, paid).len() && (#[trigger] all_debts(owed, paid)[k]).debtor
                == debtor && all_debts(owed, paid)[k].creditor == creditor && -1000 <= 2 * (1000
                * all_debts(owed, paid)[k].cents - net(owed, paid, debtor, creditor)) <= 1000,
{
    lemma_owed_both_ways(owed, debtor, creditor);
    lemma_paid_both_ways(paid, debtor, creditor);
    let (low, high) = pair_key(debtor, creditor);
    lemma_pair_is_listed(owed, paid, low, high);
    let pairs = pairs_between(owed, paid);
    let k = choose|k: int| 0 <= k < pairs.len() && pairs[k] == (low, high);
    debts_are_rounded_to_the_cent(net(owed, paid, low, high), low, high);
    let before = debts(owed, paid, pairs, k);
    let debt = debt_between(net(owed, paid, low, high), low, high)->0;
    assert(debts(owed, paid, pairs, k + 1)[before.len() as int] == debt);
    lemma_debts_keep(owed, paid, pairs, k + 1, pairs.len() as int, before.len() as int);
    assert(all_debts(owed, paid)[before.len() as int] == debt);
}

proof fn lemma_debts_keep(
    owed: Seq<(i64, i64, i128)>,
    paid: Seq<Settlement>,
    pairs: Seq<(i64, i64)>,
    a: int,
    b: int,
    i: int,
)
    requires
        a <= b,
        0 <= i < debts(owed, paid, pairs, a).len(),
    ensures
        i < debts(owed, paid, pairs, b).len(),
        debts(owed, paid, pairs, b)[i] == debts(owed, paid, pairs, a)[i],
    decreases b - a,
{
    if a < b && b > 0 {
        lemma_debts_keep(owed, paid, pairs, a, b - 1, i);
    }
}

/// Filament that somebody printed with is their own, shared or another's by whose spool it came
/// from; what a weigh-in found missing nobody printed.
pub proof fn printed_filament_has_an_origin(entry: Use)
    ensures
        entry.origin() is None <==> entry.kind == ConsumptionKind::WeighIn || entry.user_id is None,
        entry.origin() == Some(Whose::Shared) <==> entry.kind != ConsumptionKind::WeighIn
            && entry.user_id is Some && entry.owner_id is None,
        entry.origin() == Some(Whose::Own) <==> entry.kind != ConsumptionKind::WeighIn
            && entry.user_id is Some && entry.owner_id == entry.user_id,
        entry.origin() == Some(Whose::Others) <==> entry.kind != ConsumptionKind::WeighIn
            && entry.user_id is Some && entry.owner_id is Some && entry.owner_id != entry.user_id,
{
}

proof fn lemma_total_is_bounded(uses: Seq<Use>, p: spec_fn(Use) -> bool)
    ensures
        -0x8000_0000_0000_0000 * uses.len() <= total_mg(uses, p) <= 0x8000_0000_0000_0000
            * uses.len(),
    decreases uses.len(),
{
    if uses.len() > 0 {
        lemma_total_is_bounded(uses.drop_last(), p);
    }
}

proof fn lemma_value_is_bounded(uses: Seq<Use>, p: spec_fn(Use) -> bool)
    ensures
        -worth(uses) <= or_zero(total_value(uses, p)) <= worth(uses),
        worth(uses) >= 0,
    decreases uses.len(),
{
    if uses.len() > 0 {
        lemma_value_is_bounded(uses.drop_last(), p);
    }
}

/// An entry counts in its user's figures, by whose spool it came from, by its weight, and as waste
/// where the print did not finish; another's filament counts with its value. It counts in nobody
/// else's, and a weigh-in counts in none.
pub proof fn an_entry_counts_for_its_user(
    uses: Seq<Use>,
    prints: Seq<Print>,
    entry: Use,
    user_id: i64,
)
    requires
        uses.len() < 0x1000_0000_0000,
        values_fit(uses.push(entry)),
    ensures
        ({
            let before = person_of(uses, prints, user_id);
            let after = person_of(uses.push(entry), prints, user_id);
            let theirs = entry.kind != ConsumptionKind::WeighIn && entry.user_id == Some(user_id);
            let own = theirs && entry.owner_id == Some(user_id);
            let shared = theirs && entry.owner_id is None;
            let others = theirs && entry.owner_id is Some && entry.owner_id != Some(user_id);
            let mg = |counts: bool|
                if counts {
                    entry.mg as int
                } else {
                    0
                };
            &&& after.user_id == user_id
            &&& after.own_mg - before.own_mg == mg(own)
            &&& after.shared_mg - before.shared_mg == mg(shared)
            &&& after.others_mg - before.others_mg == mg(others)
            &&& after.total_mg - before.total_mg == mg(theirs)
            &&& after.wasted_mg - before.wasted_mg == mg(
                theirs && entry.kind == ConsumptionKind::Estimate,
            )
            &&& after.others_value - before.others_value == if others && entry.value is Some {
                entry.value->0 as int
            } else {
                0
            }
            &&& after.done == before.done && after.failed == before.failed && after.cancelled
                == before.cancelled && after.print_seconds == before.print_seconds
        }),
{
    let all = uses.push(entry);
    assert(all.drop_last() =~= uses);
    lemma_total_is_bounded(uses, used_from(user_id, Whose::Own));
    lemma_total_is_bounded(uses, used_from(user_id, Whose::Shared));
    lemma_total_is_bounded(uses, used_from(user_id, Whose::Others));
    lemma_total_is_bounded(uses, wasted_by(user_id));
    lemma_value_is_bounded(uses, used_from(user_id, Whose::Others));
    lemma_value_is_bounded(all, used_from(user_id, Whose::Others));
}

/// A print counts for whoever it belongs to, by how it ended and with the time it took, and for
/// nobody else.
pub proof fn a_print_counts_for_its_owner(
    uses: Seq<Use>,
    prints: Seq<Print>,
    print: Print,
    user_id: i64,
)
    requires
        prints.len() < 0x1000_0000_0000,
    ensures
        ({
            let before = person_of(uses, prints, user_id);
            let after = person_of(uses, prints.push(print), user_id);
            let theirs = print.owner_id == Some(user_id);
            let one = |state: JobState|
                if theirs && print.state == state {
                    1int
                } else {
                    0
                };
            let over = print.state == JobState::Done || print.state == JobState::Failed
                || print.state == JobState::Cancelled;
            &&& after.done - before.done == one(JobState::Done)
            &&& after.failed - before.failed == one(JobState::Failed)
            &&& after.cancelled - before.cancelled == one(JobState::Cancelled)
            &&& after.print_seconds - before.print_seconds == if theirs && over {
                print.seconds as int
            } else {
                0
            }
            &&& after.own_mg == before.own_mg && after.total_mg == before.total_mg
        }),
{
    assert(prints.push(print).drop_last() =~= prints);
    lemma_count_is_bounded(prints, ended_as(user_id, JobState::Done));
    lemma_count_is_bounded(prints, ended_as(user_id, JobState::Failed));
    lemma_count_is_bounded(prints, ended_as(user_id, JobState::Cancelled));
    lemma_seconds_are_bounded(prints, ended_by(user_id));
}

proof fn lemma_count_is_bounded(prints: Seq<Print>, p: spec_fn(Print) -> bool)
    ensures
        count_prints(prints, p) <= prints.len(),
    decreases prints.len(),
{
    if prints.len() > 0 {
        lemma_count_is_bounded(prints.drop_last(), p);
    }
}

proof fn lemma_seconds_are_bounded(prints: Seq<Print>, p: spec_fn(Print) -> bool)
    ensures
        -0x8000_0000_0000_0000 * prints.len() <= total_seconds(prints, p) <= 0x8000_0000_0000_0000
            * prints.len(),
    decreases prints.len(),
{
    if prints.len() > 0 {
        lemma_seconds_are_bounded(prints.drop_last(), p);
    }
}

/// People are listed with most filament first, then most prints, then the lower id.
pub proof fn who_used_most_comes_first(a: Person, b: Person)
    ensures
        a.total_mg > b.total_mg ==> most_first()(a, b) && !most_first()(b, a),
        a.total_mg == b.total_mg && a.done + a.failed + a.cancelled > b.done + b.failed
            + b.cancelled ==> most_first()(a, b) && !most_first()(b, a),
        a.total_mg == b.total_mg && a.done + a.failed + a.cancelled == b.done + b.failed
            + b.cancelled && a.user_id < b.user_id ==> most_first()(a, b) && !most_first()(b, a),
{
}

/// A print counts in the statistics where it reached the printer and ended in the period, and took
/// the time from its start to its end.
pub proof fn prints_count_from_their_start_to_their_end(job: Job, since: i64)
    ensures
        ended_since(since)(job) <==> (job.state == JobState::Done || job.state == JobState::Failed
            || job.state == JobState::Cancelled) && job.started_at is Some && job.finished_at is Some
            && job.finished_at->0 >= since,
        ended_since(since)(job) ==> {
            let print = print_from()(job);
            &&& print.state == job.state
            &&& print.finished_at == job.finished_at->0
            &&& print.owner_id == match job.owner {
                Some(owner) => Some(owner.0),
                None => None,
            }
            &&& 0 <= job.finished_at->0 - job.started_at->0 <= i64::MAX ==> print.seconds
                == job.finished_at->0 - job.started_at->0
            &&& job.finished_at->0 < job.started_at->0 ==> print.seconds == 0
        },
{
}

/// An entry counts in the statistics from its time on, with whose it was and what it was worth
/// when it was written.
pub proof fn entries_count_as_they_were_written(spools: Seq<Spool>, entry: LedgerEntry, since: i64)
    ensures
        used_since(spools, since)(entry) ==> entry.created_at >= since,
        entry.created_at >= since && inventory::spool_at(spools, entry.spool_id, 0) < spools.len()
            ==> used_since(spools, since)(entry),
        ({
            let used = use_from(spools)(entry);
            &&& used.user_id == entry.user_id && used.owner_id == entry.spool_owner_id
            &&& used.kind == entry.kind && used.mg == entry.mg && used.value == entry.value
            &&& used.at == entry.created_at
            &&& inventory::spool_at(spools, entry.spool_id, 0) < spools.len() ==> exists|i: int|
                0 <= i < spools.len() && (#[trigger] spools[i]).id == entry.spool_id
                    && used.material == spools[i].material
        }),
{
    inventory::lemma_spool_at(spools, entry.spool_id, 0);
}

/// Thirty days end now, twelve months begin with the first of a month, and all time begins with
/// nothing.
pub proof fn periods_begin_where_they_say(now: i64, zone: Zone)
    ensures
        Period::Last30Days.start(now, zone) == now - 2_592_000,
        Period::AllTime.start(now, zone) == 0,
        ({
            let today = zone.date_at(now as int);
            let first = if today.month == 12 {
                Date { year: today.year, month: 1, day: 1 }
            } else {
                Date { year: (today.year - 1) as i16, month: (today.month + 1) as u8, day: 1 }
            };
            today.year > -9999 && zone.instant_at(first, 0) is Some
                ==> Period::Last12Months.start(now, zone) == zone.instant_at(first, 0)->0
        }),
        Period::Last30Days.steps() is Day,
        Period::Last12Months.steps() is Month,
        Period::AllTime.steps() is Month,
{
}

/// What a job used is what its printed and estimated entries say, and what of that was other
/// people's counts with its value.
pub proof fn a_job_used_what_its_entries_say(
    ledger: Seq<LedgerEntry>,
    entry: LedgerEntry,
    job_id: i64,
    user_id: i64,
)
    ensures
        job_mg(seq![], job_id) == 0,
        job_others_value(seq![], job_id, user_id) is None,
        ({
            let of_job = (entry.kind == ConsumptionKind::Print || entry.kind
                == ConsumptionKind::Estimate) && entry.job_id == Some(job_id);
            let of_others = of_job && entry.value is Some && entry.spool_owner_id is Some
                && entry.spool_owner_id != Some(user_id);
            let before = job_others_value(ledger, job_id, user_id);
            &&& job_mg(ledger.push(entry), job_id) - job_mg(ledger, job_id) == if of_job {
                entry.mg as int
            } else {
                0
            }
            &&& !of_others ==> job_others_value(ledger.push(entry), job_id, user_id) == before
            &&& of_others ==> job_others_value(ledger.push(entry), job_id, user_id) == Some(
                entry.value->0 + match before {
                    Some(value) => value,
                    None => 0,
                },
            )
        }),
{
    assert(ledger.push(entry).drop_last() =~= ledger);
}

/// Deleting a payment deletes that payment and no other.
pub proof fn deleting_a_payment_leaves_the_others(rows: Seq<Payment>, id: i64, row: Payment)
    ensures
        rows.filter(with_other_payment_id(id)).contains(row) <==> rows.contains(row) && row.id != id,
{
    lists::filtering_keeps_what_is_picked(rows, with_other_payment_id(id), row);
}

/// The first instant of the figures is the earliest there is.
pub proof fn figures_begin_with_the_earliest(uses: Seq<Use>, prints: Seq<Print>, now: i64)
    ensures
        forall|i: int|
            0 <= i < uses.len() ==> first_instant(uses, prints, now) <= (#[trigger] uses[i]).at,
        forall|i: int|
            0 <= i < prints.len() ==> first_instant(uses, prints, now) <= (
            #[trigger] prints[i]).finished_at,
        uses.len() == 0 && prints.len() == 0 ==> first_instant(uses, prints, now) == now,
{
    assert forall|i: int| 0 <= i < uses.len() implies first_instant(uses, prints, now) <= (
    #[trigger] uses[i]).at by {
        lemma_earliest_use(uses, i);
    }
    assert forall|i: int| 0 <= i < prints.len() implies first_instant(uses, prints, now) <= (
    #[trigger] prints[i]).finished_at by {
        lemma_earliest_print(prints, i);
    }
}

proof fn lemma_earliest_use(uses: Seq<Use>, i: int)
    requires
        0 <= i < uses.len(),
    ensures
        earliest_use(uses) matches Some(at) && at <= uses[i].at,
    decreases uses.len(),
{
    if i < uses.len() - 1 {
        lemma_earliest_use(uses.drop_last(), i);
    }
}

proof fn lemma_earliest_print(prints: Seq<Print>, i: int)
    requires
        0 <= i < prints.len(),
    ensures
        earliest_print(prints) matches Some(at) && at <= prints[i].finished_at,
    decreases prints.len(),
{
    if i < prints.len() - 1 {
        lemma_earliest_print(prints.drop_last(), i);
    }
}

/// What counts for whom: a use for its user and the owner of the spool, a weigh-in for the owner
/// alone, a print for its owner.
pub proof fn entries_are_told_apart(
    entry: Use,
    user_id: i64,
    owner: Option<i64>,
    print: Print,
    material: Seq<char>,
)
    ensures
        used_of(user_id, owner)(entry) <==> entry.kind != ConsumptionKind::WeighIn && entry.user_id
            == Some(user_id) && entry.owner_id == owner,
        weighed_of(owner)(entry) <==> entry.kind == ConsumptionKind::WeighIn && entry.owner_id
            == owner,
        of_material(text::lower(material))(entry) ==> entry.kind != ConsumptionKind::WeighIn
            && entry.user_id is Some && text::lower(text::trim(entry.material@)) == text::lower(
            material,
        ),
        entry.kind != ConsumptionKind::WeighIn && entry.user_id is Some && text::lower(
            text::trim(entry.material@),
        ) == text::lower(material) ==> of_material(text::lower(material))(entry),
        print_of(user_id)(print) <==> print.owner_id == Some(user_id),
{
}

/// A total grows by what is picked, and by nothing else.
pub proof fn totals_grow_by_what_is_picked(uses: Seq<Use>, p: spec_fn(Use) -> bool, entry: Use)
    ensures
        total_mg(uses.push(entry), p) == total_mg(uses, p) + if p(entry) {
            entry.mg as int
        } else {
            0
        },
        total_mg(Seq::empty(), p) == 0,
{
    assert(uses.push(entry).drop_last() =~= uses);
}

/// Between a user and an owner there is a pair exactly where the user used of the owner's filament,
/// and there is one only.
pub proof fn there_is_a_pair_where_something_was_used(
    uses: Seq<Use>,
    user_id: i64,
    owner: Option<i64>,
)
    ensures
        ({
            let keys = lists::first_seen(uses_between(uses));
            &&& keys.contains((user_id, owner)) <==> exists|i: int|
                0 <= i < uses.len() && (#[trigger] uses[i]).kind != ConsumptionKind::WeighIn
                    && uses[i].user_id == Some(user_id) && uses[i].owner_id == owner
            &&& pairs_of(uses).len() == keys.len()
            &&& keys.contains((user_id, owner)) ==> pairs_of(uses).contains(
                pair_of(uses, user_id, owner),
            )
            &&& forall|i: int, j: int|
                0 <= i < j < keys.len() ==> #[trigger] keys[i] != #[trigger] keys[j]
        }),
        pair_of(uses, user_id, owner).user_id == user_id,
        pair_of(uses, user_id, owner).owner_id == owner,
{
    let keys = lists::first_seen(uses_between(uses));
    let f = |key: (i64, Option<i64>)| pair_of(uses, key.0, key.1);
    lists::first_seen_keeps_each_item_once(uses_between(uses), (user_id, owner));
    lemma_uses_between(uses, user_id, owner);
    order::sorting_holds_the_same_items(
        keys.map_values(f),
        pair_order(),
        pair_of(uses, user_id, owner),
    );
    if keys.contains((user_id, owner)) {
        let i = choose|i: int| 0 <= i < keys.len() && keys[i] == (user_id, owner);
        assert(keys.map_values(f)[i] == pair_of(uses, user_id, owner));
    }
}

proof fn lemma_uses_between(uses: Seq<Use>, user_id: i64, owner: Option<i64>)
    ensures
        uses_between(uses).contains((user_id, owner)) <==> exists|i: int|
            0 <= i < uses.len() && (#[trigger] uses[i]).kind != ConsumptionKind::WeighIn
                && uses[i].user_id == Some(user_id) && uses[i].owner_id == owner,
    decreases uses.len(),
{
    if uses.len() > 0 {
        let front = uses.drop_last();
        let before = uses_between(front);
        let all = uses_between(uses);
        let key = (user_id, owner);
        lemma_uses_between(front, user_id, owner);
        if all.contains(key) {
            let k = choose|k: int| 0 <= k < all.len() && all[k] == key;
            if k < before.len() {
                assert(before[k] == key);
                let i = choose|i: int|
                    0 <= i < front.len() && (#[trigger] front[i]).kind != ConsumptionKind::WeighIn
                        && front[i].user_id == Some(user_id) && front[i].owner_id == owner;
                assert(uses[i] == front[i]);
            } else {
                assert(uses[uses.len() - 1].user_id == Some(user_id));
            }
        }
        if exists|i: int|
            0 <= i < uses.len() && (#[trigger] uses[i]).kind != ConsumptionKind::WeighIn
                && uses[i].user_id == Some(user_id) && uses[i].owner_id == owner {
            let i = choose|i: int|
                0 <= i < uses.len() && (#[trigger] uses[i]).kind != ConsumptionKind::WeighIn
                    && uses[i].user_id == Some(user_id) && uses[i].owner_id == owner;
            if i < front.len() {
                assert(front[i] == uses[i]);
                let k = choose|k: int| 0 <= k < before.len() && before[k] == key;
                assert(all[k] == key);
            } else {
                assert(all[all.len() - 1] == key);
            }
        }
    }
}

/// Weigh-ins are told of for every owner whose spools were weighed, and for no other.
pub proof fn weighed_spools_are_told_of(uses: Seq<Use>, owner: Option<i64>)
    ensures
        weighed(uses).contains(owner) <==> exists|i: int|
            0 <= i < uses.len() && (#[trigger] uses[i]).kind == ConsumptionKind::WeighIn
                && uses[i].owner_id == owner,
        unaccounted_in(uses).len() == lists::first_seen(weighed(uses)).len(),
        weighed(uses).contains(owner) ==> unaccounted_in(uses).contains(
            unaccounted_of(uses, owner),
        ),
        unaccounted_of(uses, owner).owner_id == owner,
{
    lemma_weighed(uses, owner);
    let keys = lists::first_seen(weighed(uses));
    let f = |owner: Option<i64>| unaccounted_of(uses, owner);
    lists::first_seen_keeps_each_item_once(weighed(uses), owner);
    order::sorting_holds_the_same_items(
        keys.map_values(f),
        unaccounted_order(),
        unaccounted_of(uses, owner),
    );
    if keys.contains(owner) {
        let i = choose|i: int| 0 <= i < keys.len() && keys[i] == owner;
        assert(keys.map_values(f)[i] == unaccounted_of(uses, owner));
    }
}

proof fn lemma_weighed(uses: Seq<Use>, owner: Option<i64>)
    ensures
        weighed(uses).contains(owner) <==> exists|i: int|
            0 <= i < uses.len() && (#[trigger] uses[i]).kind == ConsumptionKind::WeighIn
                && uses[i].owner_id == owner,
    decreases uses.len(),
{
    if uses.len() > 0 {
        let front = uses.drop_last();
        let before = weighed(front);
        let all = weighed(uses);
        lemma_weighed(front, owner);
        if all.contains(owner) {
            let k = choose|k: int| 0 <= k < all.len() && all[k] == owner;
            if k < before.len() {
                assert(before[k] == owner);
                let i = choose|i: int|
                    0 <= i < front.len() && (#[trigger] front[i]).kind == ConsumptionKind::WeighIn
                        && front[i].owner_id == owner;
                assert(uses[i] == front[i]);
            } else {
                assert(uses[uses.len() - 1].owner_id == owner);
            }
        }
        if exists|i: int|
            0 <= i < uses.len() && (#[trigger] uses[i]).kind == ConsumptionKind::WeighIn
                && uses[i].owner_id == owner {
            let i = choose|i: int|
                0 <= i < uses.len() && (#[trigger] uses[i]).kind == ConsumptionKind::WeighIn
                    && uses[i].owner_id == owner;
            if i < front.len() {
                assert(front[i] == uses[i]);
                let k = choose|k: int| 0 <= k < before.len() && before[k] == owner;
                assert(all[k] == owner);
            } else {
                assert(all[all.len() - 1] == owner);
            }
        }
    }
}

/// Every material that was printed is listed, once, whatever its capitals.
pub proof fn printed_materials_are_listed_once(uses: Seq<Use>, i: int)
    requires
        0 <= i < uses.len(),
    ensures
        uses[i].kind != ConsumptionKind::WeighIn && uses[i].user_id is Some ==> exists|k: int|
            0 <= k < material_names(uses).len() && text::lower(
                #[trigger] material_names(uses)[k],
            ) == text::lower(text::trim(uses[i].material@)),
        forall|j: int, k: int|
            0 <= j < k < material_names(uses).len() ==> text::lower(
                #[trigger] material_names(uses)[j],
            ) != text::lower(#[trigger] material_names(uses)[k]),
    decreases uses.len(),
{
    let front = uses.drop_last();
    let before = material_names(front);
    let all = material_names(uses);
    if front.len() > 0 {
        printed_materials_are_listed_once(front, if i < front.len() { i } else { 0 });
    } else {
        assert(before.len() == 0);
    }
    if uses[i].kind != ConsumptionKind::WeighIn && uses[i].user_id is Some {
        let key = text::lower(text::trim(uses[i].material@));
        if i < front.len() {
            let k = choose|k: int|
                0 <= k < before.len() && text::lower(#[trigger] before[k]) == key;
            assert(all[k] == before[k]);
        } else if is_named(before, key) {
            let k = choose|k: int|
                0 <= k < before.len() && text::lower(#[trigger] before[k]) == key;
            assert(all[k] == before[k]);
        } else {
            assert(text::lower(all[all.len() - 1]) == key);
        }
    }
    assert forall|j: int, k: int| 0 <= j < k < all.len() implies text::lower(#[trigger] all[j])
        != text::lower(#[trigger] all[k]) by {
        assert(all[j] == before[j]);
        if k < before.len() {
            assert(all[k] == before[k]);
        }
    }
}

/// A payment is shown as it was recorded, from who paid to who was paid, the latest first.
pub proof fn payments_are_shown_as_recorded(db: Accounts, row: Payment, other: Payment)
    ensures
        ({
            let shown = named_payment(db)(row);
            &&& shown.from.0 == row.from_user
            &&& shown.to.0 == row.to_user
            &&& shown.amount_cents == row.amount_cents
            &&& shown.id == row.id && shown.created_at == row.created_at
            &&& row.recorded_by is None ==> shown.recorded_by is None
        }),
        row.created_at > other.created_at ==> newest_payment_first()(
            named_payment(db)(row),
            named_payment(db)(other),
        ) && !newest_payment_first()(named_payment(db)(other), named_payment(db)(row)),
        is_between_users(db)(row) <==> accounts::account_at(db.accounts@, row.from_user, 0)
            < db.accounts@.len() && accounts::account_at(db.accounts@, row.to_user, 0)
            < db.accounts@.len(),
{
}

/// A new payment has a number that no other has.
pub proof fn new_payments_have_a_number_of_their_own(rows: Seq<Payment>, i: int)
    ensures
        0 <= i < rows.len() ==> rows[i].id < next_payment_id(rows),
        next_payment_id(rows) >= 1,
    decreases rows.len(),
{
    if rows.len() > 0 {
        new_payments_have_a_number_of_their_own(rows.drop_last(), i);
    }
}

/// The latest prints come first.
pub proof fn the_latest_print_comes_first(a: RecentPrint, b: RecentPrint)
    ensures
        a.finished_at > b.finished_at ==> latest_first()(a, b) && !latest_first()(b, a),
        a.finished_at == b.finished_at && a.job_id > b.job_id ==> latest_first()(a, b)
            && !latest_first()(b, a),
{
}

/// The periods of a chart follow one another without a gap, the first from where the chart begins
/// and the last one the last that begins before its end.
pub proof fn periods_follow_one_another(
    summary: Summary,
    uses: Seq<Use>,
    zone: Zone,
    steps: Granularity,
    first: Date,
    last: Date,
    i: int,
)
    requires
        summary.buckets_cover(uses, zone, steps, first, last),
        0 <= i < summary.buckets@.len(),
    ensures
        summary.buckets@[0].start == first,
        summary.buckets@[i].start.at_or_before(last),
        i + 1 < summary.buckets@.len() && steps == Granularity::Day
            ==> summary.buckets@[i].start.next_day() == Some(summary.buckets@[i + 1].start),
        i + 1 < summary.buckets@.len() && steps == Granularity::Month
            ==> summary.buckets@[i].start.next_month() == Some(summary.buckets@[i + 1].start),
{
    assert(summary.buckets@[0].is_nth(uses, zone, steps, first, last, 0));
    assert(summary.buckets@[i].is_nth(uses, zone, steps, first, last, i));
    if i + 1 < summary.buckets@.len() {
        assert(summary.buckets@[i + 1].is_nth(uses, zone, steps, first, last, i + 1));
    }
}

/// Thirty days are shown day by day, longer times month by month.
pub proof fn long_times_are_shown_by_month(period: Period)
    ensures
        period == Period::Last30Days ==> period.steps() == Granularity::Day,
        period == Period::Last12Months || period == Period::AllTime ==> period.steps()
            == Granularity::Month,
{
}

/// What was printed most of comes first.
pub proof fn the_most_printed_material_comes_first(a: (Seq<char>, i128), b: (Seq<char>, i128))
    ensures
        a.1 > b.1 ==> material_order()(a, b) && !material_order()(b, a),
{
}

/// A period of a chart holds what was used in it: own first, then shared, then what was another's,
/// and for each user what they used.
pub proof fn a_period_holds_what_was_used_in_it(
    bucket: Bucket,
    uses: Seq<Use>,
    zone: Zone,
    steps: Granularity,
    start: Date,
    k: int,
)
    requires
        bucket.holds(uses, zone, steps, start),
    ensures
        ({
            let within = |entry: Use|
                entry.kind != ConsumptionKind::WeighIn && entry.user_id is Some && steps.from(
                    zone.date_at(entry.at as int),
                ) == start;
            &&& bucket.start == start
            &&& bucket.by_whose@[0] == total_mg(
                uses,
                |entry: Use| within(entry) && entry.owner_id == entry.user_id,
            )
            &&& bucket.by_whose@[1] == total_mg(
                uses,
                |entry: Use| within(entry) && entry.owner_id is None,
            )
            &&& bucket.by_whose@[2] == total_mg(
                uses,
                |entry: Use|
                    within(entry) && entry.owner_id is Some && entry.owner_id != entry.user_id,
            )
            &&& 0 <= k < bucket.by_user@.len() ==> bucket.by_user@[k].1 == total_mg(
                uses,
                |entry: Use| within(entry) && entry.user_id == Some(bucket.by_user@[k].0),
            ) as i128
        }),
{
    let within = |entry: Use|
        entry.kind != ConsumptionKind::WeighIn && entry.user_id is Some && steps.from(
            zone.date_at(entry.at as int),
        ) == start;
    assert((|entry: Use| within(entry) && entry.owner_id == entry.user_id) =~= used_in_from(
        zone,
        steps,
        start,
        Whose::Own,
    ));
    assert((|entry: Use| within(entry) && entry.owner_id is None) =~= used_in_from(
        zone,
        steps,
        start,
        Whose::Shared,
    ));
    assert((|entry: Use|
        within(entry) && entry.owner_id is Some && entry.owner_id != entry.user_id) =~= used_in_from(
        zone,
        steps,
        start,
        Whose::Others,
    ));
    if 0 <= k < bucket.by_user@.len() {
        let id = bucket.by_user@[k].0;
        assert((|entry: Use| within(entry) && entry.user_id == Some(id)) =~= used_in_by(
            zone,
            steps,
            start,
            id,
        ));
    }
}

/// What was one's own comes first, then what was shared, then what was another's.
pub proof fn own_filament_comes_first(whose: Whose)
    ensures
        Whose::Own.place() == 0 && Whose::Shared.place() == 1 && Whose::Others.place() == 2,
        0 <= whose.place() < 3,
{
}

} // verus!

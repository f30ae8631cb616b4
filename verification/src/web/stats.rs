//! Who printed what, and who owes whom: the statistics pages.
//!
//! Weights are in milligrams and values in thousandths of a cent.

use vstd::prelude::*;

use crate::accounts::{self, Accounts, User};
use crate::calendar::{self, Date};
use crate::inventory;
use crate::num;
use crate::order;
use crate::stats::{
    self, Bucket, Debt, Granularity, Pair, Period, Person, RecentPrint, Settlement, Summary,
    Unaccounted, Whose,
};
use crate::text;
use crate::web::chart::{self, BarChart, BarInput, Series};
use crate::web::error::AppError;
use crate::web::views;
use crate::zone::Zone;

verus! {

pub const RECENT_PAYMENTS: usize = 20;

pub const RECENT_PRINTS: i64 = 20;

// ---------------------------------------------------------------------------------------------
// Amounts
// ---------------------------------------------------------------------------------------------

/// Hundredths without the zeros at their end.
pub open spec fn hundredths_text(n: int) -> Seq<char> {
    let size = if n < 0 {
        -n
    } else {
        n
    };
    let sign = if n < 0 {
        "-"@
    } else {
        ""@
    };
    let rest = size % 100;
    sign + text::decimal((size / 100) as nat) + if rest == 0 {
        seq![]
    } else if rest % 10 == 0 {
        seq!['.', text::digit_char(rest / 10)]
    } else {
        seq!['.', text::digit_char(rest / 10), text::digit_char(rest % 10)]
    }
}

fn push_hundredths(out: &mut String, n: i128)
    requires
        n > i128::MIN,
    ensures
        final(out)@ == old(out)@ + hundredths_text(n as int),
{
    let mut size: i128 = n;
    if n < 0 {
        out.append("-");
        size = -n;
    }
    text::push_decimal_large(out, (size / 100) as u128);
    let rest: i128 = size % 100;
    if rest != 0 {
        out.push('.');
        out.push(text::char_of_digit((rest / 10) as u8));
        if rest % 10 != 0 {
            out.push(text::char_of_digit((rest % 10) as u8));
        }
    }
    proof {
        reveal_strlit("");
        assert(out@ =~= old(out)@ + hundredths_text(n as int));
    }
}

/// Grams below a kilogram, kilograms to two decimals above. A gram is `d` units.
pub open spec fn weight_text(n: int, d: int) -> Seq<char> {
    if n >= 1000 * d || n <= -1000 * d {
        hundredths_text(num::rounded(n, 10 * d)) + " kg"@
    } else {
        text::decimal_int(num::rounded(n, d)) + " g"@
    }
}

fn weigh(n: i128, d: i128) -> (r: String)
    requires
        n > i128::MIN,
        2 <= d <= 1_000_000,
    ensures
        r@ == weight_text(n as int, d as int),
{
    let mut out = String::new();
    if n >= 1000 * d || n <= -(1000 * d) {
        push_hundredths(&mut out, num::round_large(n, 10 * d));
        out.append(" kg");
    } else {
        text::push_decimal_int_large(&mut out, num::round_large(n, d));
        out.append(" g");
    }
    assert(out@ =~= weight_text(n as int, d as int));
    out
}

/// Grams below a kilogram, kilograms to two decimals above.
pub fn weight(mg: i128) -> (r: String)
    requires
        mg > i128::MIN,
    ensures
        r@ == weight_text(mg as int, 1000),
{
    weigh(mg, 1000)
}

/// The same, of micrograms.
pub fn weight_label(micrograms: i128) -> (r: String)
    requires
        micrograms > i128::MIN,
    ensures
        r@ == weight_text(micrograms as int, 1_000_000),
{
    weigh(micrograms, 1_000_000)
}

pub open spec fn money_text(value: int) -> Seq<char> {
    let cents = stats::whole_cents(value);
    if cents < 0 {
        "-"@ + inventory::price_text(-cents)
    } else {
        inventory::price_text(cents)
    }
}

/// An amount in thousandths of a cent.
pub fn money(value: i128) -> (r: String)
    requires
        value > i128::MIN,
    ensures
        r@ == money_text(value as int),
{
    let rounded: i128 = num::round_large(value, 1000);
    let cents: i64 = if rounded > 0x7fff_ffff_ffff_ffff {
        i64::MAX
    } else if rounded < -0x7fff_ffff_ffff_ffff {
        -i64::MAX
    } else {
        rounded as i64
    };
    if cents < 0 {
        let mut out = String::new();
        out.append("-");
        let amount = inventory::format_price(-cents);
        out.append(amount.as_str());
        assert(out@ =~= money_text(value as int));
        out
    } else {
        inventory::format_price(cents)
    }
}

/// A share in whole percent.
pub open spec fn percent_text(part: int, whole: int) -> Seq<char> {
    if whole > 0 {
        if part < 0 {
            "-"@ + text::decimal(num::rounded_even(-100 * part, whole) as nat) + "%"@
        } else {
            text::decimal(num::rounded_even(100 * part, whole) as nat) + "%"@
        }
    } else {
        "–"@
    }
}

pub fn percent(part: i128, whole: i128) -> (r: String)
    requires
        -i128::MAX <= 100 * part <= i128::MAX,
    ensures
        r@ == percent_text(part as int, whole as int),
{
    if whole <= 0 {
        return "–".to_string();
    }
    let mut out = String::new();
    let n: i128 = if part < 0 {
        out.append("-");
        -100 * part
    } else {
        100 * part
    };
    let q: i128 = n / whole;
    let rest: i128 = n % whole;
    proof {
        assert(0 <= q <= n && 0 <= rest < whole) by (nonlinear_arith)
            requires
                n >= 0,
                whole > 0,
                q == n / whole,
                rest == n % whole,
        ;
    }
    let rounded: i128 = if rest < whole - rest || (rest == whole - rest && q % 2 == 0) {
        q
    } else {
        q + 1
    };
    text::push_decimal_large(&mut out, rounded as u128);
    out.append("%");
    assert(out@ =~= percent_text(part as int, whole as int));
    out
}

pub open spec fn time_text(seconds: int) -> Seq<char> {
    if seconds > 0 {
        views::duration_text(seconds)
    } else {
        "–"@
    }
}

pub fn duration(seconds: i128) -> (r: String)
    requires
        seconds <= i128::MAX - 1_000,
    ensures
        r@ == time_text(seconds as int),
{
    if seconds > 0 {
        views::long_duration(seconds)
    } else {
        "–".to_string()
    }
}

pub open spec fn unit_name(granularity: Granularity) -> Seq<char> {
    match granularity {
        Granularity::Day => "day"@,
        Granularity::Month => "month"@,
    }
}

pub fn unit(granularity: Granularity) -> (r: &'static str)
    ensures
        r@ == unit_name(granularity),
{
    match granularity {
        Granularity::Day => "day",
        Granularity::Month => "month",
    }
}

// ---------------------------------------------------------------------------------------------
// The query
// ---------------------------------------------------------------------------------------------

#[derive(Debug, Clone, PartialEq, Eq)]
pub struct StatsQuery {
    pub period: Option<String>,
    pub done: Option<String>,
    pub problem: Option<String>,
}

impl StatsQuery {
    pub open spec fn asks_for(self) -> Period {
        match self.period {
            Some(raw) => match Period::named(raw@) {
                Some(period) => period,
                None => Period::AllTime,
            },
            None => Period::AllTime,
        }
    }

    pub fn period(&self) -> (r: Period)
        ensures
            r == self.asks_for(),
    {
        match &self.period {
            Some(raw) => match Period::parse(raw.as_str()) {
                Some(period) => period,
                None => Period::AllTime,
            },
            None => Period::AllTime,
        }
    }

    pub open spec fn notice_said(self) -> Option<Seq<char>> {
        match self.done {
            Some(code) => if code@ == "paid"@ {
                Some("Payment recorded."@)
            } else if code@ == "payment-deleted"@ {
                Some("Payment deleted."@)
            } else {
                None
            },
            None => None,
        }
    }

    pub fn notice(&self) -> (r: Option<&'static str>)
        ensures
            match r {
                Some(said) => self.notice_said() == Some(said@),
                None => self.notice_said() is None,
            },
    {
        match &self.done {
            Some(code) => {
                if text::same(code.as_str(), "paid") {
                    Some("Payment recorded.")
                } else if text::same(code.as_str(), "payment-deleted") {
                    Some("Payment deleted.")
                } else {
                    None
                }
            },
            None => None,
        }
    }

    pub open spec fn error_said(self) -> Option<Seq<char>> {
        match self.problem {
            Some(code) => if code@ == "payment-amount"@ {
                Some("Enter the amount paid, like 4.20."@)
            } else if code@ == "payment-people"@ {
                Some("A payment needs two different people."@)
            } else {
                None
            },
            None => None,
        }
    }

    pub fn error(&self) -> (r: Option<&'static str>)
        ensures
            match r {
                Some(said) => self.error_said() == Some(said@),
                None => self.error_said() is None,
            },
    {
        match &self.problem {
            Some(code) => {
                if text::same(code.as_str(), "payment-amount") {
                    Some("Enter the amount paid, like 4.20.")
                } else if text::same(code.as_str(), "payment-people") {
                    Some("A payment needs two different people.")
                } else {
                    None
                }
            },
            None => None,
        }
    }
}

#[derive(Debug, PartialEq, Eq)]
pub struct PeriodLink {
    pub href: String,
    pub label: &'static str,
    pub current: bool,
}

pub open spec fn period_href(base: Seq<char>, period: Period) -> Seq<char> {
    base + "?period="@ + period.name()
}

pub open spec fn nth_period(i: int) -> Period {
    if i == 0 {
        Period::Last30Days
    } else if i == 1 {
        Period::Last12Months
    } else {
        Period::AllTime
    }
}

fn period_link(base: &str, period: Period, current: Period) -> (r: PeriodLink)
    ensures
        r.href@ == period_href(base@, period),
        r.label@ == period.title(),
        r.current == (period == current),
{
    let mut href = String::new();
    href.append(base);
    href.append("?period=");
    href.append(period.as_str());
    assert(href@ =~= period_href(base@, period));
    PeriodLink { href, label: period.label(), current: period == current }
}

/// A link to every period, with the current one marked.
pub open spec fn are_period_links(links: Seq<PeriodLink>, base: Seq<char>, current: Period) -> bool {
    &&& links.len() == 3
    &&& forall|i: int|
        0 <= i < 3 ==> (#[trigger] links[i]).href@ == period_href(base, nth_period(i))
            && links[i].label@ == nth_period(i).title() && links[i].current == (nth_period(i)
            == current)
}

pub fn period_links(base: &str, current: Period) -> (r: Vec<PeriodLink>)
    ensures
        are_period_links(r@, base@, current),
{
    let mut links: Vec<PeriodLink> = Vec::new();
    links.push(period_link(base, Period::Last30Days, current));
    links.push(period_link(base, Period::Last12Months, current));
    links.push(period_link(base, Period::AllTime, current));
    links
}

// ---------------------------------------------------------------------------------------------
// People
// ---------------------------------------------------------------------------------------------

/// Everyone who ever had an account, in id order, which is also the order chart colours are
/// handed out in.
#[derive(Debug)]
pub struct People {
    pub users: Vec<User>,
}

pub open spec fn by_id() -> spec_fn(User, User) -> bool {
    |a: User, b: User| a.id <= b.id
}

/// The first user from position `i` on with the given id, or the number of users.
pub open spec fn user_at(users: Seq<User>, id: i64, i: int) -> int
    decreases users.len() - i,
{
    if i >= users.len() {
        users.len() as int
    } else if users[i].id == id {
        i
    } else {
        user_at(users, id, i + 1)
    }
}

pub open spec fn name_in(users: Seq<User>, id: i64) -> Seq<char> {
    let i = user_at(users, id, 0);
    if i < users.len() {
        users[i].username@
    } else {
        "Unknown user"@
    }
}

pub open spec fn owner_in(users: Seq<User>, owner: Option<i64>) -> Seq<char> {
    match owner {
        Some(id) => name_in(users, id),
        None => "Shared"@,
    }
}

fn find_user(users: &Vec<User>, id: i64) -> (r: usize)
    ensures
        r == user_at(users@, id, 0),
        r <= users@.len(),
{
    let mut i: usize = 0;
    while i < users.len()
        invariant
            i <= users@.len(),
            user_at(users@, id, 0) == user_at(users@, id, i as int),
        decreases users.len() - i,
    {
        if users[i].id == id {
            return i;
        }
        i += 1;
    }
    i
}

impl People {
    pub fn load(db: &Accounts) -> (r: People)
        ensures
            r.users@ == order::sorted(
                order::sorted(
                    db.accounts@.map_values(|a: accounts::Account| a.user),
                    accounts::by_name(),
                ),
                by_id(),
            ),
    {
        let users = accounts::users(db);
        let before = |a: &User, b: &User| -> (r: bool)
            ensures
                r == by_id()(*a, *b),
            { a.id <= b.id };
        People { users: order::sort_by(users, before, Ghost(by_id())) }
    }

    pub fn name(&self, id: i64) -> (r: String)
        ensures
            r@ == name_in(self.users@, id),
    {
        let i = find_user(&self.users, id);
        if i < self.users.len() {
            self.users[i].username.clone()
        } else {
            "Unknown user".to_string()
        }
    }

    pub fn owner(&self, owner: Option<i64>) -> (r: String)
        ensures
            r@ == owner_in(self.users@, owner),
    {
        match owner {
            Some(id) => self.name(id),
            None => "Shared".to_string(),
        }
    }
}

// ---------------------------------------------------------------------------------------------
// Tiles and rows
// ---------------------------------------------------------------------------------------------

#[derive(Debug, PartialEq, Eq)]
pub struct Tile {
    pub label: &'static str,
    pub value: String,
}

/// What is computed from the numbers of a person fits into 128 bits.
pub open spec fn is_countable(person: Person) -> bool {
    &&& person.print_seconds <= i128::MAX - 1_000
    &&& person.total_mg > i128::MIN
    &&& -i128::MAX <= 100 * person.others_mg <= i128::MAX
}

/// So do the sums over people.
pub open spec fn are_countable(people: Seq<Person>) -> bool {
    &&& 100 * sizes(people).prints <= i128::MAX
    &&& sizes(people).seconds <= i128::MAX - 1_000
    &&& sizes(people).mg <= i128::MAX
}

pub ghost struct Totals {
    pub prints: int,
    pub done: int,
    pub seconds: int,
    pub mg: int,
}

pub open spec fn totals(people: Seq<Person>) -> Totals
    decreases people.len(),
{
    if people.len() == 0 {
        Totals { prints: 0, done: 0, seconds: 0, mg: 0 }
    } else {
        let before = totals(people.drop_last());
        let person = people.last();
        Totals {
            prints: before.prints + person.print_count(),
            done: before.done + person.done,
            seconds: before.seconds + person.print_seconds,
            mg: before.mg + person.total_mg,
        }
    }
}

/// The sums over people of every number without its sign.
pub open spec fn sizes(people: Seq<Person>) -> Totals
    decreases people.len(),
{
    if people.len() == 0 {
        Totals { prints: 0, done: 0, seconds: 0, mg: 0 }
    } else {
        let before = sizes(people.drop_last());
        let person = people.last();
        Totals {
            prints: before.prints + person.print_count(),
            done: before.done + person.done,
            seconds: before.seconds + num::size(person.print_seconds as int),
            mg: before.mg + num::size(person.total_mg as int),
        }
    }
}

proof fn lemma_sizes_grow(people: Seq<Person>, i: int)
    requires
        0 <= i <= people.len(),
    ensures
        0 <= sizes(people.take(i)).done <= sizes(people.take(i)).prints <= sizes(people).prints,
        0 <= sizes(people.take(i)).seconds <= sizes(people).seconds,
        0 <= sizes(people.take(i)).mg <= sizes(people).mg,
    decreases people.len(),
{
    if i < people.len() {
        lemma_sizes_grow(people.drop_last(), i);
        assert(people.drop_last().take(i) =~= people.take(i));
    } else {
        assert(people.take(i) =~= people);
        if people.len() > 0 {
            lemma_sizes_grow(people.drop_last(), i - 1);
            assert(people.drop_last().take(i - 1) =~= people.drop_last());
        }
    }
}

pub open spec fn is_tile(tile: Tile, label: Seq<char>, value: Seq<char>) -> bool {
    tile.label@ == label && tile.value@ == value
}

pub open spec fn are_tiles(tiles: Seq<Tile>, people: Seq<Person>, subject: Option<Person>) -> bool {
    &&& tiles.len() == 4
    &&& is_tile(tiles[0], "Prints"@, text::decimal(totals(people).prints as nat))
    &&& is_tile(tiles[1], "Print time"@, time_text(totals(people).seconds))
    &&& is_tile(tiles[2], "Filament used"@, weight_text(totals(people).mg, 1000))
    &&& match subject {
        Some(person) => is_tile(
            tiles[3],
            "From other people's spools"@,
            percent_text(person.others_mg as int, person.total_mg as int),
        ),
        None => is_tile(
            tiles[3],
            "Finished successfully"@,
            percent_text(totals(people).done, totals(people).prints),
        ),
    }
}

/// With `subject`, the last tile is that person's share of other people's filament rather than
/// the group's success rate.
pub fn tiles(people: &[Person], subject: Option<&Person>) -> (r: Vec<Tile>)
    requires
        are_countable(people@),
        subject matches Some(person) ==> is_countable(*person),
    ensures
        are_tiles(
            r@,
            people@,
            match subject {
                Some(person) => Some(*person),
                None => None,
            },
        ),
{
    let mut prints: i128 = 0;
    let mut done: i128 = 0;
    let mut seconds: i128 = 0;
    let mut mg: i128 = 0;
    let mut i: usize = 0;
    while i < people.len()
        invariant
            i <= people@.len(),
            are_countable(people@),
            prints == totals(people@.take(i as int)).prints,
            done == totals(people@.take(i as int)).done,
            seconds == totals(people@.take(i as int)).seconds,
            mg == totals(people@.take(i as int)).mg,
            prints == sizes(people@.take(i as int)).prints,
            done == sizes(people@.take(i as int)).done,
            0 <= done <= prints,
            100 * prints <= i128::MAX,
            -sizes(people@.take(i as int)).seconds <= seconds <= sizes(
                people@.take(i as int),
            ).seconds,
            -sizes(people@.take(i as int)).mg <= mg <= sizes(people@.take(i as int)).mg,
        decreases people.len() - i,
    {
        proof {
            lemma_sizes_grow(people@, i as int);
            lemma_sizes_grow(people@, i + 1);
        }
        assert(people@.take(i + 1).drop_last() =~= people@.take(i as int));
        let person = people[i];
        prints = prints + person.prints() as i128;
        done = done + person.done as i128;
        seconds = seconds + person.print_seconds;
        mg = mg + person.total_mg;
        i += 1;
    }
    assert(people@.take(i as int) =~= people@);
    let last = match subject {
        Some(person) => Tile {
            label: "From other people's spools",
            value: percent(person.others_mg, person.total_mg),
        },
        None => Tile { label: "Finished successfully", value: percent(done, prints) },
    };
    let mut count = String::new();
    text::push_decimal_large(&mut count, prints as u128);
    assert(count@ =~= text::decimal(prints as nat));
    let mut tiles: Vec<Tile> = Vec::new();
    tiles.push(Tile { label: "Prints", value: count });
    tiles.push(Tile { label: "Print time", value: duration(seconds) });
    tiles.push(Tile { label: "Filament used", value: weight(mg) });
    tiles.push(last);
    tiles
}

#[derive(Debug, PartialEq, Eq)]
pub struct PersonRow {
    pub href: String,
    pub name: String,
    pub prints: u128,
    pub unfinished: u128,
    pub time: String,
    pub filament: String,
    pub own: String,
    pub shared: String,
    pub others: String,
    pub others_value: String,
    pub wasted: String,
}

pub open spec fn is_person_row(row: PersonRow, person: Person, users: Seq<User>, period: Period) -> bool {
    &&& row.href@ == "/stats/users/"@ + text::decimal_int(person.user_id as int) + "?period="@
        + period.name()
    &&& row.name@ == name_in(users, person.user_id)
    &&& row.prints == person.print_count()
    &&& row.unfinished == person.failed + person.cancelled
    &&& row.time@ == time_text(person.print_seconds as int)
    &&& row.filament@ == weight_text(person.total_mg as int, 1000)
    &&& row.own@ == weight_text(person.own_mg as int, 1000)
    &&& row.shared@ == weight_text(person.shared_mg as int, 1000)
    &&& row.others@ == weight_text(person.others_mg as int, 1000) + " ("@ + percent_text(
        person.others_mg as int,
        person.total_mg as int,
    ) + ")"@
    &&& row.others_value@ == money_text(person.others_value as int)
    &&& row.wasted@ == weight_text(person.wasted_mg as int, 1000)
}

/// Every amount has an opposite.
pub open spec fn can_be_shown(person: Person) -> bool {
    &&& is_countable(person)
    &&& person.own_mg > i128::MIN
    &&& person.shared_mg > i128::MIN
    &&& person.wasted_mg > i128::MIN
    &&& person.others_value > i128::MIN
}

pub fn person_row(person: &Person, people: &People, period: Period) -> (r: PersonRow)
    requires
        can_be_shown(*person),
    ensures
        is_person_row(r, *person, people.users@, period),
{
    let mut href = String::new();
    href.append("/stats/users/");
    text::push_decimal_int(&mut href, person.user_id);
    href.append("?period=");
    href.append(period.as_str());
    let mut others = weight(person.others_mg);
    others.append(" (");
    let share = percent(person.others_mg, person.total_mg);
    others.append(share.as_str());
    others.append(")");
    let row = PersonRow {
        href,
        name: people.name(person.user_id),
        prints: person.prints(),
        unfinished: person.failed as u128 + person.cancelled as u128,
        time: duration(person.print_seconds),
        filament: weight(person.total_mg),
        own: weight(person.own_mg),
        shared: weight(person.shared_mg),
        others,
        others_value: money(person.others_value),
        wasted: weight(person.wasted_mg),
    };
    assert(row.href@ =~= "/stats/users/"@ + text::decimal_int(person.user_id as int) + "?period="@
        + period.name());
    assert(row.others@ =~= weight_text(person.others_mg as int, 1000) + " ("@ + percent_text(
        person.others_mg as int,
        person.total_mg as int,
    ) + ")"@);
    row
}

#[derive(Debug, PartialEq, Eq)]
pub struct AmountRow {
    pub label: String,
    pub grams: String,
    pub value: String,
}

/// How much of each material, and no value.
pub open spec fn are_materials(rows: Seq<AmountRow>, materials: Seq<(String, i128)>) -> bool {
    &&& rows.len() == materials.len()
    &&& forall|i: int|
        0 <= i < rows.len() ==> (#[trigger] rows[i]).label@ == materials[i].0@ && rows[i].grams@
            == weight_text(materials[i].1 as int, 1000) && rows[i].value@ == ""@
}

pub fn materials(summary: &Summary) -> (r: Vec<AmountRow>)
    requires
        forall|i: int| 0 <= i < summary.materials@.len() ==> (#[trigger] summary.materials@[i]).1
            > i128::MIN,
    ensures
        are_materials(r@, summary.materials@),
{
    let list = &summary.materials;
    let mut rows: Vec<AmountRow> = Vec::new();
    let mut i: usize = 0;
    while i < list.len()
        invariant
            i <= list@.len(),
            list@ == summary.materials@,
            rows@.len() == i,
            forall|k: int| 0 <= k < list@.len() ==> (#[trigger] list@[k]).1 > i128::MIN,
            forall|k: int|
                0 <= k < i ==> (#[trigger] rows@[k]).label@ == list@[k].0@ && rows@[k].grams@
                    == weight_text(list@[k].1 as int, 1000) && rows@[k].value@ == ""@,
        decreases list.len() - i,
    {
        rows.push(
            AmountRow {
                label: list[i].0.clone(),
                grams: weight(list[i].1),
                value: "".to_string(),
            },
        );
        i += 1;
    }
    rows
}

pub open spec fn is_unaccounted_row(row: AmountRow, entry: Unaccounted, users: Seq<User>) -> bool {
    &&& row.label@ == owner_in(users, entry.owner_id)
    &&& row.grams@ == if entry.mg >= 0 {
        weight_text(entry.mg as int, 1000) + " missing"@
    } else {
        weight_text(-entry.mg, 1000) + " more than recorded"@
    }
    &&& row.value@ == match entry.value {
        Some(value) => money_text(
            if value < 0 {
                -value
            } else {
                value as int
            },
        ),
        None => ""@,
    }
}

/// What weigh-ins found missing or found again.
pub fn unaccounted_row(entry: &Unaccounted, people: &People) -> (r: AmountRow)
    requires
        entry.mg > i128::MIN,
        entry.value matches Some(value) ==> value > i128::MIN,
    ensures
        is_unaccounted_row(r, *entry, people.users@),
{
    let grams = if entry.mg >= 0 {
        let mut out = weight(entry.mg);
        out.append(" missing");
        out
    } else {
        let mut out = weight(-entry.mg);
        out.append(" more than recorded");
        out
    };
    let value = match entry.value {
        Some(value) => money(
            if value < 0 {
                -value
            } else {
                value
            },
        ),
        None => "".to_string(),
    };
    AmountRow { label: people.owner(entry.owner_id), grams, value }
}

#[derive(Debug, PartialEq, Eq)]
pub struct DebtRow {
    pub debtor: String,
    pub creditor: String,
    pub debtor_id: i64,
    pub creditor_id: i64,
    pub amount: String,
    pub can_record: bool,
}

/// Whoever is owed the money says that it came, or an admin.
pub open spec fn may_record(viewer: Option<User>, creditor: i64) -> bool {
    viewer matches Some(user) && (user.role == accounts::Role::Admin || user.id == creditor)
}

pub open spec fn is_debt_row(row: DebtRow, debt: Debt, users: Seq<User>, viewer: Option<User>) -> bool {
    &&& row.debtor@ == name_in(users, debt.debtor)
    &&& row.creditor@ == name_in(users, debt.creditor)
    &&& row.debtor_id == debt.debtor
    &&& row.creditor_id == debt.creditor
    &&& row.amount@ == inventory::price_text(debt.cents as int)
    &&& row.can_record == may_record(viewer, debt.creditor)
}

pub open spec fn viewer_of(viewer: Option<&User>) -> Option<User> {
    match viewer {
        Some(user) => Some(*user),
        None => None,
    }
}

pub fn debt_rows(debts: &[Debt], people: &People, viewer: Option<&User>) -> (r: Vec<DebtRow>)
    ensures
        r@.len() == debts@.len(),
        forall|i: int|
            0 <= i < r@.len() ==> is_debt_row(
                #[trigger] r@[i],
                debts@[i],
                people.users@,
                viewer_of(viewer),
            ),
{
    let mut rows: Vec<DebtRow> = Vec::new();
    let mut i: usize = 0;
    while i < debts.len()
        invariant
            i <= debts@.len(),
            rows@.len() == i,
            forall|k: int|
                0 <= k < i ==> is_debt_row(
                    #[trigger] rows@[k],
                    debts@[k],
                    people.users@,
                    viewer_of(viewer),
                ),
        decreases debts.len() - i,
    {
        let debt = debts[i];
        rows.push(
            DebtRow {
                debtor: people.name(debt.debtor),
                creditor: people.name(debt.creditor),
                debtor_id: debt.debtor,
                creditor_id: debt.creditor,
                amount: inventory::format_price(debt.cents),
                can_record: match viewer {
                    Some(user) => user.is_admin() || user.id == debt.creditor,
                    None => false,
                },
            },
        );
        i += 1;
    }
    rows
}

#[derive(Debug, PartialEq, Eq)]
pub struct PaymentRow {
    pub id: i64,
    pub when: String,
    pub from: String,
    pub to: String,
    pub amount: String,
    pub recorded_by: String,
}

pub open spec fn is_payment_row(row: PaymentRow, payment: Settlement, zone: Zone) -> bool {
    &&& row.id == payment.id
    &&& row.when@ == views::time_text(payment.created_at as int, zone)
    &&& row.from@ == payment.from.1@
    &&& row.to@ == payment.to.1@
    &&& row.amount@ == inventory::price_text(payment.amount_cents as int)
    &&& row.recorded_by@ == match payment.recorded_by {
        Some(name) => name@,
        None => ""@,
    }
}

/// The last payments.
pub fn payment_rows(payments: &[Settlement], zone: &Zone) -> (r: Vec<PaymentRow>)
    ensures
        r@.len() == if payments@.len() < RECENT_PAYMENTS {
            payments@.len() as int
        } else {
            RECENT_PAYMENTS as int
        },
        forall|i: int| 0 <= i < r@.len() ==> is_payment_row(#[trigger] r@[i], payments@[i], *zone),
{
    let mut rows: Vec<PaymentRow> = Vec::new();
    let mut i: usize = 0;
    while i < payments.len() && i < RECENT_PAYMENTS
        invariant
            i <= payments@.len(),
            i <= RECENT_PAYMENTS,
            rows@.len() == i,
            forall|k: int| 0 <= k < i ==> is_payment_row(#[trigger] rows@[k], payments@[k], *zone),
        decreases payments.len() - i,
    {
        let payment = &payments[i];
        rows.push(
            PaymentRow {
                id: payment.id,
                when: views::format_time(payment.created_at, zone),
                from: payment.from.1.clone(),
                to: payment.to.1.clone(),
                amount: inventory::format_price(payment.amount_cents),
                recorded_by: match &payment.recorded_by {
                    Some(name) => name.clone(),
                    None => "".to_string(),
                },
            },
        );
        i += 1;
    }
    rows
}

// ---------------------------------------------------------------------------------------------
// The matrix
// ---------------------------------------------------------------------------------------------

#[derive(Debug, PartialEq, Eq)]
pub struct Matrix {
    pub owners: Vec<String>,
    pub rows: Vec<MatrixRow>,
}

#[derive(Debug, PartialEq, Eq)]
pub struct MatrixRow {
    pub name: String,
    pub cells: Vec<String>,
}

/// By name, whatever the case of its letters; shared spools last.
pub open spec fn owner_order(users: Seq<User>) -> spec_fn(Option<i64>, Option<i64>) -> bool {
    |a: Option<i64>, b: Option<i64>|
        match (a, b) {
            (_, None) => true,
            (None, Some(_)) => false,
            (Some(a), Some(b)) => text::at_or_before(
                text::lowercase(name_in(users, a)),
                text::lowercase(name_in(users, b)),
            ),
        }
}

/// Without the items that are the same as the one before them.
pub open spec fn deduped<T>(s: Seq<T>) -> Seq<T>
    decreases s.len(),
{
    if s.len() == 0 {
        s
    } else {
        let before = deduped(s.drop_last());
        if before.len() > 0 && before.last() == s.last() {
            before
        } else {
            before.push(s.last())
        }
    }
}

pub open spec fn owner_of_pair() -> spec_fn(Pair) -> Option<i64> {
    |pair: Pair| pair.owner_id
}

pub open spec fn columns(pairs: Seq<Pair>, users: Seq<User>) -> Seq<Option<i64>> {
    deduped(order::sorted(pairs.map_values(owner_of_pair()), owner_order(users)))
}

/// The first pair from position `i` on of the given user and owner, or the number of pairs.
pub open spec fn pair_at(pairs: Seq<Pair>, user_id: i64, owner: Option<i64>, i: int) -> int
    decreases pairs.len() - i,
{
    if i >= pairs.len() {
        pairs.len() as int
    } else if pairs[i].user_id == user_id && pairs[i].owner_id == owner {
        i
    } else {
        pair_at(pairs, user_id, owner, i + 1)
    }
}

/// How much was used, with its value where it was someone else's and had a price.
pub open spec fn pair_text(pair: Pair) -> Seq<char> {
    match (pair.owner_id, pair.value) {
        (Some(owner), Some(value)) => if owner != pair.user_id {
            weight_text(pair.mg as int, 1000) + " ("@ + money_text(value as int) + ")"@
        } else {
            weight_text(pair.mg as int, 1000)
        },
        _ => weight_text(pair.mg as int, 1000),
    }
}

pub open spec fn cell_text(pairs: Seq<Pair>, user_id: i64, owner: Option<i64>) -> Seq<char> {
    let i = pair_at(pairs, user_id, owner, 0);
    if i < pairs.len() {
        pair_text(pairs[i])
    } else {
        ""@
    }
}

pub open spec fn used_something() -> spec_fn(Person) -> bool {
    |person: Person| person.total_mg > 0
}

pub open spec fn is_matrix_row(
    row: MatrixRow,
    person: Person,
    pairs: Seq<Pair>,
    owners: Seq<Option<i64>>,
    users: Seq<User>,
) -> bool {
    &&& row.name@ == name_in(users, person.user_id)
    &&& row.cells@.len() == owners.len()
    &&& forall|k: int|
        0 <= k < owners.len() ==> (#[trigger] row.cells@[k])@ == cell_text(
            pairs,
            person.user_id,
            owners[k],
        )
}

pub open spec fn pairs_can_be_shown(pairs: Seq<Pair>) -> bool {
    forall|i: int|
        0 <= i < pairs.len() ==> (#[trigger] pairs[i]).mg > i128::MIN && (pairs[i].value matches Some(
            value,
        ) ==> value > i128::MIN)
}

fn same_owner(a: Option<i64>, b: Option<i64>) -> (r: bool)
    ensures
        r == (a == b),
{
    match (a, b) {
        (Some(a), Some(b)) => a == b,
        (None, None) => true,
        _ => false,
    }
}

fn pair_string(pair: &Pair) -> (r: String)
    requires
        pair.mg > i128::MIN,
        pair.value matches Some(value) ==> value > i128::MIN,
    ensures
        r@ == pair_text(*pair),
{
    let mut out = weight(pair.mg);
    if let Some(owner) = pair.owner_id {
        if let Some(value) = pair.value {
            if owner != pair.user_id {
                out.append(" (");
                let worth = money(value);
                out.append(worth.as_str());
                out.append(")");
            }
        }
    }
    assert(out@ =~= pair_text(*pair));
    out
}

fn cell(pairs: &Vec<Pair>, user_id: i64, owner: Option<i64>) -> (r: String)
    requires
        pairs_can_be_shown(pairs@),
    ensures
        r@ == cell_text(pairs@, user_id, owner),
{
    let mut i: usize = 0;
    while i < pairs.len()
        invariant
            i <= pairs@.len(),
            pairs_can_be_shown(pairs@),
            pair_at(pairs@, user_id, owner, 0) == pair_at(pairs@, user_id, owner, i as int),
        decreases pairs.len() - i,
    {
        if pairs[i].user_id == user_id && same_owner(pairs[i].owner_id, owner) {
            assert(pairs@[i as int].mg > i128::MIN);
            return pair_string(&pairs[i]);
        }
        i += 1;
    }
    "".to_string()
}

fn find_columns(pairs: &Vec<Pair>, people: &People) -> (r: Vec<Option<i64>>)
    ensures
        r@ == columns(pairs@, people.users@),
{
    let mut owners: Vec<Option<i64>> = Vec::new();
    let mut i: usize = 0;
    while i < pairs.len()
        invariant
            i <= pairs@.len(),
            owners@ =~= pairs@.take(i as int).map_values(owner_of_pair()),
        decreases pairs.len() - i,
    {
        owners.push(pairs[i].owner_id);
        i += 1;
    }
    assert(pairs@.take(i as int) =~= pairs@);
    let before = |a: &Option<i64>, b: &Option<i64>| -> (r: bool)
        ensures
            r == owner_order(people.users@)(*a, *b),
        { owner_at_or_before(people, *a, *b) };
    let sorted = order::sort_by(owners, before, Ghost(owner_order(people.users@)));
    let mut kept: Vec<Option<i64>> = Vec::new();
    let mut i: usize = 0;
    while i < sorted.len()
        invariant
            i <= sorted@.len(),
            kept@ == deduped(sorted@.take(i as int)),
        decreases sorted.len() - i,
    {
        assert(sorted@.take(i + 1).drop_last() =~= sorted@.take(i as int));
        let repeated = kept.len() > 0 && same_owner(kept[kept.len() - 1], sorted[i]);
        if !repeated {
            kept.push(sorted[i]);
        }
        i += 1;
    }
    assert(sorted@.take(i as int) =~= sorted@);
    kept
}

fn owner_at_or_before(people: &People, a: Option<i64>, b: Option<i64>) -> (r: bool)
    ensures
        r == owner_order(people.users@)(a, b),
{
    match (a, b) {
        (_, None) => true,
        (None, Some(_)) => false,
        (Some(a), Some(b)) => {
            let a = people.name(a);
            let b = people.name(b);
            let a = text::to_lowercase(a.as_str());
            let b = text::to_lowercase(b.as_str());
            let a = text::chars(a.as_str());
            let b = text::chars(b.as_str());
            text::slice_at_or_before(a.as_slice(), b.as_slice())
        },
    }
}

/// Everyone who used something has a row, and every owner of a spool a column.
pub open spec fn is_matrix(matrix: Matrix, summary: Summary, users: Seq<User>) -> bool {
    let owners = columns(summary.pairs@, users);
    let shown = summary.people@.filter(used_something());
    &&& matrix.owners@.len() == owners.len()
    &&& forall|k: int|
        0 <= k < owners.len() ==> (#[trigger] matrix.owners@[k])@ == owner_in(users, owners[k])
    &&& matrix.rows@.len() == shown.len()
    &&& forall|i: int|
        0 <= i < shown.len() ==> is_matrix_row(
            #[trigger] matrix.rows@[i],
            shown[i],
            summary.pairs@,
            owners,
            users,
        )
}

/// Rows print, columns own the spools, with shared spools last.
pub fn matrix(summary: &Summary, people: &People) -> (r: Matrix)
    requires
        pairs_can_be_shown(summary.pairs@),
    ensures
        is_matrix(r, *summary, people.users@),
{
    let owners = find_columns(&summary.pairs, people);
    let mut names: Vec<String> = Vec::new();
    let mut k: usize = 0;
    while k < owners.len()
        invariant
            k <= owners@.len(),
            names@.len() == k,
            forall|j: int|
                0 <= j < k ==> (#[trigger] names@[j])@ == owner_in(people.users@, owners@[j]),
        decreases owners.len() - k,
    {
        names.push(people.owner(owners[k]));
        k += 1;
    }
    let ghost p = used_something();
    let list = &summary.people;
    let mut rows: Vec<MatrixRow> = Vec::new();
    proof {
        crate::lists::lemma_filter_ends(list@, p);
    }
    let mut i: usize = 0;
    while i < list.len()
        invariant
            i <= list@.len(),
            p == used_something(),
            pairs_can_be_shown(summary.pairs@),
            rows@.len() == list@.take(i as int).filter(p).len(),
            forall|j: int|
                0 <= j < rows@.len() ==> is_matrix_row(
                    #[trigger] rows@[j],
                    list@.take(i as int).filter(p)[j],
                    summary.pairs@,
                    owners@,
                    people.users@,
                ),
        decreases list.len() - i,
    {
        proof {
            crate::lists::lemma_filter_step(list@, p, i as int);
        }
        if list[i].total_mg > 0 {
            let mut cells: Vec<String> = Vec::new();
            let mut k: usize = 0;
            while k < owners.len()
                invariant
                    k <= owners@.len(),
                    i < list@.len(),
                    pairs_can_be_shown(summary.pairs@),
                    cells@.len() == k,
                    forall|j: int|
                        0 <= j < k ==> (#[trigger] cells@[j])@ == cell_text(
                            summary.pairs@,
                            list@[i as int].user_id,
                            owners@[j],
                        ),
                decreases owners.len() - k,
            {
                cells.push(cell(&summary.pairs, list[i].user_id, owners[k]));
                k += 1;
            }
            rows.push(MatrixRow { name: people.name(list[i].user_id), cells });
        }
        i += 1;
    }
    Matrix { owners: names, rows }
}

// ---------------------------------------------------------------------------------------------
// Charts
// ---------------------------------------------------------------------------------------------

/// Under a bar: the first bar and every January name the year, so a long range stays readable.
pub open spec fn short_label_text(start: Date, granularity: Granularity, first: bool) -> Seq<char> {
    match granularity {
        Granularity::Month => if first || start.month == 1 {
            calendar::month_abbreviation(start.month as int) + " "@ + calendar::year_text(
                start.year as int,
            )
        } else {
            calendar::month_abbreviation(start.month as int)
        },
        Granularity::Day => text::decimal(start.day as nat) + " "@ + calendar::month_abbreviation(
            start.month as int,
        ),
    }
}

pub open spec fn label_text(start: Date, granularity: Granularity) -> Seq<char> {
    let month = calendar::month_name(start.month as int) + " "@ + calendar::year_text(
        start.year as int,
    );
    match granularity {
        Granularity::Month => month,
        Granularity::Day => text::decimal(start.day as nat) + " "@ + month,
    }
}

/// The first bar and every January name the year, so a long range stays readable.
pub fn bar_input(start: Date, granularity: Granularity, first: bool, values: Vec<i128>) -> (r: BarInput)
    ensures
        r.short_label@ == short_label_text(start, granularity, first),
        r.label@ == label_text(start, granularity),
        r.values@ == values@,
{
    let mut short_label = String::new();
    let mut label = String::new();
    match granularity {
        Granularity::Month => {
            calendar::push_month_abbreviation(&mut short_label, start.month);
            if first || start.month == 1 {
                short_label.append(" ");
                calendar::push_year(&mut short_label, start.year);
            }
        },
        Granularity::Day => {
            text::push_decimal(&mut short_label, start.day as u64);
            short_label.append(" ");
            calendar::push_month_abbreviation(&mut short_label, start.month);
            text::push_decimal(&mut label, start.day as u64);
            label.append(" ");
        },
    }
    label.append(calendar::month_str(start.month));
    label.append(" ");
    calendar::push_year(&mut label, start.year);
    assert(short_label@ =~= short_label_text(start, granularity, first));
    assert(label@ =~= label_text(start, granularity));
    BarInput { short_label, label, values }
}

pub open spec fn whose_name(whose: Whose) -> Seq<char> {
    match whose {
        Whose::Own => "Own spools"@,
        Whose::Shared => "Shared spools"@,
        Whose::Others => "Other people's spools"@,
    }
}

pub open spec fn nth_whose(i: int) -> Whose {
    if i == 0 {
        Whose::Own
    } else if i == 1 {
        Whose::Shared
    } else {
        Whose::Others
    }
}

pub open spec fn is_whose_series(series: Seq<Series>) -> bool {
    &&& series.len() == 3
    &&& forall|i: int|
        0 <= i < 3 ==> (#[trigger] series[i]).name@ == whose_name(nth_whose(i)) && series[i].slot@
            == chart::slot_name(i)
}

pub open spec fn is_whose_bar(bar: BarInput, bucket: Bucket, granularity: Granularity, first: bool) -> bool {
    &&& bar.short_label@ == short_label_text(bucket.start, granularity, first)
    &&& bar.label@ == label_text(bucket.start, granularity)
    &&& bar.values@ == bucket.by_whose@
}

pub open spec fn are_whose_bars(bars: Seq<BarInput>, summary: Summary) -> bool {
    &&& bars.len() == summary.buckets@.len()
    &&& forall|i: int|
        0 <= i < bars.len() ==> is_whose_bar(
            #[trigger] bars[i],
            summary.buckets@[i],
            summary.granularity,
            i == 0,
        )
}

/// The sum of values, each without its sign.
pub open spec fn spread(values: Seq<i128>) -> int
    decreases values.len(),
{
    if values.len() == 0 {
        0
    } else {
        spread(values.drop_last()) + num::size(values.last() as int)
    }
}

/// The bars by whose spools were used can be computed in 128 bits.
pub open spec fn whose_fits(summary: Summary) -> bool {
    forall|i: int|
        #![trigger summary.buckets@[i]]
        0 <= i < summary.buckets@.len() ==> chart::fits(
            summary.buckets@.len() as int,
            spread(summary.buckets@[i].by_whose@),
        )
}

fn series_named(name: &str, slot: &'static str) -> (r: Series)
    ensures
        r.name@ == name@,
        r.slot@ == slot@,
{
    Series { name: name.to_string(), slot }
}

/// The chart of a summary by whose spools were used; none where nothing was.
pub open spec fn is_whose_chart(drawn: Option<BarChart>, summary: Summary) -> bool {
    exists|series: Seq<Series>, bars: Seq<BarInput>|
        #![trigger is_whose_series(series), are_whose_bars(bars, summary)]
        is_whose_series(series) && are_whose_bars(bars, summary) && match drawn {
            Some(shown) => chart::highest(bars) > 0 && chart::is_chart(
                weight_label,
                "Filament used per "@ + unit_name(summary.granularity) + ", by whose spool"@,
                series,
                bars,
                shown,
            ),
            None => chart::highest(bars) == 0,
        }
}

/// What a person used per day or month, by whose spool it was.
pub fn whose_chart(summary: &Summary) -> (r: Option<BarChart>)
    requires
        whose_fits(*summary),
    ensures
        is_whose_chart(r, *summary),
{
    let mut series: Vec<Series> = Vec::new();
    proof {
        reveal_strlit("series-");
        reveal_strlit("series-1");
        reveal_strlit("series-2");
        reveal_strlit("series-3");
        assert("series-1"@ =~= chart::slot_name(0));
        assert("series-2"@ =~= chart::slot_name(1));
        assert("series-3"@ =~= chart::slot_name(2));
    }
    series.push(series_named("Own spools", "series-1"));
    series.push(series_named("Shared spools", "series-2"));
    series.push(series_named("Other people's spools", "series-3"));
    let buckets = &summary.buckets;
    let mut bars: Vec<BarInput> = Vec::new();
    let mut i: usize = 0;
    while i < buckets.len()
        invariant
            i <= buckets@.len(),
            buckets@ == summary.buckets@,
            whose_fits(*summary),
            bars@.len() == i,
            forall|k: int|
                0 <= k < i ==> is_whose_bar(
                    #[trigger] bars@[k],
                    buckets@[k],
                    summary.granularity,
                    k == 0,
                ),
        decreases buckets.len() - i,
    {
        let mut values: Vec<i128> = Vec::new();
        values.push(buckets[i].by_whose[0]);
        values.push(buckets[i].by_whose[1]);
        values.push(buckets[i].by_whose[2]);
        assert(values@ =~= buckets@[i as int].by_whose@);
        bars.push(bar_input(buckets[i].start, summary.granularity, i == 0, values));
        i += 1;
    }
    assert(is_whose_series(series@));
    assert(are_whose_bars(bars@, *summary));
    proof {
        assert forall|i: int| 0 <= i < bars@.len() implies (#[trigger] bars@[i]).values@.len()
            <= series@.len() && chart::fits(bars@.len() as int, spread(bars@[i].values@)) by {
            assert(bars@[i].values@ == summary.buckets@[i].by_whose@);
        }
        lemma_bars_fit(bars@);
    }
    let mut description = String::new();
    description.append("Filament used per ");
    description.append(unit(summary.granularity));
    description.append(", by whose spool");
    assert(description@ =~= "Filament used per "@ + unit_name(summary.granularity)
        + ", by whose spool"@);
    chart::stacked(description, series, bars, weight_label)
}

/// Whether a person used anything in any of the buckets.
pub open spec fn is_present(buckets: Seq<Bucket>, id: i64) -> bool {
    exists|i: int| #![trigger buckets[i]] 0 <= i < buckets.len() && uses_in(buckets[i], id)
}

pub open spec fn uses_in(bucket: Bucket, id: i64) -> bool {
    exists|k: int| 0 <= k < bucket.by_user@.len() && (#[trigger] bucket.by_user@[k]).0 == id
}

/// The names and slots of the series of the first `n` people: those who used something, and one
/// series for everyone past the last slot.
pub open spec fn series_of(users: Seq<User>, buckets: Seq<Bucket>, n: int) -> Seq<
    (Seq<char>, Seq<char>),
>
    decreases n,
{
    if n <= 0 {
        seq![]
    } else {
        let before = series_of(users, buckets, n - 1);
        if !is_present(buckets, users[n - 1].id) {
            before
        } else if n - 1 < chart::SLOT_COUNT {
            before.push((users[n - 1].username@, chart::slot_name(n - 1)))
        } else if before.len() > series_of(users, buckets, chart::SLOT_COUNT as int).len() {
            before
        } else {
            before.push(("Everyone else"@, "series-other"@))
        }
    }
}

/// Which series a person's filament counts in.
pub open spec fn column_of(users: Seq<User>, buckets: Seq<Bucket>, i: int) -> int {
    series_of(
        users,
        buckets,
        if i < chart::SLOT_COUNT {
            i
        } else {
            chart::SLOT_COUNT as int
        },
    ).len() as int
}

/// What the first `n` entries of a bucket add to a series.
pub open spec fn column_sum(
    users: Seq<User>,
    buckets: Seq<Bucket>,
    entries: Seq<(i64, i128)>,
    column: int,
    n: int,
) -> int
    decreases n,
{
    if n <= 0 {
        0
    } else {
        let (id, mg) = entries[n - 1];
        let i = user_at(users, id, 0);
        column_sum(users, buckets, entries, column, n - 1) + if i < users.len() && column_of(
            users,
            buckets,
            i,
        ) == column {
            mg as int
        } else {
            0
        }
    }
}

pub open spec fn series_shown(series: Seq<Series>) -> Seq<(Seq<char>, Seq<char>)> {
    series.map_values(|s: Series| (s.name@, s.slot@))
}

pub open spec fn is_people_bar(
    bar: BarInput,
    users: Seq<User>,
    summary: Summary,
    columns: int,
    index: int,
) -> bool {
    let bucket = summary.buckets@[index];
    &&& bar.short_label@ == short_label_text(bucket.start, summary.granularity, index == 0)
    &&& bar.label@ == label_text(bucket.start, summary.granularity)
    &&& bar.values@.len() == columns
    &&& forall|c: int|
        0 <= c < columns ==> #[trigger] bar.values@[c] == column_sum(
            users,
            summary.buckets@,
            bucket.by_user@,
            c,
            bucket.by_user@.len() as int,
        )
}

pub open spec fn are_people_bars(
    bars: Seq<BarInput>,
    users: Seq<User>,
    summary: Summary,
    columns: int,
) -> bool {
    &&& bars.len() == summary.buckets@.len()
    &&& forall|i: int|
        0 <= i < bars.len() ==> is_people_bar(#[trigger] bars[i], users, summary, columns, i)
}

/// The sum of the entries of a bucket, each without its sign.
pub open spec fn size_of(entries: Seq<(i64, i128)>, n: int) -> int
    decreases n,
{
    if n <= 0 {
        0
    } else {
        size_of(entries, n - 1) + num::size(entries[n - 1].1 as int)
    }
}

/// The bars by who used the filament can be computed in 128 bits.
pub open spec fn people_fit(summary: Summary) -> bool {
    forall|i: int|
        0 <= i < summary.buckets@.len() ==> chart::fits(
            summary.buckets@.len() as int,
            size_of(
                (#[trigger] summary.buckets@[i]).by_user@,
                summary.buckets@[i].by_user@.len() as int,
            ),
        )
}

fn bucket_has(bucket: &Bucket, id: i64) -> (r: bool)
    ensures
        r == uses_in(*bucket, id),
{
    let mut k: usize = 0;
    while k < bucket.by_user.len()
        invariant
            k <= bucket.by_user@.len(),
            forall|j: int| 0 <= j < k ==> (#[trigger] bucket.by_user@[j]).0 != id,
        decreases bucket.by_user.len() - k,
    {
        if bucket.by_user[k].0 == id {
            assert(bucket.by_user@[k as int].0 == id);
            return true;
        }
        k += 1;
    }
    false
}

fn person_is_present(buckets: &Vec<Bucket>, id: i64) -> (r: bool)
    ensures
        r == is_present(buckets@, id),
{
    let mut i: usize = 0;
    while i < buckets.len()
        invariant
            i <= buckets@.len(),
            forall|j: int| #![trigger buckets@[j]] 0 <= j < i ==> !uses_in(buckets@[j], id),
        decreases buckets.len() - i,
    {
        if bucket_has(&buckets[i], id) {
            return true;
        }
        i += 1;
    }
    false
}

/// A colour stays with a person whatever the period: slots follow the order of all accounts,
/// and everyone past the last slot shares one series. With the series comes the column of every
/// person.
fn people_series(summary: &Summary, people: &People) -> (r: (Vec<Series>, Vec<usize>))
    ensures
        series_shown(r.0@) == series_of(
            people.users@,
            summary.buckets@,
            people.users@.len() as int,
        ),
        r.1@.len() == people.users@.len(),
        forall|i: int|
            0 <= i < r.1@.len() ==> #[trigger] r.1@[i] == column_of(
                people.users@,
                summary.buckets@,
                i,
            ),
{
    let users = &people.users;
    let ghost buckets = summary.buckets@;
    let mut series: Vec<Series> = Vec::new();
    let mut columns: Vec<usize> = Vec::new();
    let mut named: usize = 0;
    let mut i: usize = 0;
    assert(series_shown(series@) =~= series_of(users@, buckets, 0));
    while i < users.len()
        invariant
            i <= users@.len(),
            users@ == people.users@,
            buckets == summary.buckets@,
            series_shown(series@) == series_of(users@, buckets, i as int),
            columns@.len() == i,
            forall|k: int|
                0 <= k < i ==> #[trigger] columns@[k] == column_of(users@, buckets, k),
            i <= chart::SLOT_COUNT ==> named == series@.len(),
            i >= chart::SLOT_COUNT ==> named == series_of(
                users@,
                buckets,
                chart::SLOT_COUNT as int,
            ).len(),
            named <= series@.len(),
        decreases users.len() - i,
    {
        let ghost before = series@;
        if i < chart::SLOT_COUNT {
            columns.push(series.len());
        } else {
            columns.push(named);
        }
        if person_is_present(&summary.buckets, users[i].id) {
            match chart::slot(i) {
                Some(slot) => {
                    series.push(Series { name: users[i].username.clone(), slot });
                    named = series.len();
                    assert(series_shown(series@) =~= series_shown(before).push(
                        (users@[i as int].username@, chart::slot_name(i as int)),
                    ));
                },
                None => {
                    if series.len() == named {
                        series.push(
                            Series {
                                name: "Everyone else".to_string(),
                                slot: chart::OTHER_SLOT,
                            },
                        );
                        assert(series_shown(series@) =~= series_shown(before).push(
                            ("Everyone else"@, "series-other"@),
                        ));
                    }
                },
            }
        }
        i += 1;
    }
    (series, columns)
}

proof fn lemma_spread(values: Seq<i128>, at: int, changed: i128)
    requires
        0 <= at < values.len(),
    ensures
        spread(values.update(at, changed)) == spread(values) - (if values[at] >= 0 {
            values[at] as int
        } else {
            -values[at]
        }) + (if changed >= 0 {
            changed as int
        } else {
            -changed
        }),
    decreases values.len(),
{
    let after = values.update(at, changed);
    if at == values.len() - 1 {
        assert(after.drop_last() =~= values.drop_last());
    } else {
        lemma_spread(values.drop_last(), at, changed);
        assert(after.drop_last() =~= values.drop_last().update(at, changed));
    }
}

/// Bars whose values fit, each without its sign, can be drawn.
proof fn lemma_bars_fit(bars: Seq<BarInput>)
    requires
        forall|i: int|
            0 <= i < bars.len() ==> chart::fits(
                bars.len() as int,
                spread((#[trigger] bars[i]).values@),
            ),
    ensures
        chart::fits(bars.len() as int, chart::highest(bars)),
        forall|i: int, k: int|
            0 <= i < bars.len() && 0 <= k < bars[i].values@.len() ==> -i128::MAX <= 1000
                * #[trigger] bars[i].values@[k],
{
    let n = bars.len() as int;
    assert forall|i: int| 0 <= i < bars.len() implies chart::fits(
        n,
        chart::total_of((#[trigger] bars[i]).values@),
    ) by {
        lemma_spread_bounds(bars[i].values@);
        chart::lemma_lower_fits(n, chart::total_of(bars[i].values@), spread(bars[i].values@));
    }
    chart::lemma_highest_fits(bars, n);
    assert forall|i: int, k: int| 0 <= i < bars.len() && 0 <= k < bars[i].values@.len() implies
        -i128::MAX <= 1000 * #[trigger] bars[i].values@[k] by {
        let values = bars[i].values@;
        lemma_spread_bounds(values);
        assert(chart::fits(n, spread(values)));
        chart::lemma_fits(n, spread(values));
        assert(-spread(values) <= values[k]);
    }
}

proof fn lemma_spread_bounds(values: Seq<i128>)
    ensures
        0 <= chart::total_of(values) <= spread(values),
        forall|i: int|
            0 <= i < values.len() ==> -spread(values) <= #[trigger] values[i] <= spread(values),
    decreases values.len(),
{
    if values.len() > 0 {
        lemma_spread_bounds(values.drop_last());
        assert forall|i: int| 0 <= i < values.len() implies -spread(values) <= #[trigger] values[i]
            <= spread(values) by {
            if i < values.len() - 1 {
                assert(values.drop_last()[i] == values[i]);
            }
        }
    }
}

proof fn lemma_size_grows(entries: Seq<(i64, i128)>, n: int, m: int)
    requires
        0 <= n <= m <= entries.len(),
    ensures
        0 <= size_of(entries, n) <= size_of(entries, m),
    decreases m,
{
    if n < m {
        lemma_size_grows(entries, n, m - 1);
    } else if n > 0 {
        lemma_size_grows(entries, n - 1, n - 1);
    }
}

proof fn lemma_series_grow(users: Seq<User>, buckets: Seq<Bucket>, n: int, m: int)
    requires
        0 <= n <= m,
    ensures
        series_of(users, buckets, n).len() <= series_of(users, buckets, m).len(),
    decreases m,
{
    if n < m {
        lemma_series_grow(users, buckets, n, m - 1);
    }
}

/// Someone who used something has a series.
proof fn lemma_column_exists(users: Seq<User>, buckets: Seq<Bucket>, i: int)
    requires
        0 <= i < users.len(),
        is_present(buckets, users[i].id),
    ensures
        0 <= column_of(users, buckets, i) < series_of(users, buckets, users.len() as int).len(),
{
    if i < chart::SLOT_COUNT {
        lemma_series_grow(users, buckets, i + 1, users.len() as int);
        assert(series_of(users, buckets, i + 1).len() == series_of(users, buckets, i).len() + 1);
    } else {
        lemma_series_grow(users, buckets, chart::SLOT_COUNT as int, i);
        lemma_series_grow(users, buckets, i + 1, users.len() as int);
        assert(series_of(users, buckets, i + 1).len() > series_of(
            users,
            buckets,
            chart::SLOT_COUNT as int,
        ).len());
    }
}

fn bar_values(summary: &Summary, people: &People, index: usize, columns: &Vec<usize>, width: usize) -> (r:
    Vec<i128>)
    requires
        people_fit(*summary),
        index < summary.buckets@.len(),
        width == series_of(
            people.users@,
            summary.buckets@,
            people.users@.len() as int,
        ).len(),
        columns@.len() == people.users@.len(),
        forall|i: int|
            0 <= i < columns@.len() ==> #[trigger] columns@[i] == column_of(
                people.users@,
                summary.buckets@,
                i,
            ),
    ensures
        r@.len() == width,
        chart::fits(summary.buckets@.len() as int, spread(r@)),
        ({
            let entries = summary.buckets@[index as int].by_user@;
            forall|c: int|
                0 <= c < width ==> #[trigger] r@[c] == column_sum(
                    people.users@,
                    summary.buckets@,
                    entries,
                    c,
                    entries.len() as int,
                )
        }),
{
    let ghost users = people.users@;
    let ghost buckets = summary.buckets@;
    let entries = &summary.buckets[index].by_user;
    proof {
        let n = buckets.len() as int;
        assert(chart::fits(n, size_of(entries@, entries@.len() as int)));
        lemma_size_grows(entries@, 0, entries@.len() as int);
        chart::lemma_fits(n, size_of(entries@, entries@.len() as int));
    }
    let mut values: Vec<i128> = Vec::new();
    let mut c: usize = 0;
    while c < width
        invariant
            c <= width,
            values@.len() == c,
            spread(values@) == 0,
            forall|k: int| 0 <= k < c ==> #[trigger] values@[k] == 0,
        decreases width - c,
    {
        let ghost before = values@;
        values.push(0);
        assert(values@.drop_last() =~= before);
        c += 1;
    }
    let mut k: usize = 0;
    while k < entries.len()
        invariant
            k <= entries@.len(),
            index < summary.buckets@.len(),
            users == people.users@,
            buckets == summary.buckets@,
            entries@ == buckets[index as int].by_user@,
            people_fit(*summary),
            size_of(entries@, entries@.len() as int) <= i128::MAX,
            width == series_of(users, buckets, users.len() as int).len(),
            columns@.len() == users.len(),
            forall|i: int|
                0 <= i < columns@.len() ==> #[trigger] columns@[i] == column_of(users, buckets, i),
            values@.len() == width,
            spread(values@) <= size_of(entries@, k as int),
            forall|c: int|
                0 <= c < width ==> #[trigger] values@[c] == column_sum(
                    users,
                    buckets,
                    entries@,
                    c,
                    k as int,
                ),
        decreases entries.len() - k,
    {
        let (id, mg) = entries[k];
        let i = find_user(&people.users, id);
        proof {
            lemma_size_grows(entries@, k as int, entries@.len() as int);
            lemma_size_grows(entries@, k + 1, entries@.len() as int);
            lemma_spread_bounds(values@);
        }
        if i < people.users.len() {
            proof {
                lemma_user_at(users, id, 0);
                assert(uses_in(buckets[index as int], id)) by {
                    assert(entries@[k as int].0 == id);
                }
                lemma_column_exists(users, buckets, i as int);
            }
            let at: usize = columns[i];
            let ghost before = values@;
            let sum: i128 = values[at] + mg;
            values[at] = sum;
            proof {
                lemma_spread(before, at as int, sum);
            }
            assert forall|c: int| 0 <= c < width implies #[trigger] values@[c] == column_sum(
                users,
                buckets,
                entries@,
                c,
                k + 1,
            ) by {
                assert(before[c] == column_sum(users, buckets, entries@, c, k as int));
            }
        } else {
            assert forall|c: int| 0 <= c < width implies #[trigger] values@[c] == column_sum(
                users,
                buckets,
                entries@,
                c,
                k + 1,
            ) by {}
        }
        k += 1;
    }
    proof {
        chart::lemma_lower_fits(
            buckets.len() as int,
            spread(values@),
            size_of(entries@, entries@.len() as int),
        );
    }
    values
}

proof fn lemma_user_at(users: Seq<User>, id: i64, i: int)
    requires
        0 <= i <= users.len(),
    ensures
        i <= user_at(users, id, i) <= users.len(),
        user_at(users, id, i) < users.len() ==> users[user_at(users, id, i)].id == id,
    decreases users.len() - i,
{
    if i < users.len() && users[i].id != id {
        lemma_user_at(users, id, i + 1);
    }
}

/// The chart of a summary by who used the filament; none where nothing was used.
pub open spec fn is_people_chart(drawn: Option<BarChart>, summary: Summary, users: Seq<User>) -> bool {
    exists|series: Seq<Series>, bars: Seq<BarInput>|
        #![trigger series_shown(series), are_people_bars(bars, users, summary, series.len() as int)]
        series_shown(series) == series_of(users, summary.buckets@, users.len() as int)
            && are_people_bars(bars, users, summary, series.len() as int) && match drawn {
            Some(shown) => chart::highest(bars) > 0 && chart::is_chart(
                weight_label,
                "Filament used per "@ + unit_name(summary.granularity) + ", by person"@,
                series,
                bars,
                shown,
            ),
            None => chart::highest(bars) == 0,
        }
}

/// What was used per day or month, by person.
pub fn people_chart(summary: &Summary, people: &People) -> (r: Option<BarChart>)
    requires
        people_fit(*summary),
    ensures
        is_people_chart(r, *summary, people.users@),
{
    let (series, columns) = people_series(summary, people);
    let buckets = &summary.buckets;
    let width: usize = series.len();
    assert(series_shown(series@).len() == series@.len());
    let mut bars: Vec<BarInput> = Vec::new();
    let mut i: usize = 0;
    while i < buckets.len()
        invariant
            i <= buckets@.len(),
            buckets@ == summary.buckets@,
            people_fit(*summary),
            width == series_of(
                people.users@,
                summary.buckets@,
                people.users@.len() as int,
            ).len(),
            columns@.len() == people.users@.len(),
            forall|i: int|
                0 <= i < columns@.len() ==> #[trigger] columns@[i] == column_of(
                    people.users@,
                    summary.buckets@,
                    i,
                ),
            bars@.len() == i,
            forall|k: int|
                0 <= k < i ==> is_people_bar(
                    #[trigger] bars@[k],
                    people.users@,
                    *summary,
                    width as int,
                    k,
                ),
            forall|k: int|
                0 <= k < i ==> chart::fits(
                    buckets@.len() as int,
                    spread((#[trigger] bars@[k]).values@),
                ),
        decreases buckets.len() - i,
    {
        let values = bar_values(summary, people, i, &columns, width);
        bars.push(bar_input(buckets[i].start, summary.granularity, i == 0, values));
        i += 1;
    }
    assert(are_people_bars(bars@, people.users@, *summary, series@.len() as int));
    proof {
        lemma_bars_fit(bars@);
    }
    let mut description = String::new();
    description.append("Filament used per ");
    description.append(unit(summary.granularity));
    description.append(", by person");
    assert(description@ =~= "Filament used per "@ + unit_name(summary.granularity)
        + ", by person"@);
    chart::stacked(description, series, bars, weight_label)
}

// ---------------------------------------------------------------------------------------------
// The pages
// ---------------------------------------------------------------------------------------------

#[derive(Debug)]
pub struct StatsPage {
    pub periods: Vec<PeriodLink>,
    pub tiles: Vec<Tile>,
    pub people: Vec<PersonRow>,
    pub unit: &'static str,
    pub chart: Option<BarChart>,
    pub matrix: Matrix,
    pub debts: Vec<DebtRow>,
    pub payments: Vec<PaymentRow>,
    pub can_delete_payments: bool,
    pub materials: Vec<AmountRow>,
    pub unaccounted: Vec<AmountRow>,
    pub notice: Option<&'static str>,
    pub error: Option<&'static str>,
}

/// Everything in the summary can be written down.
pub open spec fn summary_can_be_shown(summary: Summary) -> bool {
    &&& are_countable(summary.people@)
    &&& forall|i: int| 0 <= i < summary.people@.len() ==> can_be_shown(#[trigger] summary.people@[i])
    &&& pairs_can_be_shown(summary.pairs@)
    &&& forall|i: int| 0 <= i < summary.materials@.len() ==> (#[trigger] summary.materials@[i]).1
        > i128::MIN
    &&& forall|i: int|
        0 <= i < summary.unaccounted@.len() ==> (#[trigger] summary.unaccounted@[i]).mg > i128::MIN
            && (summary.unaccounted@[i].value matches Some(value) ==> value > i128::MIN)
}

fn people_are_countable(people: &Vec<Person>) -> (r: bool)
    ensures
        r == are_countable(people@),
{
    let most: i128 = i128::MAX / 100;
    let mut prints: i128 = 0;
    let mut seconds: i128 = 0;
    let mut mg: i128 = 0;
    let mut i: usize = 0;
    while i < people.len()
        invariant
            i <= people@.len(),
            most == i128::MAX / 100,
            prints == sizes(people@.take(i as int)).prints,
            seconds == sizes(people@.take(i as int)).seconds,
            mg == sizes(people@.take(i as int)).mg,
            0 <= prints <= most,
            0 <= seconds <= i128::MAX - 1_000,
            0 <= mg,
        decreases people.len() - i,
    {
        proof {
            lemma_sizes_grow(people@, i + 1);
        }
        assert(people@.take(i + 1).drop_last() =~= people@.take(i as int));
        let person = people[i];
        let more: i128 = person.prints() as i128;
        if person.print_seconds == i128::MIN || person.total_mg == i128::MIN {
            return false;
        }
        let time: i128 = if person.print_seconds >= 0 {
            person.print_seconds
        } else {
            -person.print_seconds
        };
        let weight: i128 = if person.total_mg >= 0 {
            person.total_mg
        } else {
            -person.total_mg
        };
        if more > most - prints || time > i128::MAX - 1_000 - seconds || weight > i128::MAX - mg {
            return false;
        }
        prints = prints + more;
        seconds = seconds + time;
        mg = mg + weight;
        i += 1;
    }
    assert(people@.take(i as int) =~= people@);
    true
}

/// Whether everything in a summary can be written down.
pub fn can_be_written(summary: &Summary) -> (r: bool)
    ensures
        r == summary_can_be_shown(*summary),
{
    if !people_are_countable(&summary.people) {
        return false;
    }
    let most: i128 = i128::MAX / 100;
    let mut i: usize = 0;
    while i < summary.people.len()
        invariant
            i <= summary.people@.len(),
            most == i128::MAX / 100,
            forall|k: int| 0 <= k < i ==> can_be_shown(#[trigger] summary.people@[k]),
        decreases summary.people.len() - i,
    {
        let person = summary.people[i];
        let fits = person.print_seconds <= i128::MAX - 1_000 && person.total_mg > i128::MIN
            && person.others_mg <= most && person.others_mg >= -most && person.own_mg > i128::MIN
            && person.shared_mg > i128::MIN && person.wasted_mg > i128::MIN
            && person.others_value > i128::MIN;
        assert(fits == can_be_shown(summary.people@[i as int]));
        if !fits {
            return false;
        }
        i += 1;
    }
    let mut i: usize = 0;
    while i < summary.pairs.len()
        invariant
            i <= summary.pairs@.len(),
            forall|k: int|
                0 <= k < i ==> (#[trigger] summary.pairs@[k]).mg > i128::MIN && (
                summary.pairs@[k].value matches Some(value) ==> value > i128::MIN),
        decreases summary.pairs.len() - i,
    {
        let pair = summary.pairs[i];
        assert(pair == summary.pairs@[i as int]);
        let valued = match pair.value {
            Some(value) => value > i128::MIN,
            None => true,
        };
        if pair.mg == i128::MIN || !valued {
            return false;
        }
        i += 1;
    }
    let mut i: usize = 0;
    while i < summary.materials.len()
        invariant
            i <= summary.materials@.len(),
            forall|k: int| 0 <= k < i ==> (#[trigger] summary.materials@[k]).1 > i128::MIN,
        decreases summary.materials.len() - i,
    {
        if summary.materials[i].1 == i128::MIN {
            assert(summary.materials@[i as int].1 == i128::MIN);
            return false;
        }
        i += 1;
    }
    let mut i: usize = 0;
    while i < summary.unaccounted.len()
        invariant
            i <= summary.unaccounted@.len(),
            forall|k: int|
                0 <= k < i ==> (#[trigger] summary.unaccounted@[k]).mg > i128::MIN && (
                summary.unaccounted@[k].value matches Some(value) ==> value > i128::MIN),
        decreases summary.unaccounted.len() - i,
    {
        let entry = &summary.unaccounted[i];
        assert(*entry == summary.unaccounted@[i as int]);
        let valued = match entry.value {
            Some(value) => value > i128::MIN,
            None => true,
        };
        if entry.mg == i128::MIN || !valued {
            return false;
        }
        i += 1;
    }
    true
}

/// How high bars may be of which there are so many.
fn bar_limit(n: usize) -> (r: i128)
    requires
        n > 0,
    ensures
        forall|high: int| #![trigger chart::fits(n as int, high)]
            chart::fits(n as int, high) <==> high <= r,
        0 <= r <= 1_701_411_834_604_692_317_316_873_037_158,
{
    let d: i128 = 100_000_000 * n as i128;
    let limit: i128 = i128::MAX / d;
    proof {
        assert(0 <= limit <= 1_701_411_834_604_692_317_316_873_037_158) by (nonlinear_arith)
            requires
                100_000_000 <= d,
                limit == 170141183460469231731687303715884105727int / (d as int),
        ;
        assert forall|high: int| #![trigger chart::fits(n as int, high)]
            chart::fits(n as int, high) <==> high <= limit by {
            assert(100_000_000 * (n * high) == d * high) by (nonlinear_arith)
                requires
                    d == 100_000_000 * n,
            ;
            assert((d * high <= 170141183460469231731687303715884105727int) <==> high <= limit)
                by (nonlinear_arith)
                requires
                    0 < d,
                    limit == 170141183460469231731687303715884105727int / (d as int),
            ;
        }
    }
    limit
}

/// Whether the bars by whose spools were used can be drawn.
pub fn whose_can_be_drawn(summary: &Summary) -> (r: bool)
    ensures
        r == whose_fits(*summary),
{
    let n: usize = summary.buckets.len();
    if n == 0 {
        return true;
    }
    let limit: i128 = bar_limit(n);
    let mut i: usize = 0;
    while i < n
        invariant
            i <= n,
            n == summary.buckets@.len(),
            0 <= limit <= 1_701_411_834_604_692_317_316_873_037_158,
            forall|high: int| #![trigger chart::fits(n as int, high)]
                chart::fits(n as int, high) <==> high <= limit,
            forall|k: int|
                #![trigger summary.buckets@[k]]
                0 <= k < i ==> chart::fits(n as int, spread(summary.buckets@[k].by_whose@)),
        decreases n - i,
    {
        let bucket = &summary.buckets[i];
        let ghost values = bucket.by_whose@;
        assert(bucket.by_whose@ == summary.buckets@[i as int].by_whose@);
        proof {
            reveal_with_fuel(spread, 4);
            assert(values.drop_last().drop_last().drop_last() =~= seq![]);
        }
        let (a, b, c) = (bucket.by_whose[0], bucket.by_whose[1], bucket.by_whose[2]);
        assert(spread(values) == num::size(a as int) + num::size(b as int) + num::size(c as int));
        if a > limit || a < -limit || b > limit || b < -limit || c > limit || c < -limit {
            assert(!chart::fits(n as int, spread(values)));
            return false;
        }
        let sum: i128 = size(a) + size(b) + size(c);
        if sum > limit {
            assert(!chart::fits(n as int, spread(values)));
            return false;
        }
        i += 1;
    }
    true
}

fn size(value: i128) -> (r: i128)
    requires
        value > i128::MIN,
    ensures
        r == num::size(value as int),
{
    if value >= 0 {
        value
    } else {
        -value
    }
}

/// Whether the bars by who used the filament can be drawn.
pub fn people_can_be_drawn(summary: &Summary) -> (r: bool)
    ensures
        r == people_fit(*summary),
{
    let n: usize = summary.buckets.len();
    if n == 0 {
        return true;
    }
    let limit: i128 = bar_limit(n);
    let mut i: usize = 0;
    while i < n
        invariant
            i <= n,
            n == summary.buckets@.len(),
            0 <= limit <= 1_701_411_834_604_692_317_316_873_037_158,
            forall|high: int| #![trigger chart::fits(n as int, high)]
                chart::fits(n as int, high) <==> high <= limit,
            forall|k: int|
                0 <= k < i ==> chart::fits(
                    n as int,
                    size_of(
                        (#[trigger] summary.buckets@[k]).by_user@,
                        summary.buckets@[k].by_user@.len() as int,
                    ),
                ),
        decreases n - i,
    {
        let entries = &summary.buckets[i].by_user;
        let ghost all = size_of(entries@, entries@.len() as int);
        assert(entries@ == summary.buckets@[i as int].by_user@);
        let mut sum: i128 = 0;
        let mut k: usize = 0;
        while k < entries.len()
            invariant
                k <= entries@.len(),
                i < n,
                n == summary.buckets@.len(),
                entries@ == summary.buckets@[i as int].by_user@,
                all == size_of(entries@, entries@.len() as int),
                0 <= limit <= 1_701_411_834_604_692_317_316_873_037_158,
                forall|high: int| #![trigger chart::fits(n as int, high)]
                    chart::fits(n as int, high) <==> high <= limit,
                sum == size_of(entries@, k as int),
                0 <= sum <= limit,
            decreases entries.len() - k,
        {
            let mg: i128 = entries[k].1;
            proof {
                lemma_size_grows(entries@, k + 1, entries@.len() as int);
            }
            if mg > limit || mg < -limit || size(mg) > limit - sum {
                assert(!chart::fits(n as int, all));
                return false;
            }
            sum = sum + size(mg);
            k += 1;
        }
        i += 1;
    }
    true
}

/// The page for everyone.
pub fn stats_page(
    summary: &Summary,
    people: &People,
    payments: &[Settlement],
    debts: &[Debt],
    viewer: &User,
    query: &StatsQuery,
    zone: &Zone,
) -> (r: StatsPage)
    requires
        summary_can_be_shown(*summary),
        people_fit(*summary),
    ensures
        ({
            let users = people.users@;
            let period = query.asks_for();
            &&& are_period_links(r.periods@, "/stats"@, period)
            &&& are_tiles(r.tiles@, summary.people@, None)
            &&& r.people@.len() == summary.people@.len()
            &&& forall|i: int|
                0 <= i < r.people@.len() ==> is_person_row(
                    #[trigger] r.people@[i],
                    summary.people@[i],
                    users,
                    period,
                )
            &&& r.unit@ == unit_name(summary.granularity)
            &&& is_people_chart(r.chart, *summary, users)
            &&& is_matrix(r.matrix, *summary, users)
            &&& r.debts@.len() == debts@.len()
            &&& forall|i: int|
                0 <= i < r.debts@.len() ==> is_debt_row(
                    #[trigger] r.debts@[i],
                    debts@[i],
                    users,
                    Some(*viewer),
                )
            &&& forall|i: int|
                0 <= i < r.payments@.len() ==> is_payment_row(
                    #[trigger] r.payments@[i],
                    payments@[i],
                    *zone,
                )
            &&& r.payments@.len() == if payments@.len() < RECENT_PAYMENTS {
                payments@.len() as int
            } else {
                RECENT_PAYMENTS as int
            }
            &&& r.can_delete_payments == (viewer.role == accounts::Role::Admin)
            &&& are_materials(r.materials@, summary.materials@)
            &&& r.unaccounted@.len() == summary.unaccounted@.len()
            &&& forall|i: int|
                0 <= i < r.unaccounted@.len() ==> is_unaccounted_row(
                    #[trigger] r.unaccounted@[i],
                    summary.unaccounted@[i],
                    users,
                )
            &&& match r.notice {
                Some(said) => query.notice_said() == Some(said@),
                None => query.notice_said() is None,
            }
            &&& match r.error {
                Some(said) => query.error_said() == Some(said@),
                None => query.error_said() is None,
            }
        }),
{
    let period = query.period();
    let mut rows: Vec<PersonRow> = Vec::new();
    let mut i: usize = 0;
    while i < summary.people.len()
        invariant
            i <= summary.people@.len(),
            summary_can_be_shown(*summary),
            rows@.len() == i,
            forall|k: int|
                0 <= k < i ==> is_person_row(
                    #[trigger] rows@[k],
                    summary.people@[k],
                    people.users@,
                    period,
                ),
        decreases summary.people.len() - i,
    {
        assert(can_be_shown(summary.people@[i as int]));
        rows.push(person_row(&summary.people[i], people, period));
        i += 1;
    }
    let mut unaccounted: Vec<AmountRow> = Vec::new();
    let mut i: usize = 0;
    while i < summary.unaccounted.len()
        invariant
            i <= summary.unaccounted@.len(),
            summary_can_be_shown(*summary),
            unaccounted@.len() == i,
            forall|k: int|
                0 <= k < i ==> is_unaccounted_row(
                    #[trigger] unaccounted@[k],
                    summary.unaccounted@[k],
                    people.users@,
                ),
        decreases summary.unaccounted.len() - i,
    {
        assert(summary.unaccounted@[i as int].mg > i128::MIN);
        unaccounted.push(unaccounted_row(&summary.unaccounted[i], people));
        i += 1;
    }
    StatsPage {
        periods: period_links("/stats", period),
        tiles: tiles(summary.people.as_slice(), None),
        people: rows,
        unit: unit(summary.granularity),
        chart: people_chart(summary, people),
        matrix: matrix(summary, people),
        debts: debt_rows(debts, people, Some(viewer)),
        payments: payment_rows(payments, zone),
        can_delete_payments: viewer.is_admin(),
        materials: materials(summary),
        unaccounted,
        notice: query.notice(),
        error: query.error(),
    }
}

#[derive(Debug, PartialEq, Eq)]
pub struct PrintRow {
    pub job_id: i64,
    pub when: String,
    pub name: String,
    pub outcome: &'static str,
    pub grams: String,
    pub others_value: String,
}

pub open spec fn is_print_row(row: PrintRow, print: RecentPrint, zone: Zone) -> bool {
    &&& row.job_id == print.job_id
    &&& row.when@ == views::time_text(print.finished_at as int, zone)
    &&& row.name@ == print.name@
    &&& row.outcome@ == print.state.title()
    &&& row.grams@ == weight_text(print.mg as int, 1000)
    &&& row.others_value@ == match print.others_value {
        Some(value) => money_text(value as int),
        None => ""@,
    }
}

pub fn print_row(print: &RecentPrint, zone: &Zone) -> (r: PrintRow)
    requires
        print.mg > i128::MIN,
        print.others_value matches Some(value) ==> value > i128::MIN,
    ensures
        is_print_row(r, *print, *zone),
{
    PrintRow {
        job_id: print.job_id,
        when: views::format_time(print.finished_at, zone),
        name: print.name.clone(),
        outcome: print.state.label(),
        grams: weight(print.mg),
        others_value: match print.others_value {
            Some(value) => money(value),
            None => "".to_string(),
        },
    }
}

pub open spec fn printed_by(id: i64) -> spec_fn(Pair) -> bool {
    |pair: Pair| pair.user_id == id
}

/// What others used of a person's spools.
pub open spec fn owned_by(id: i64) -> spec_fn(Pair) -> bool {
    |pair: Pair| pair.owner_id == Some(id) && pair.user_id != id
}

pub open spec fn concerns(id: i64) -> spec_fn(Debt) -> bool {
    |debt: Debt| debt.debtor == id || debt.creditor == id
}

/// The value is shown of what was someone else's.
pub open spec fn is_used_row(row: AmountRow, pair: Pair, id: i64, users: Seq<User>) -> bool {
    &&& row.label@ == owner_in(users, pair.owner_id)
    &&& row.grams@ == weight_text(pair.mg as int, 1000)
    &&& row.value@ == match (pair.owner_id, pair.value) {
        (Some(owner), Some(value)) => if owner != id {
            money_text(value as int)
        } else {
            ""@
        },
        _ => ""@,
    }
}

pub open spec fn is_used_by_row(row: AmountRow, pair: Pair, users: Seq<User>) -> bool {
    &&& row.label@ == name_in(users, pair.user_id)
    &&& row.grams@ == weight_text(pair.mg as int, 1000)
    &&& row.value@ == match pair.value {
        Some(value) => money_text(value as int),
        None => ""@,
    }
}

pub fn used_rows(summary: &Summary, people: &People, id: i64) -> (r: Vec<AmountRow>)
    requires
        pairs_can_be_shown(summary.pairs@),
    ensures
        r@.len() == summary.pairs@.filter(printed_by(id)).len(),
        forall|i: int|
            0 <= i < r@.len() ==> is_used_row(
                #[trigger] r@[i],
                summary.pairs@.filter(printed_by(id))[i],
                id,
                people.users@,
            ),
{
    let ghost p = printed_by(id);
    let pairs = &summary.pairs;
    let mut rows: Vec<AmountRow> = Vec::new();
    proof {
        crate::lists::lemma_filter_ends(pairs@, p);
    }
    let mut i: usize = 0;
    while i < pairs.len()
        invariant
            i <= pairs@.len(),
            p == printed_by(id),
            pairs_can_be_shown(pairs@),
            rows@.len() == pairs@.take(i as int).filter(p).len(),
            forall|k: int|
                0 <= k < rows@.len() ==> is_used_row(
                    #[trigger] rows@[k],
                    pairs@.take(i as int).filter(p)[k],
                    id,
                    people.users@,
                ),
        decreases pairs.len() - i,
    {
        proof {
            crate::lists::lemma_filter_step(pairs@, p, i as int);
        }
        let pair = pairs[i];
        assert(pairs@[i as int].mg > i128::MIN);
        if pair.user_id == id {
            let foreign = match pair.owner_id {
                Some(owner) => owner != id,
                None => false,
            };
            let value = match pair.value {
                Some(value) => if foreign {
                    money(value)
                } else {
                    "".to_string()
                },
                None => "".to_string(),
            };
            rows.push(
                AmountRow { label: people.owner(pair.owner_id), grams: weight(pair.mg), value },
            );
        }
        i += 1;
    }
    rows
}

pub fn used_by_rows(summary: &Summary, people: &People, id: i64) -> (r: Vec<AmountRow>)
    requires
        pairs_can_be_shown(summary.pairs@),
    ensures
        r@.len() == summary.pairs@.filter(owned_by(id)).len(),
        forall|i: int|
            0 <= i < r@.len() ==> is_used_by_row(
                #[trigger] r@[i],
                summary.pairs@.filter(owned_by(id))[i],
                people.users@,
            ),
{
    let ghost p = owned_by(id);
    let pairs = &summary.pairs;
    let mut rows: Vec<AmountRow> = Vec::new();
    proof {
        crate::lists::lemma_filter_ends(pairs@, p);
    }
    let mut i: usize = 0;
    while i < pairs.len()
        invariant
            i <= pairs@.len(),
            p == owned_by(id),
            pairs_can_be_shown(pairs@),
            rows@.len() == pairs@.take(i as int).filter(p).len(),
            forall|k: int|
                0 <= k < rows@.len() ==> is_used_by_row(
                    #[trigger] rows@[k],
                    pairs@.take(i as int).filter(p)[k],
                    people.users@,
                ),
        decreases pairs.len() - i,
    {
        proof {
            crate::lists::lemma_filter_step(pairs@, p, i as int);
        }
        let pair = pairs[i];
        assert(pairs@[i as int].mg > i128::MIN);
        if same_owner(pair.owner_id, Some(id)) && pair.user_id != id {
            let value = match pair.value {
                Some(value) => money(value),
                None => "".to_string(),
            };
            rows.push(
                AmountRow { label: people.name(pair.user_id), grams: weight(pair.mg), value },
            );
        }
        i += 1;
    }
    rows
}

/// The debts that a person has or is owed.
pub fn involved(debts: &[Debt], id: i64) -> (r: Vec<Debt>)
    ensures
        r@ == debts@.filter(concerns(id)),
{
    let ghost p = concerns(id);
    let mut out: Vec<Debt> = Vec::new();
    proof {
        crate::lists::lemma_filter_ends(debts@, p);
    }
    let mut i: usize = 0;
    while i < debts.len()
        invariant
            i <= debts@.len(),
            p == concerns(id),
            out@ == debts@.take(i as int).filter(p),
        decreases debts.len() - i,
    {
        proof {
            crate::lists::lemma_filter_step(debts@, p, i as int);
        }
        if debts[i].debtor == id || debts[i].creditor == id {
            out.push(debts[i]);
        }
        i += 1;
    }
    out
}

#[derive(Debug)]
pub struct UserStatsPage {
    pub name: String,
    pub overview: String,
    pub periods: Vec<PeriodLink>,
    pub tiles: Vec<Tile>,
    pub debts: Vec<DebtRow>,
    pub unit: &'static str,
    pub chart: Option<BarChart>,
    pub used: Vec<AmountRow>,
    pub used_by: Vec<AmountRow>,
    pub materials: Vec<AmountRow>,
    pub prints: Vec<PrintRow>,
}

/// The first person of a summary, and nobody else.
pub open spec fn only_first(people: Seq<Person>) -> Seq<Person> {
    if people.len() > 0 {
        seq![people[0]]
    } else {
        seq![]
    }
}

/// One person's page. `own` sums up that person's prints alone.
pub fn user_stats_page(
    subject: &User,
    summary: &Summary,
    own: &Summary,
    people: &People,
    debts: &[Debt],
    recent: &[RecentPrint],
    period: Period,
    zone: &Zone,
) -> (r: UserStatsPage)
    requires
        summary_can_be_shown(*summary),
        summary_can_be_shown(*own),
        whose_fits(*own),
        forall|i: int|
            0 <= i < recent@.len() ==> (#[trigger] recent@[i]).mg > i128::MIN && (
            recent@[i].others_value matches Some(value) ==> value > i128::MIN),
    ensures
        ({
            let users = people.users@;
            let id = subject.id;
            &&& r.name@ == subject.username@
            &&& r.overview@ == period_href("/stats"@, period)
            &&& are_period_links(
                r.periods@,
                "/stats/users/"@ + text::decimal_int(id as int),
                period,
            )
            &&& are_tiles(
                r.tiles@,
                only_first(own.people@),
                if own.people@.len() > 0 {
                    Some(own.people@[0])
                } else {
                    None
                },
            )
            &&& r.debts@.len() == debts@.filter(concerns(id)).len()
            &&& forall|i: int|
                0 <= i < r.debts@.len() ==> is_debt_row(
                    #[trigger] r.debts@[i],
                    debts@.filter(concerns(id))[i],
                    users,
                    None,
                )
            &&& r.unit@ == unit_name(own.granularity)
            &&& is_whose_chart(r.chart, *own)
            &&& r.used@.len() == summary.pairs@.filter(printed_by(id)).len()
            &&& forall|i: int|
                0 <= i < r.used@.len() ==> is_used_row(
                    #[trigger] r.used@[i],
                    summary.pairs@.filter(printed_by(id))[i],
                    id,
                    users,
                )
            &&& r.used_by@.len() == summary.pairs@.filter(owned_by(id)).len()
            &&& forall|i: int|
                0 <= i < r.used_by@.len() ==> is_used_by_row(
                    #[trigger] r.used_by@[i],
                    summary.pairs@.filter(owned_by(id))[i],
                    users,
                )
            &&& are_materials(r.materials@, own.materials@)
            &&& r.prints@.len() == recent@.len()
            &&& forall|i: int|
                0 <= i < r.prints@.len() ==> is_print_row(#[trigger] r.prints@[i], recent@[i], *zone)
        }),
{
    let mut first: Vec<Person> = Vec::new();
    if own.people.len() > 0 {
        assert(can_be_shown(own.people@[0]));
        first.push(own.people[0]);
        proof {
            lemma_sizes_grow(own.people@, 1);
            assert(own.people@.take(1) =~= first@);
        }
    }
    assert(first@ =~= only_first(own.people@));
    let tiles = if own.people.len() > 0 {
        tiles(first.as_slice(), Some(&own.people[0]))
    } else {
        tiles(first.as_slice(), None)
    };
    let mut prints: Vec<PrintRow> = Vec::new();
    let mut i: usize = 0;
    while i < recent.len()
        invariant
            i <= recent@.len(),
            prints@.len() == i,
            forall|i: int|
                0 <= i < recent@.len() ==> (#[trigger] recent@[i]).mg > i128::MIN && (
                recent@[i].others_value matches Some(value) ==> value > i128::MIN),
            forall|k: int| 0 <= k < i ==> is_print_row(#[trigger] prints@[k], recent@[k], *zone),
        decreases recent.len() - i,
    {
        assert(recent@[i as int].mg > i128::MIN);
        prints.push(print_row(&recent[i], zone));
        i += 1;
    }
    let mut base = String::new();
    base.append("/stats/users/");
    text::push_decimal_int(&mut base, subject.id);
    assert(base@ =~= "/stats/users/"@ + text::decimal_int(subject.id as int));
    let mut overview = String::new();
    overview.append("/stats?period=");
    overview.append(period.as_str());
    proof {
        reveal_strlit("/stats");
        reveal_strlit("?period=");
        reveal_strlit("/stats?period=");
        assert("/stats?period="@ =~= "/stats"@ + "?period="@);
        assert(overview@ =~= period_href("/stats"@, period));
    }
    let theirs = involved(debts, subject.id);
    UserStatsPage {
        name: subject.username.clone(),
        overview,
        periods: period_links(base.as_str(), period),
        tiles,
        debts: debt_rows(theirs.as_slice(), people, None),
        unit: unit(own.granularity),
        chart: whose_chart(own),
        used: used_rows(summary, people, subject.id),
        used_by: used_by_rows(summary, people, subject.id),
        materials: materials(own),
        prints,
    }
}

// ---------------------------------------------------------------------------------------------
// Payments
// ---------------------------------------------------------------------------------------------

#[derive(Debug, Clone, PartialEq, Eq)]
pub struct PaymentForm {
    pub from_user: String,
    pub to_user: String,
    pub amount: String,
}

/// Who is meant in a field of the form.
pub open spec fn meant(raw: Seq<char>) -> Option<int> {
    text::parsed_signed(text::trim(raw))
}

fn find_meant(raw: &str) -> (r: Option<i64>)
    ensures
        match r {
            Some(id) => meant(raw@) == Some(id as int),
            None => meant(raw@) is None,
        },
{
    let chars = text::chars(raw);
    text::parse_signed(text::trimmed(chars.as_slice()))
}

pub open spec fn has_account(db: Accounts, id: int) -> bool {
    accounts::account_at(db.accounts@, id as i64, 0) < db.accounts@.len()
}

/// What becomes of a payment that someone reports.
pub ghost enum PaymentFate {
    BadRequest(Seq<char>),
    Forbidden,
    Redirect(Seq<char>),
    Recorded { from: int, to: int, cents: int },
}

pub open spec fn payment_fate(form: PaymentForm, current: User, db: Accounts) -> PaymentFate {
    match (meant(form.from_user@), meant(form.to_user@)) {
        (Some(from), Some(to)) => {
            let amount = inventory::price_of(text::trim(form.amount@));
            if current.id != to && current.role != accounts::Role::Admin {
                PaymentFate::Forbidden
            } else if from == to {
                PaymentFate::Redirect("/stats?problem=payment-people#balances"@)
            } else if !has_account(db, from) || !has_account(db, to) {
                PaymentFate::BadRequest("That person does not exist."@)
            } else if text::trim(form.amount@).len() == 0 || amount is None || amount->0 <= 0 {
                PaymentFate::Redirect("/stats?problem=payment-amount#balances"@)
            } else {
                PaymentFate::Recorded { from, to, cents: amount->0 }
            }
        },
        _ => PaymentFate::BadRequest("Choose who paid whom."@),
    }
}

fn account_exists(db: &Accounts, id: i64) -> (r: bool)
    ensures
        r == has_account(*db, id as int),
{
    accounts::user(db, id).is_some()
}

/// Whoever received the money says so, or an admin: nobody clears their own debt. Returns where
/// to go next.
pub fn record_payment(
    payments: &mut stats::Payments,
    db: &Accounts,
    current: &User,
    form: &PaymentForm,
    now: i64,
) -> (r: Result<&'static str, AppError>)
    requires
        stats::next_payment_id(old(payments).rows@) <= i64::MAX,
    ensures
        match payment_fate(*form, *current, *db) {
            PaymentFate::BadRequest(said) => r matches Err(err) && err.is_bad_request(said)
                && final(payments).rows@ == old(payments).rows@,
            PaymentFate::Forbidden => r == Err::<&'static str, AppError>(AppError::Forbidden)
                && final(payments).rows@ == old(payments).rows@,
            PaymentFate::Redirect(to) => r matches Ok(target) && target@ == to
                && final(payments).rows@ == old(payments).rows@,
            PaymentFate::Recorded { from, to, cents } => {
                &&& r matches Ok(target) && target@ == "/stats?done=paid#balances"@
                &&& final(payments).rows@ == old(payments).rows@.push(
                    (stats::Payment {
                        id: stats::next_payment_id(old(payments).rows@) as i64,
                        from_user: from as i64,
                        to_user: to as i64,
                        amount_cents: cents as i64,
                        recorded_by: Some(current.id),
                        created_at: now,
                    }),
                )
            },
        },
{
    let from: i64 = match find_meant(form.from_user.as_str()) {
        Some(from) => from,
        None => {
            return Err(AppError::BadRequest("Choose who paid whom.".to_string()));
        },
    };
    let to: i64 = match find_meant(form.to_user.as_str()) {
        Some(to) => to,
        None => {
            return Err(AppError::BadRequest("Choose who paid whom.".to_string()));
        },
    };
    if current.id != to && !current.is_admin() {
        return Err(AppError::Forbidden);
    }
    if from == to {
        return Ok("/stats?problem=payment-people#balances");
    }
    if !account_exists(db, from) || !account_exists(db, to) {
        return Err(AppError::BadRequest("That person does not exist.".to_string()));
    }
    let cents: i64 = match inventory::parse_price(form.amount.as_str()) {
        Ok(Some(cents)) => cents,
        _ => {
            return Ok("/stats?problem=payment-amount#balances");
        },
    };
    if cents <= 0 {
        return Ok("/stats?problem=payment-amount#balances");
    }
    let _id = stats::record_settlement(payments, from, to, cents, current.id, now);
    Ok("/stats?done=paid#balances")
}

/// Nobody but whoever is owed money, or an admin, can clear a debt.
pub proof fn nobody_clears_their_own_debt(form: PaymentForm, current: User, db: Accounts)
    requires
        current.role != accounts::Role::Admin,
        payment_fate(form, current, db) is Recorded,
    ensures
        payment_fate(form, current, db)->to == current.id,
        payment_fate(form, current, db)->from != current.id,
{
}

/// Takes a payment back. Returns where to go next.
pub fn delete_payment(payments: &mut stats::Payments, id: i64) -> (r: Result<&'static str, AppError>)
    ensures
        final(payments).rows@ == old(payments).rows@.filter(stats::with_other_payment_id(id)),
        if exists|i: int|
            0 <= i < old(payments).rows@.len() && (#[trigger] old(payments).rows@[i]).id == id {
            r matches Ok(target) && target@ == "/stats?done=payment-deleted#balances"@
        } else {
            r == Err::<&'static str, AppError>(AppError::NotFound)
        },
{
    if stats::delete_settlement(payments, id) {
        Ok("/stats?done=payment-deleted#balances")
    } else {
        Err(AppError::NotFound)
    }
}

/// The totals over people are the sums over each of them.
pub proof fn totals_add_up(people: Seq<Person>, i: int)
    requires
        0 <= i < people.len(),
    ensures
        ({
            let all = totals(people);
            let others = totals(people.remove(i));
            let person = people[i];
            &&& all.prints == others.prints + person.done + person.failed + person.cancelled
            &&& all.done == others.done + person.done
            &&& all.seconds == others.seconds + person.print_seconds
            &&& all.mg == others.mg + person.total_mg
        }),
    decreases people.len(),
{
    if i == people.len() - 1 {
        assert(people.remove(i) =~= people.drop_last());
    } else {
        totals_add_up(people.drop_last(), i);
        assert(people.remove(i).drop_last() =~= people.drop_last().remove(i));
        assert(people.remove(i).last() == people.last());
    }
}

/// A payment can be entered by who was paid, and by an admin; between two users that there are, and
/// of more than nothing.
pub proof fn payments_are_entered_by_who_was_paid(
    form: PaymentForm,
    current: User,
    db: Accounts,
    viewer: Option<User>,
    creditor: i64,
)
    ensures
        may_record(viewer, creditor) <==> viewer is Some && (viewer->0.role == accounts::Role::Admin
            || viewer->0.id == creditor),
        match payment_fate(form, current, db) {
            PaymentFate::Recorded { from, to, cents } => {
                &&& text::parsed_signed(text::trim(form.from_user@)) == Some(from)
                &&& text::parsed_signed(text::trim(form.to_user@)) == Some(to)
                &&& from != to
                &&& current.id == to || current.role == accounts::Role::Admin
                &&& cents > 0 && inventory::price_of(text::trim(form.amount@)) == Some(cents)
                &&& exists|k: int|
                    0 <= k < db.accounts@.len() && (#[trigger] db.accounts@[k]).user.id == from
                &&& exists|k: int|
                    0 <= k < db.accounts@.len() && (#[trigger] db.accounts@[k]).user.id == to
            },
            PaymentFate::Forbidden => current.role != accounts::Role::Admin && text::parsed_signed(
                text::trim(form.to_user@),
            ) != Some(current.id as int),
            _ => true,
        },
{
    if let Some(from) = meant(form.from_user@) {
        accounts::lemma_account_at(db.accounts@, from as i64, 0);
    }
    if let Some(to) = meant(form.to_user@) {
        accounts::lemma_account_at(db.accounts@, to as i64, 0);
    }
}

/// Where a payment can be entered, it is.
pub proof fn a_good_payment_is_recorded(form: PaymentForm, current: User, db: Accounts, i: int, j: int)
    requires
        0 <= i < db.accounts@.len(),
        0 <= j < db.accounts@.len(),
        text::parsed_signed(text::trim(form.from_user@)) == Some(db.accounts@[i].user.id as int),
        text::parsed_signed(text::trim(form.to_user@)) == Some(db.accounts@[j].user.id as int),
        db.accounts@[i].user.id != db.accounts@[j].user.id,
        current.id == db.accounts@[j].user.id || current.role == accounts::Role::Admin,
        text::trim(form.amount@).len() > 0,
        inventory::price_of(text::trim(form.amount@)) is Some,
        inventory::price_of(text::trim(form.amount@))->0 > 0,
    ensures
        payment_fate(form, current, db) == (PaymentFate::Recorded {
            from: db.accounts@[i].user.id as int,
            to: db.accounts@[j].user.id as int,
            cents: inventory::price_of(text::trim(form.amount@))->0,
        }),
{
    accounts::lemma_account_at(db.accounts@, db.accounts@[i].user.id, 0);
    accounts::lemma_account_at(db.accounts@, db.accounts@[j].user.id, 0);
}

/// A share is a whole percentage to the nearest; of nothing there is none.
pub proof fn shares_are_whole_percentages(part: int, whole: int)
    ensures
        whole <= 0 ==> percent_text(part, whole) == "–"@,
        whole > 0 && part >= 0 ==> exists|n: nat|
            percent_text(part, whole) == #[trigger] text::decimal(n) + "%"@ && 200 * part - whole
                <= 2 * (whole * n) <= 200 * part + whole,
        whole > 0 && part < 0 ==> percent_text(part, whole) == "-"@ + percent_text(-part, whole),
{
    if whole > 0 && part >= 0 {
        num::rounding_to_even_misses_by_half_at_most(100 * part, whole);
        let n = num::rounded_even(100 * part, whole);
        assert(n >= 0) by (nonlinear_arith)
            requires
                2 * (100 * part) - whole <= 2 * (whole * n),
                whole > 0,
                part >= 0,
        ;
        assert(percent_text(part, whole) == text::decimal(n as nat) + "%"@);
    }
    if whole > 0 && part < 0 {
        let rest = text::decimal(num::rounded_even(-100 * part, whole) as nat) + "%"@;
        assert(percent_text(-part, whole) == rest);
        assert("-"@ + text::decimal(num::rounded_even(-100 * part, whole) as nat) + "%"@ =~= "-"@
            + rest);
    }
}

/// A weight from a kilogram on is given in kilograms, to ten grams, and a smaller one in grams.
pub proof fn weights_from_a_kilogram_on_are_in_kilograms(grams: int)
    ensures
        -1000 < grams < 1000 ==> weight_text(1000 * grams, 1000) == text::decimal_int(grams) + " g"@,
        grams >= 1000 ==> weight_text(1000 * grams, 1000) == hundredths_text((grams + 5) / 10)
            + " kg"@,
        grams <= -1000 ==> weight_text(1000 * grams, 1000) == hundredths_text(-((-grams + 5) / 10))
            + " kg"@,
{
    if grams >= 0 {
        assert((2 * (1000 * grams) + 1000) / 2000 == grams);
        assert((2 * (1000 * grams) + 10_000) / 20_000 == (grams + 5) / 10);
    } else {
        assert((-2 * (1000 * grams) + 1000) / 2000 == -grams);
        assert((-2 * (1000 * grams) + 10_000) / 20_000 == (-grams + 5) / 10);
    }
}

/// A cell of the table says what a user used of an owner's filament, and nothing where that is
/// nothing; only what was another's has a price.
pub proof fn cells_say_what_was_used_of_whose(pairs: Seq<Pair>, k: int)
    requires
        0 <= k < pairs.len(),
        forall|j: int|
            0 <= j < k ==> (#[trigger] pairs[j]).user_id != pairs[k].user_id || pairs[j].owner_id
                != pairs[k].owner_id,
    ensures
        ({
            let pair = pairs[k];
            let cell = cell_text(pairs, pair.user_id, pair.owner_id);
            let weight = weight_text(pair.mg as int, 1000);
            &&& pair.owner_id is None || pair.owner_id == Some(pair.user_id) || pair.value is None
                ==> cell == weight
            &&& pair.owner_id is Some && pair.owner_id != Some(pair.user_id) && pair.value is Some
                ==> cell == weight + " ("@ + money_text(pair.value->0 as int) + ")"@
        }),
{
    lemma_pair_found(pairs, 0, k);
}

proof fn lemma_pair_found(pairs: Seq<Pair>, from: int, k: int)
    requires
        0 <= from <= k < pairs.len(),
        forall|j: int|
            from <= j < k ==> (#[trigger] pairs[j]).user_id != pairs[k].user_id || pairs[j].owner_id
                != pairs[k].owner_id,
    ensures
        pair_at(pairs, pairs[k].user_id, pairs[k].owner_id, from) == k,
    decreases k - from,
{
    if from < k {
        lemma_pair_found(pairs, from + 1, k);
    }
}

/// A debt concerns the two that it is between.
pub proof fn debts_concern_the_two_of_them(id: i64, debt: Debt)
    ensures
        concerns(id)(debt) <==> debt.debtor == id || debt.creditor == id,
{
}

/// A row says what a person printed: all prints, and those that did not end well.
pub proof fn rows_say_what_a_person_printed(
    row: PersonRow,
    person: Person,
    users: Seq<User>,
    period: Period,
)
    requires
        is_person_row(row, person, users, period),
    ensures
        row.prints == person.done + person.failed + person.cancelled,
        row.unfinished == person.failed + person.cancelled,
        row.filament@ == weight_text(person.total_mg as int, 1000),
        row.own@ == weight_text(person.own_mg as int, 1000),
        row.shared@ == weight_text(person.shared_mg as int, 1000),
        row.wasted@ == weight_text(person.wasted_mg as int, 1000),
        row.others_value@ == money_text(person.others_value as int),
{
}

/// A payment, and a debt, are shown from who pays to who is paid.
pub proof fn payments_go_from_debtor_to_creditor(
    row: PaymentRow,
    payment: Settlement,
    zone: Zone,
    debt_row: DebtRow,
    debt: Debt,
    users: Seq<User>,
    viewer: Option<User>,
)
    requires
        is_payment_row(row, payment, zone),
        is_debt_row(debt_row, debt, users, viewer),
    ensures
        row.from@ == payment.from.1@ && row.to@ == payment.to.1@,
        row.amount@ == inventory::price_text(payment.amount_cents as int),
        debt_row.debtor_id == debt.debtor && debt_row.creditor_id == debt.creditor,
        debt_row.amount@ == inventory::price_text(debt.cents as int),
        debt_row.can_record <==> viewer is Some && (viewer->0.role == accounts::Role::Admin
            || viewer->0.id == debt.creditor),
{
}

/// What a weigh-in did not find is missing; what it found beyond the record is more.
pub proof fn what_is_missing_is_told(row: AmountRow, entry: Unaccounted, users: Seq<User>)
    requires
        is_unaccounted_row(row, entry, users),
    ensures
        entry.mg >= 0 ==> row.grams@ == weight_text(entry.mg as int, 1000) + " missing"@,
        entry.mg < 0 ==> row.grams@ == weight_text(-entry.mg, 1000) + " more than recorded"@,
        entry.value is None ==> row.value@.len() == 0,
        entry.value is Some && entry.value->0 >= 0 ==> row.value@ == money_text(
            entry.value->0 as int,
        ),
        entry.value is Some && entry.value->0 < 0 ==> row.value@ == money_text(-entry.value->0),
{
    reveal_strlit("");
}

/// What a user used of their own filament has no price; what was another's has.
pub proof fn own_filament_has_no_price(row: AmountRow, pair: Pair, id: i64, users: Seq<User>)
    requires
        is_used_row(row, pair, id, users),
    ensures
        row.grams@ == weight_text(pair.mg as int, 1000),
        pair.owner_id is None || pair.owner_id == Some(id) || pair.value is None
            ==> row.value@.len() == 0,
        pair.owner_id is Some && pair.owner_id != Some(id) && pair.value is Some ==> row.value@
            == money_text(pair.value->0 as int),
{
    reveal_strlit("");
}

/// The tiles give prints, time and filament in all, and the share of prints that ended well, or for
/// one person the share of filament that was another's.
pub proof fn tiles_give_the_totals(tiles: Seq<Tile>, people: Seq<Person>, subject: Option<Person>)
    requires
        are_tiles(tiles, people, subject),
    ensures
        tiles.len() == 4,
        tiles[0].label@ == "Prints"@ && tiles[0].value@ == text::decimal(
            totals(people).prints as nat,
        ),
        tiles[1].value@ == time_text(totals(people).seconds),
        tiles[2].value@ == weight_text(totals(people).mg, 1000),
        subject is None ==> tiles[3].value@ == percent_text(
            totals(people).done,
            totals(people).prints,
        ),
        subject is Some ==> tiles[3].value@ == percent_text(
            subject->0.others_mg as int,
            subject->0.total_mg as int,
        ),
{
}

} // verus!

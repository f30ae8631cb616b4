//! The admin's print windows.

use vstd::prelude::*;

use crate::inventory;
use crate::order;
use crate::schedule::{self, Rule, RuleKind, Rules, DAY_NAMES};
use crate::text;
use crate::web::queue;
use crate::zone::Zone;

verus! {

/// Outcomes are fixed codes, so a crafted link cannot put text of the sender's choosing on the
/// page.
#[derive(Debug, PartialEq, Eq)]
pub struct Outcome {
    pub done: Option<String>,
}

pub open spec fn schedule_notice(code: Seq<char>) -> Option<Seq<char>> {
    if code == "added"@ {
        Some("Rule added."@)
    } else if code == "deleted"@ {
        Some("Rule deleted."@)
    } else {
        None
    }
}

impl Outcome {
    pub fn notice(&self) -> (r: Option<&'static str>)
        ensures
            queue::opt_str(r) == match self.done {
                Some(code) => schedule_notice(code@),
                None => None,
            },
    {
        match &self.done {
            None => None,
            Some(code) => if text::same(code.as_str(), "added") {
                Some("Rule added.")
            } else if text::same(code.as_str(), "deleted") {
                Some("Rule deleted.")
            } else {
                None
            },
        }
    }
}

#[derive(Debug)]
pub struct SchedulePage {
    pub rules: Vec<RuleRow>,
    pub timezone: String,
    pub days: [&'static str; 7],
    pub notice: Option<&'static str>,
    pub error: Option<String>,
}

#[derive(Debug, PartialEq, Eq)]
pub struct RuleRow {
    pub id: i64,
    pub kind: &'static str,
    pub label: String,
    pub days: String,
    pub hours: String,
    pub finish: bool,
}

pub open spec fn has_day(days: u8, day: int) -> bool {
    days & (1u8 << (day as u8)) != 0
}

/// The names of the days before `n` that a rule falls on.
pub open spec fn days_upto(days: u8, n: int) -> Seq<Seq<char>>
    decreases n,
{
    if n <= 0 {
        seq![]
    } else if has_day(days, n - 1) {
        days_upto(days, n - 1).push(DAY_NAMES[n - 1]@)
    } else {
        days_upto(days, n - 1)
    }
}

pub open spec fn days_text(days: u8) -> Seq<char> {
    if days == 0b111_1111 {
        "Every day"@
    } else if days == 0b001_1111 {
        "Weekdays"@
    } else if days == 0b110_0000 {
        "Weekends"@
    } else {
        text::join(days_upto(days, 7), ", "@)
    }
}

pub fn day_summary(days: u8) -> (r: String)
    ensures
        r@ == days_text(days),
{
    if days == 0b111_1111 {
        return "Every day".to_string();
    }
    if days == 0b001_1111 {
        return "Weekdays".to_string();
    }
    if days == 0b110_0000 {
        return "Weekends".to_string();
    }
    let mut names: Vec<String> = Vec::new();
    let mut day: u8 = 0;
    assert(text::views(names@) =~= seq![]);
    while day < 7
        invariant
            day <= 7,
            text::views(names@) == days_upto(days, day as int),
        decreases 7 - day,
    {
        if days & (1u8 << day) != 0 {
            let ghost before = text::views(names@);
            names.push(DAY_NAMES[day as usize].to_string());
            assert(text::views(names@) =~= before.push(DAY_NAMES[day as int]@));
        }
        day += 1;
    }
    text::join_strings(&names, ", ")
}

pub open spec fn kind_text(kind: RuleKind) -> Seq<char> {
    match kind {
        RuleKind::Allow => "Allow"@,
        RuleKind::Deny => "Deny"@,
    }
}

fn kind_str(kind: RuleKind) -> (r: &'static str)
    ensures
        r@ == kind_text(kind),
{
    match kind {
        RuleKind::Allow => "Allow",
        RuleKind::Deny => "Deny",
    }
}

pub open spec fn hours_text(start: u16, end: u16) -> Seq<char> {
    schedule::time_text(start as nat) + "\u{2013}"@ + schedule::time_text(end as nat)
}

fn hours(start: u16, end: u16) -> (r: String)
    ensures
        r@ == hours_text(start, end),
{
    let mut out = schedule::format_time(start);
    out.append("\u{2013}");
    out.append(schedule::format_time(end).as_str());
    out
}

impl RuleRow {
    pub open spec fn shows(self, id: i64, rule: Rule) -> bool {
        &&& self.id == id
        &&& self.kind@ == kind_text(rule.kind)
        &&& self.label@ == rule.label@
        &&& self.days@ == days_text(rule.days)
        &&& self.hours@ == hours_text(rule.start_minute, rule.end_minute)
        &&& self.finish == rule.must_finish_before
    }
}

pub open spec fn are_rows(rows: Seq<RuleRow>, rules: Seq<(i64, Rule)>) -> bool {
    rows.len() == rules.len() && forall|i: int|
        0 <= i < rows.len() ==> (#[trigger] rows[i]).shows(rules[i].0, rules[i].1)
}

/// The rules on record. The status is 400 where the page says what went wrong.
pub fn schedule_view(
    db: &Rules,
    zone: &Zone,
    notice: Option<&'static str>,
    error: Option<String>,
) -> (r: (u16, SchedulePage))
    ensures
        are_rows(
            r.1.rules@,
            order::sorted(db.rules@.map_values(schedule::listed()), schedule::rule_order()),
        ),
        r.1.timezone@ == zone.name(),
        r.1.days == DAY_NAMES,
        r.1.notice == notice,
        r.1.error == error,
        r.0 == if error is Some {
            400u16
        } else {
            200
        },
{
    let all = schedule::rules(db);
    let mut rows: Vec<RuleRow> = Vec::new();
    let mut i: usize = 0;
    while i < all.len()
        invariant
            i <= all@.len(),
            rows@.len() == i,
            forall|k: int| 0 <= k < i ==> (#[trigger] rows@[k]).shows(all@[k].0, all@[k].1),
        decreases all.len() - i,
    {
        let rule = &all[i].1;
        rows.push(
            RuleRow {
                id: all[i].0,
                kind: kind_str(rule.kind),
                label: rule.label.clone(),
                days: day_summary(rule.days),
                hours: hours(rule.start_minute, rule.end_minute),
                finish: rule.must_finish_before,
            },
        );
        i += 1;
    }
    let status: u16 = if error.is_some() {
        400
    } else {
        200
    };
    (
        status,
        SchedulePage {
            rules: rows,
            timezone: zone.id().to_string(),
            days: DAY_NAMES,
            notice,
            error,
        },
    )
}

/// Checkboxes are sent only when ticked, and repeated keys do not deserialize into a list, so
/// each day has its own field.
#[derive(Debug, PartialEq, Eq)]
pub struct RuleForm {
    pub kind: String,
    pub label: String,
    pub start: String,
    pub end: String,
    pub must_finish_before: Option<String>,
    pub day0: Option<String>,
    pub day1: Option<String>,
    pub day2: Option<String>,
    pub day3: Option<String>,
    pub day4: Option<String>,
    pub day5: Option<String>,
    pub day6: Option<String>,
}

impl Default for RuleForm {
    fn default() -> (r: RuleForm)
        ensures
            r.kind@ == ""@,
            r.label@ == ""@,
            r.start@ == ""@,
            r.end@ == ""@,
            r.must_finish_before is None,
            r.ticked_spec() == 0,
    {
        RuleForm {
            kind: "".to_string(),
            label: "".to_string(),
            start: "".to_string(),
            end: "".to_string(),
            must_finish_before: None,
            day0: None,
            day1: None,
            day2: None,
            day3: None,
            day4: None,
            day5: None,
            day6: None,
        }
    }
}

/// What a day adds to the days of a rule.
pub open spec fn bit(ticked: Option<String>, value: u8) -> u8 {
    if ticked is Some {
        value
    } else {
        0
    }
}

pub open spec fn too_long() -> Seq<char> {
    "Names are limited to "@ + text::decimal(inventory::TEXT_MAX as nat) + " characters."@
}

impl RuleForm {
    /// The days that are ticked, Monday in bit 0.
    pub open spec fn ticked_spec(self) -> int {
        bit(self.day0, 1) + bit(self.day1, 2) + bit(self.day2, 4) + bit(self.day3, 8) + bit(
            self.day4,
            16,
        ) + bit(self.day5, 32) + bit(self.day6, 64)
    }

    fn ticked(&self) -> (r: u8)
        ensures
            r == self.ticked_spec(),
    {
        let mut days: u8 = 0;
        if self.day0.is_some() {
            days += 1;
        }
        if self.day1.is_some() {
            days += 2;
        }
        if self.day2.is_some() {
            days += 4;
        }
        if self.day3.is_some() {
            days += 8;
        }
        if self.day4.is_some() {
            days += 16;
        }
        if self.day5.is_some() {
            days += 32;
        }
        if self.day6.is_some() {
            days += 64;
        }
        days
    }

    /// The first thing that is wrong with the form.
    pub open spec fn problem(self) -> Option<Seq<char>> {
        if RuleKind::named(self.kind@) is None {
            Some("Choose allow or deny."@)
        } else if self.ticked_spec() == 0 {
            Some("Tick at least one day."@)
        } else if schedule::time_of(self.start@) is None {
            Some("Enter the start as HH:MM."@)
        } else if schedule::time_of(self.end@) is None {
            Some("Enter the end as HH:MM."@)
        } else if text::trim(self.label@).len() > inventory::TEXT_MAX {
            Some(too_long())
        } else {
            None
        }
    }

    /// The rule is what the form says. Without a name it is called what it does.
    pub open spec fn says(self, rule: Rule) -> bool {
        &&& RuleKind::named(self.kind@) == Some(rule.kind)
        &&& rule.days == self.ticked_spec()
        &&& schedule::time_of(self.start@) == Some(rule.start_minute as int)
        &&& schedule::time_of(self.end@) == Some(rule.end_minute as int)
        &&& rule.must_finish_before == self.must_finish_before is Some
        &&& rule.label@ == if text::trim(self.label@).len() == 0 {
            kind_text(rule.kind) + " "@ + hours_text(rule.start_minute, rule.end_minute)
        } else {
            text::trim(self.label@)
        }
        &&& rule.on_the_clock()
    }

    pub fn rule(&self) -> (r: Result<Rule, String>)
        ensures
            match r {
                Ok(rule) => self.problem() is None && self.says(rule),
                Err(problem) => self.problem() == Some(problem@),
            },
    {
        let kind = match RuleKind::parse(self.kind.as_str()) {
            None => {
                return Err("Choose allow or deny.".to_string());
            },
            Some(kind) => kind,
        };
        let days = self.ticked();
        if days == 0 {
            return Err("Tick at least one day.".to_string());
        }
        let start = match schedule::parse_time(self.start.as_str()) {
            None => {
                return Err("Enter the start as HH:MM.".to_string());
            },
            Some(start) => start,
        };
        let end = match schedule::parse_time(self.end.as_str()) {
            None => {
                return Err("Enter the end as HH:MM.".to_string());
            },
            Some(end) => end,
        };
        let label = text::trim_str(self.label.as_str());
        if label.as_str().unicode_len() > inventory::TEXT_MAX {
            let mut out = "Names are limited to ".to_string();
            text::push_decimal(&mut out, inventory::TEXT_MAX as u64);
            out.append(" characters.");
            return Err(out);
        }
        let label = if label.as_str().is_empty() {
            let mut out = kind_str(kind).to_string();
            out.append(" ");
            out.append(hours(start, end).as_str());
            out
        } else {
            label
        };
        Ok(
            Rule {
                kind,
                days,
                start_minute: start,
                end_minute: end,
                must_finish_before: self.must_finish_before.is_some(),
                label,
            },
        )
    }
}

/// Adds the rule that a form describes: on to the page that says so, or what is wrong.
pub fn add_rule(db: &mut Rules, form: &RuleForm, now: i64) -> (r: Result<&'static str, String>)
    requires
        schedule::next_rule_id(old(db).rules@) <= i64::MAX,
    ensures
        match form.problem() {
            Some(problem) => r matches Err(said) && said@ == problem && final(db).rules@ == old(
                db,
            ).rules@,
            None => {
                let added = final(db).rules@.last();
                &&& r matches Ok(next) && next@ == "/admin/schedule?done=added"@
                &&& final(db).rules@ == old(db).rules@.push(added)
                &&& added.id == schedule::next_rule_id(old(db).rules@)
                &&& form.says(added.rule)
                &&& added.created_at == now
            },
        },
{
    match form.rule() {
        Err(problem) => Err(problem),
        Ok(rule) => {
            let id = schedule::add_rule(db, rule, now);
            Ok("/admin/schedule?done=added")
        },
    }
}

pub fn delete_rule(db: &mut Rules, id: i64) -> (r: &'static str)
    ensures
        final(db).rules@ == old(db).rules@.filter(schedule::with_other_id(id)),
        r@ == "/admin/schedule?done=deleted"@,
{
    schedule::delete_rule(db, id);
    "/admin/schedule?done=deleted"
}

/// A ticked box sets the bit of its day, Monday's bit 0 to Sunday's bit 6, and no other.
pub proof fn ticked_days_are_those_of_the_rule(form: RuleForm)
    ensures
        ({
            let days = form.ticked_spec();
            &&& 0 <= days < 128
            &&& form.day0 is Some <==> days % 2 == 1
            &&& form.day1 is Some <==> days / 2 % 2 == 1
            &&& form.day2 is Some <==> days / 4 % 2 == 1
            &&& form.day3 is Some <==> days / 8 % 2 == 1
            &&& form.day4 is Some <==> days / 16 % 2 == 1
            &&& form.day5 is Some <==> days / 32 % 2 == 1
            &&& form.day6 is Some <==> days / 64 % 2 == 1
        }),
{
}

/// The days of a rule are named in the order of the week, and those alone whose bit is set.
pub proof fn days_are_named_by_their_bits(days: u8, day: u8)
    requires
        day < 7,
    ensures
        days_upto(days, day + 1) == if days as int / vstd::arithmetic::power2::pow2(
            day as nat,
        ) as int % 2 == 1 {
            days_upto(days, day as int).push(DAY_NAMES[day as int]@)
        } else {
            days_upto(days, day as int)
        },
        days_upto(days, 0).len() == 0,
        DAY_NAMES[0]@ == "Mon"@ && DAY_NAMES[5]@ == "Sat"@ && DAY_NAMES[6]@ == "Sun"@,
{
    schedule::lemma_bits(days, day);
}

/// A rule is taken exactly where it says what it is, falls on a day, has a start and an end on the
/// clock and a label that is not too long.
pub proof fn rules_are_taken_where_they_are_complete(form: RuleForm)
    ensures
        form.problem() is None <==> (form.kind@ == "allow"@ || form.kind@ == "deny"@) && (
        form.day0 is Some || form.day1 is Some || form.day2 is Some || form.day3 is Some
            || form.day4 is Some || form.day5 is Some || form.day6 is Some) && schedule::time_of(
            form.start@,
        ) is Some && schedule::time_of(form.end@) is Some && text::trim(form.label@).len() <= 64,
{
    reveal_strlit("allow");
    reveal_strlit("deny");
}

} // verus!

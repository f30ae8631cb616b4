//! Weekly print windows. Rules are wall-clock times in the configured zone, turned into real
//! instants per day, so a window keeps its local start and end across a DST change.
//!
//! Windows are judged one occurrence at a time: two allow windows that touch (Monday 18:00–24:00
//! and Tuesday 00:00–08:00) do not add up for `must_finish_before`.

use vstd::prelude::*;

use crate::calendar::{self, Date};
use crate::order;
use crate::text;
use crate::zone::Zone;

verus! {

#[derive(Debug, Clone, Copy, PartialEq, Eq, Structural)]
pub enum RuleKind {
    Allow,
    Deny,
}

impl RuleKind {
    pub open spec fn name(self) -> Seq<char> {
        match self {
            RuleKind::Allow => "allow"@,
            RuleKind::Deny => "deny"@,
        }
    }

    pub open spec fn named(raw: Seq<char>) -> Option<RuleKind> {
        if raw == "allow"@ {
            Some(RuleKind::Allow)
        } else if raw == "deny"@ {
            Some(RuleKind::Deny)
        } else {
            None
        }
    }

    pub fn as_str(self) -> (r: &'static str)
        ensures
            r@ == self.name(),
    {
        match self {
            RuleKind::Allow => "allow",
            RuleKind::Deny => "deny",
        }
    }

    pub fn parse(raw: &str) -> (r: Option<RuleKind>)
        ensures
            r == RuleKind::named(raw@),
    {
        if text::same(raw, "allow") {
            Some(RuleKind::Allow)
        } else if text::same(raw, "deny") {
            Some(RuleKind::Deny)
        } else {
            None
        }
    }
}

/// A kind of rule is read back from its name, and from nothing else.
pub proof fn rule_kind_names_round_trip(kind: RuleKind, raw: Seq<char>)
    ensures
        RuleKind::named(kind.name()) == Some(kind),
        RuleKind::named(raw) == Some(kind) ==> raw == kind.name(),
{
    reveal_strlit("allow");
    reveal_strlit("deny");
    assert("allow"@.len() != "deny"@.len());
}

#[derive(Debug, Clone, PartialEq, Eq)]
pub struct Rule {
    pub kind: RuleKind,
    /// Bit 0 is Monday, bit 6 Sunday.
    pub days: u8,
    pub start_minute: u16,
    /// At or before `start_minute`, the window ends the next day.
    pub end_minute: u16,
    /// For a deny rule: a job must end before the window's next start. For an allow rule: before
    /// the active window ends.
    pub must_finish_before: bool,
    pub label: String,
}

/// Why a job may not start now. Instants are in seconds since 1970-01-01 00:00 UTC.
#[derive(Debug, Clone, PartialEq, Eq)]
pub enum ScheduleBlock {
    DenyActive { label: String, until: i64 },
    /// Allow windows exist and none is open; `next` is when the next one opens.
    OutsideAllowed { next: Option<i64> },
    WouldOverrun { label: String, deadline: i64 },
    /// A `must_finish_before` rule applies and the job has no time estimate.
    NoEstimate { label: String },
}

/// One occurrence of a rule, from `start` up to but not including `end`.
#[derive(Debug, Clone, Copy, PartialEq, Eq, Structural)]
pub struct Window {
    pub start: i64,
    pub end: i64,
}

// ---------------------------------------------------------------------------------------------
// The occurrences of a rule
// ---------------------------------------------------------------------------------------------

impl Rule {
    pub open spec fn covers(self, weekday: int) -> bool {
        self.days & (1u8 << (weekday as u8)) != 0
    }

    /// A rule that falls on any day has its times on the clock. (Past 127 hours a time is not
    /// looked up, and the rule has no occurrences.)
    pub open spec fn on_the_clock(self) -> bool {
        ||| self.days % 128 == 0
        ||| self.start_minute >= 7680
        ||| self.start_minute < 1440 && (self.end_minute < 1440 || self.end_minute >= 7680)
    }

    /// The occurrence that starts on the given date.
    pub open spec fn occurrence(self, date: Date, zone: Zone) -> Option<Window> {
        let end_date = if self.end_minute > self.start_minute { Some(date) } else { date.next_day() };
        if !self.covers(date.monday_offset()) || end_date is None {
            None
        } else {
            match (
                clock_time(zone, date, self.start_minute),
                clock_time(zone, end_date->0, self.end_minute),
            ) {
                (Some(start), Some(end)) => Some(Window { start: start as i64, end: end as i64 }),
                _ => None,
            }
        }
    }

    /// Occurrences on the first `n` of the candidate dates.
    pub open spec fn occurrences(self, today: Date, zone: Zone, n: nat) -> Seq<Window>
        decreases n,
    {
        if n == 0 {
            seq![]
        } else {
            let before = self.occurrences(today, zone, (n - 1) as nat);
            match candidate(today, (n - 1) as nat) {
                Some(date) => match self.occurrence(date, zone) {
                    Some(window) => before.push(window),
                    None => before,
                },
                None => before,
            }
        }
    }

    /// Occurrences starting from yesterday (whose overnight window may still be open) through a
    /// week ahead.
    pub open spec fn windows(self, today: Date, zone: Zone) -> Seq<Window> {
        self.occurrences(today, zone, 9)
    }
}

pub open spec fn clock_time(zone: Zone, date: Date, minute: u16) -> Option<int> {
    if minute >= 7680 {
        None
    } else {
        zone.instant_at(date, minute as int)
    }
}

/// Yesterday, today, and the days after it.
pub open spec fn candidate(today: Date, n: nat) -> Option<Date> {
    if n == 0 {
        today.previous_day()
    } else {
        today.later((n - 1) as nat)
    }
}

fn clock_instant(zone: &Zone, date: Date, minute: u16) -> (r: Option<i64>)
    requires
        date.valid(),
        minute < 1440 || minute >= 7680,
    ensures
        r matches Some(unix) ==> clock_time(*zone, date, minute) == Some(unix as int),
        r is None ==> clock_time(*zone, date, minute) is None,
{
    if minute >= 7680 {
        None
    } else {
        zone.instant(date, minute)
    }
}

fn occurrence(rule: &Rule, date: Date, zone: &Zone) -> (r: Option<Window>)
    requires
        date.valid(),
        rule.on_the_clock(),
    ensures
        r == rule.occurrence(date, *zone),
{
    let weekday: u8 = date.to_monday_zero_offset();
    if rule.days & (1u8 << weekday) == 0 {
        return None;
    }
    proof {
        let days = rule.days;
        assert(days % 128 == 0 && weekday < 7 ==> days & (1u8 << weekday) == 0) by (bit_vector);
    }
    let end_date = if rule.end_minute > rule.start_minute {
        date
    } else {
        match date.tomorrow() {
            Some(next) => next,
            None => {
                return None;
            },
        }
    };
    let start: i64 = match clock_instant(zone, date, rule.start_minute) {
        Some(start) => start,
        None => {
            return None;
        },
    };
    let end: i64 = match clock_instant(zone, end_date, rule.end_minute) {
        Some(end) => end,
        None => {
            return None;
        },
    };
    Some(Window { start, end })
}

/// The occurrences of a rule from yesterday (whose overnight window may still be open) through a
/// week ahead.
pub fn windows(rule: &Rule, today: Date, zone: &Zone) -> (r: Vec<Window>)
    requires
        today.valid(),
        rule.on_the_clock(),
    ensures
        r@ == rule.windows(today, *zone),
{
    let mut out: Vec<Window> = Vec::new();
    let mut date: Option<Date> = today.yesterday();
    let mut n: u8 = 0;
    while n < 9
        invariant
            n <= 9,
            today.valid(),
            rule.on_the_clock(),
            date == candidate(today, n as nat),
            date matches Some(d) ==> d.valid(),
            out@ == rule.occurrences(today, *zone, n as nat),
        decreases 9 - n,
    {
        if let Some(d) = date {
            if let Some(window) = occurrence(rule, d, zone) {
                out.push(window);
            }
        }
        if n == 0 {
            date = Some(today);
        } else if let Some(d) = date {
            date = d.tomorrow();
        }
        n += 1;
    }
    out
}

// ---------------------------------------------------------------------------------------------
// The verdict on a start
// ---------------------------------------------------------------------------------------------

/// The first window from position `i` on that is open at `now`.
pub open spec fn open_window(windows: Seq<Window>, now: i64, i: int) -> Option<Window>
    decreases windows.len() - i,
{
    if i >= windows.len() {
        None
    } else if windows[i].start <= now && now < windows[i].end {
        Some(windows[i])
    } else {
        open_window(windows, now, i + 1)
    }
}

/// The earliest of the given starts after `now`.
pub open spec fn next_start(windows: Seq<Window>, now: i64) -> Option<i64>
    decreases windows.len(),
{
    if windows.len() == 0 {
        None
    } else {
        let start = windows.last().start;
        earlier(
            next_start(windows.drop_last(), now),
            if start > now { Some(start) } else { None },
        )
    }
}

pub open spec fn earlier(a: Option<i64>, b: Option<i64>) -> Option<i64> {
    match (a, b) {
        (Some(x), Some(y)) => Some(if y < x { y } else { x }),
        (Some(x), None) => Some(x),
        (None, y) => y,
    }
}

/// A rule with its occurrences.
pub ghost struct Ruled {
    pub rule: Rule,
    pub windows: Seq<Window>,
}

impl Ruled {
    pub open spec fn allows(self) -> bool {
        self.rule.kind == RuleKind::Allow
    }

    pub open spec fn open_at(self, now: i64) -> Option<Window> {
        open_window(self.windows, now, 0)
    }

    pub open spec fn opens_after(self, now: i64) -> Option<i64> {
        next_start(self.windows, now)
    }

    /// An open allow rule that the job does not outlast.
    pub open spec fn fits(self, now: i64, end: Option<i64>) -> bool {
        &&& self.allows()
        &&& self.open_at(now) is Some
        &&& !self.rule.must_finish_before || end is Some && end->0 <= self.open_at(now)->0.end
    }

    /// The window of a deny rule that the job must be out of the way of, if it is not.
    pub open spec fn runs_into(self, now: i64, end: Option<i64>) -> bool {
        &&& !self.allows()
        &&& self.rule.must_finish_before
        &&& self.opens_after(now) is Some
        &&& end is None || end->0 > self.opens_after(now)->0
    }
}

/// The first deny rule from position `i` on that is in force.
pub open spec fn first_denying(rules: Seq<Ruled>, now: i64, i: int) -> Option<Ruled>
    decreases rules.len() - i,
{
    if i >= rules.len() {
        None
    } else if !rules[i].allows() && rules[i].open_at(now) is Some {
        Some(rules[i])
    } else {
        first_denying(rules, now, i + 1)
    }
}

/// The first allow rule from position `i` on that is open.
pub open spec fn first_allowing(rules: Seq<Ruled>, now: i64, i: int) -> Option<Ruled>
    decreases rules.len() - i,
{
    if i >= rules.len() {
        None
    } else if rules[i].allows() && rules[i].open_at(now) is Some {
        Some(rules[i])
    } else {
        first_allowing(rules, now, i + 1)
    }
}

/// When the first of the allow rules opens next.
pub open spec fn next_opening(rules: Seq<Ruled>, now: i64) -> Option<i64>
    decreases rules.len(),
{
    if rules.len() == 0 {
        None
    } else if rules.last().allows() {
        earlier(next_opening(rules.drop_last(), now), rules.last().opens_after(now))
    } else {
        next_opening(rules.drop_last(), now)
    }
}

/// The first deny rule from position `i` on whose next window the job would run into.
pub open spec fn first_overrun(rules: Seq<Ruled>, now: i64, end: Option<i64>, i: int) -> Option<Ruled>
    decreases rules.len() - i,
{
    if i >= rules.len() {
        None
    } else if rules[i].runs_into(now, end) {
        Some(rules[i])
    } else {
        first_overrun(rules, now, end, i + 1)
    }
}

pub open spec fn overrun(rule: Rule, end: Option<i64>, deadline: i64) -> ScheduleBlock {
    match end {
        None => ScheduleBlock::NoEstimate { label: rule.label },
        Some(_) => ScheduleBlock::WouldOverrun { label: rule.label, deadline },
    }
}

/// What keeps a job from starting at `now` that would end at `end`: a deny rule in force; else
/// allow rules of which none is open, or none lets the job finish; else a deny rule whose next
/// window the job would run into.
pub open spec fn blocked_by(rules: Seq<Ruled>, now: i64, end: Option<i64>) -> Option<ScheduleBlock> {
    match first_denying(rules, now, 0) {
        Some(denying) => Some(
            ScheduleBlock::DenyActive {
                label: denying.rule.label,
                until: denying.open_at(now)->0.end,
            },
        ),
        None => if exists|i: int| 0 <= i < rules.len() && (#[trigger] rules[i]).allows() && !(
        exists|j: int| 0 <= j < rules.len() && (#[trigger] rules[j]).fits(now, end)) {
            match first_allowing(rules, now, 0) {
                None => Some(ScheduleBlock::OutsideAllowed { next: next_opening(rules, now) }),
                Some(allowing) => Some(
                    overrun(allowing.rule, end, allowing.open_at(now)->0.end),
                ),
            }
        } else {
            match first_overrun(rules, now, end, 0) {
                Some(denying) => Some(
                    overrun(denying.rule, end, denying.opens_after(now)->0),
                ),
                None => None,
            }
        },
    }
}

/// Rules side by side with their occurrences.
pub open spec fn ruled(rules: Seq<Rule>, windows: Seq<Vec<Window>>) -> Seq<Ruled> {
    Seq::new(rules.len(), |i: int| Ruled { rule: rules[i], windows: windows[i]@ })
}

/// Rules with the occurrences they have around an instant in a zone.
pub open spec fn ruled_in(rules: Seq<Rule>, now: int, zone: Zone) -> Seq<Ruled> {
    Seq::new(
        rules.len(),
        |i: int| Ruled { rule: rules[i], windows: rules[i].windows(zone.date_at(now), zone) },
    )
}

fn find_open(windows: &Vec<Window>, now: i64) -> (r: Option<Window>)
    ensures
        r == open_window(windows@, now, 0),
{
    let mut i: usize = 0;
    while i < windows.len()
        invariant
            i <= windows@.len(),
            open_window(windows@, now, 0) == open_window(windows@, now, i as int),
        decreases windows.len() - i,
    {
        let window = windows[i];
        if window.start <= now && now < window.end {
            return Some(window);
        }
        i += 1;
    }
    None
}

fn earlier_of(a: Option<i64>, b: Option<i64>) -> (r: Option<i64>)
    ensures
        r == earlier(a, b),
{
    match (a, b) {
        (Some(x), Some(y)) => Some(if y < x { y } else { x }),
        (Some(x), None) => Some(x),
        (None, y) => y,
    }
}

fn find_next_start(windows: &Vec<Window>, now: i64) -> (r: Option<i64>)
    ensures
        r == next_start(windows@, now),
{
    let mut best: Option<i64> = None;
    let mut i: usize = 0;
    while i < windows.len()
        invariant
            i <= windows@.len(),
            best == next_start(windows@.take(i as int), now),
        decreases windows.len() - i,
    {
        let start: i64 = windows[i].start;
        best = earlier_of(best, if start > now { Some(start) } else { None });
        i += 1;
        assert(windows@.take(i as int).drop_last() =~= windows@.take(i - 1));
    }
    assert(windows@.take(i as int) =~= windows@);
    best
}

fn overrun_block(rule: &Rule, end: Option<i64>, deadline: i64) -> (r: ScheduleBlock)
    ensures
        r == overrun(*rule, end, deadline),
{
    match end {
        None => ScheduleBlock::NoEstimate { label: rule.label.clone() },
        Some(_) => ScheduleBlock::WouldOverrun { label: rule.label.clone(), deadline },
    }
}

fn check_denies(rules: &[Rule], windows: &Vec<Vec<Window>>, now: i64) -> (r: Result<
    (),
    ScheduleBlock,
>)
    requires
        windows@.len() == rules@.len(),
    ensures
        match first_denying(ruled(rules@, windows@), now, 0) {
            Some(denying) => r == Err::<(), ScheduleBlock>(
                ScheduleBlock::DenyActive {
                    label: denying.rule.label,
                    until: denying.open_at(now)->0.end,
                },
            ),
            None => r == Ok::<(), ScheduleBlock>(()),
        },
{
    let ghost all = ruled(rules@, windows@);
    let mut i: usize = 0;
    while i < rules.len()
        invariant
            i <= rules@.len(),
            windows@.len() == rules@.len(),
            all == ruled(rules@, windows@),
            first_denying(all, now, 0) == first_denying(all, now, i as int),
        decreases rules.len() - i,
    {
        assert(all[i as int] == Ruled { rule: rules@[i as int], windows: windows@[i as int]@ });
        if rules[i].kind == RuleKind::Deny {
            if let Some(window) = find_open(&windows[i], now) {
                return Err(
                    ScheduleBlock::DenyActive { label: rules[i].label.clone(), until: window.end },
                );
            }
        }
        i += 1;
    }
    Ok(())
}

fn check_allows(
    rules: &[Rule],
    windows: &Vec<Vec<Window>>,
    now: i64,
    estimated_end: Option<i64>,
) -> (r: Result<(), ScheduleBlock>)
    requires
        windows@.len() == rules@.len(),
    ensures
        ({
            let all = ruled(rules@, windows@);
            if exists|i: int| 0 <= i < all.len() && (#[trigger] all[i]).allows() && !(exists|j: int|
                0 <= j < all.len() && (#[trigger] all[j]).fits(now, estimated_end)) {
                match first_allowing(all, now, 0) {
                    None => r == Err::<(), ScheduleBlock>(
                        ScheduleBlock::OutsideAllowed { next: next_opening(all, now) },
                    ),
                    Some(allowing) => r == Err::<(), ScheduleBlock>(
                        overrun(allowing.rule, estimated_end, allowing.open_at(now)->0.end),
                    ),
                }
            } else {
                r == Ok::<(), ScheduleBlock>(())
            }
        }),
{
    let ghost all = ruled(rules@, windows@);
    let mut any: bool = false;
    let mut fits: bool = false;
    let mut open: Option<(usize, Window)> = None;
    let mut next: Option<i64> = None;
    let mut i: usize = 0;
    while i < rules.len()
        invariant
            i <= rules@.len(),
            windows@.len() == rules@.len(),
            all == ruled(rules@, windows@),
            any <==> exists|k: int| 0 <= k < i && (#[trigger] all[k]).allows(),
            fits <==> exists|k: int| 0 <= k < i && (#[trigger] all[k]).fits(now, estimated_end),
            next == next_opening(all.take(i as int), now),
            open is None ==> first_allowing(all, now, 0) == first_allowing(all, now, i as int),
            open matches Some((k, window)) ==> k < i && first_allowing(all, now, 0) == Some(
                all[k as int],
            ) && all[k as int].open_at(now) == Some(window),
        decreases rules.len() - i,
    {
        assert(all[i as int] == Ruled { rule: rules@[i as int], windows: windows@[i as int]@ });
        assert(all.take(i + 1).drop_last() =~= all.take(i as int));
        let ghost was_any = any;
        let ghost was_fits = fits;
        if rules[i].kind == RuleKind::Allow {
            any = true;
            assert(all[i as int].allows());
            next = earlier_of(next, find_next_start(&windows[i], now));
            if let Some(window) = find_open(&windows[i], now) {
                if open.is_none() {
                    open = Some((i, window));
                }
                let in_time = match estimated_end {
                    Some(end) => end <= window.end,
                    None => false,
                };
                if !rules[i].must_finish_before || in_time {
                    fits = true;
                    assert(all[i as int].fits(now, estimated_end));
                }
            }
        }
        proof {
            assert(any <==> was_any || all[i as int].allows());
            assert(fits <==> was_fits || all[i as int].fits(now, estimated_end));
        }
        i += 1;
    }
    assert(all.take(i as int) =~= all);
    if any && !fits {
        match open {
            None => Err(ScheduleBlock::OutsideAllowed { next }),
            Some((k, window)) => Err(overrun_block(&rules[k], estimated_end, window.end)),
        }
    } else {
        Ok(())
    }
}

fn check_next_denies(
    rules: &[Rule],
    windows: &Vec<Vec<Window>>,
    now: i64,
    estimated_end: Option<i64>,
) -> (r: Result<(), ScheduleBlock>)
    requires
        windows@.len() == rules@.len(),
    ensures
        match first_overrun(ruled(rules@, windows@), now, estimated_end, 0) {
            Some(denying) => r == Err::<(), ScheduleBlock>(
                overrun(denying.rule, estimated_end, denying.opens_after(now)->0),
            ),
            None => r == Ok::<(), ScheduleBlock>(()),
        },
{
    let ghost all = ruled(rules@, windows@);
    let mut i: usize = 0;
    while i < rules.len()
        invariant
            i <= rules@.len(),
            windows@.len() == rules@.len(),
            all == ruled(rules@, windows@),
            first_overrun(all, now, estimated_end, 0) == first_overrun(
                all,
                now,
                estimated_end,
                i as int,
            ),
        decreases rules.len() - i,
    {
        assert(all[i as int] == Ruled { rule: rules@[i as int], windows: windows@[i as int]@ });
        if rules[i].kind == RuleKind::Deny && rules[i].must_finish_before {
            if let Some(deadline) = find_next_start(&windows[i], now) {
                let late = match estimated_end {
                    Some(end) => end > deadline,
                    None => true,
                };
                if late {
                    return Err(overrun_block(&rules[i], estimated_end, deadline));
                }
            }
        }
        i += 1;
    }
    Ok(())
}

/// Whether a job may start at `now`, ending at `estimated_end`, under rules whose occurrences
/// are given.
pub fn check_windows(
    rules: &[Rule],
    windows: &Vec<Vec<Window>>,
    now: i64,
    estimated_end: Option<i64>,
) -> (r: Result<(), ScheduleBlock>)
    requires
        windows@.len() == rules@.len(),
    ensures
        r is Ok <==> blocked_by(ruled(rules@, windows@), now, estimated_end) is None,
        r matches Err(block) ==> blocked_by(ruled(rules@, windows@), now, estimated_end) == Some(
            block,
        ),
{
    match check_denies(rules, windows, now) {
        Err(block) => {
            return Err(block);
        },
        Ok(_) => {},
    }
    match check_allows(rules, windows, now, estimated_end) {
        Err(block) => {
            return Err(block);
        },
        Ok(_) => {},
    }
    check_next_denies(rules, windows, now, estimated_end)
}

/// Whether a job may start at `now`, ending at `estimated_end`.
pub fn check(rules: &[Rule], now: i64, estimated_end: Option<i64>, zone: &Zone) -> (r: Result<
    (),
    ScheduleBlock,
>)
    requires
        forall|i: int| 0 <= i < rules@.len() ==> (#[trigger] rules@[i]).on_the_clock(),
    ensures
        r is Ok <==> blocked_by(ruled_in(rules@, now as int, *zone), now, estimated_end) is None,
        r matches Err(block) ==> blocked_by(
            ruled_in(rules@, now as int, *zone),
            now,
            estimated_end,
        ) == Some(block),
{
    let today = zone.date(now);
    let mut all: Vec<Vec<Window>> = Vec::new();
    let mut i: usize = 0;
    while i < rules.len()
        invariant
            i <= rules@.len(),
            all@.len() == i,
            today == zone.date_at(now as int),
            today.valid(),
            forall|k: int| 0 <= k < rules@.len() ==> (#[trigger] rules@[k]).on_the_clock(),
            forall|k: int| 0 <= k < i ==> (#[trigger] all@[k])@ == rules@[k].windows(today, *zone),
        decreases rules.len() - i,
    {
        all.push(windows(&rules[i], today, zone));
        i += 1;
    }
    assert(ruled(rules@, all@) =~= ruled_in(rules@, now as int, *zone));
    check_windows(rules, &all, now, estimated_end)
}

// ---------------------------------------------------------------------------------------------
// Laws
// ---------------------------------------------------------------------------------------------

proof fn lemma_first_denying(rules: Seq<Ruled>, now: i64, i: int)
    requires
        0 <= i <= rules.len(),
    ensures
        first_denying(rules, now, i) is Some <==> exists|k: int|
            i <= k < rules.len() && !(#[trigger] rules[k]).allows() && rules[k].open_at(now) is Some,
    decreases rules.len() - i,
{
    if i < rules.len() {
        lemma_first_denying(rules, now, i + 1);
    }
}

proof fn lemma_first_allowing(rules: Seq<Ruled>, now: i64, i: int)
    requires
        0 <= i <= rules.len(),
    ensures
        first_allowing(rules, now, i) is Some <==> exists|k: int|
            i <= k < rules.len() && (#[trigger] rules[k]).allows() && rules[k].open_at(now) is Some,
    decreases rules.len() - i,
{
    if i < rules.len() {
        lemma_first_allowing(rules, now, i + 1);
    }
}

proof fn lemma_first_overrun(rules: Seq<Ruled>, now: i64, end: Option<i64>, i: int)
    requires
        0 <= i <= rules.len(),
    ensures
        first_overrun(rules, now, end, i) is Some <==> exists|k: int|
            i <= k < rules.len() && (#[trigger] rules[k]).runs_into(now, end),
    decreases rules.len() - i,
{
    if i < rules.len() {
        lemma_first_overrun(rules, now, end, i + 1);
    }
}

/// Without rules a job may start at any time.
pub proof fn no_rules_allow_anything(now: i64, end: Option<i64>)
    ensures
        blocked_by(seq![], now, end) is None,
{
}

/// A job may start exactly when no deny rule is in force, some open allow rule lets it finish
/// (where there are allow rules at all), and it ends before the next window of every deny rule
/// that asks for that.
pub proof fn a_start_is_allowed_exactly_when_every_rule_agrees(
    rules: Seq<Ruled>,
    now: i64,
    end: Option<i64>,
)
    ensures
        blocked_by(rules, now, end) is None <==> {
            &&& forall|i: int|
                0 <= i < rules.len() && !(#[trigger] rules[i]).allows() ==> rules[i].open_at(
                    now,
                ) is None
            &&& (exists|i: int| 0 <= i < rules.len() && (#[trigger] rules[i]).allows()) ==> exists|
                j: int,
            |
                0 <= j < rules.len() && (#[trigger] rules[j]).fits(now, end)
            &&& forall|i: int|
                0 <= i < rules.len() && !(#[trigger] rules[i]).allows()
                    && rules[i].rule.must_finish_before && rules[i].opens_after(now) is Some
                    ==> end is Some && end->0 <= rules[i].opens_after(now)->0
        },
{
    lemma_first_denying(rules, now, 0);
    lemma_first_overrun(rules, now, end, 0);
    assert forall|i: int| 0 <= i < rules.len() implies ((#[trigger] rules[i]).runs_into(now, end)
        <==> !rules[i].allows() && rules[i].rule.must_finish_before && rules[i].opens_after(
        now,
    ) is Some && !(end is Some && end->0 <= rules[i].opens_after(now)->0)) by {}
}

/// A deny rule in force blocks, whatever the allow rules say.
pub proof fn deny_wins_over_allow(rules: Seq<Ruled>, now: i64, end: Option<i64>, i: int)
    requires
        0 <= i < rules.len(),
        !rules[i].allows(),
        rules[i].open_at(now) is Some,
    ensures
        blocked_by(rules, now, end) is Some,
        blocked_by(rules, now, end)->0 is DenyActive,
{
    lemma_first_denying(rules, now, 0);
}

/// Where there are allow rules and none is open, a job waits for the next one to open (unless a
/// deny rule in force already blocks it).
pub proof fn allow_rules_close_everything_else(rules: Seq<Ruled>, now: i64, end: Option<i64>, i: int)
    requires
        0 <= i < rules.len(),
        rules[i].allows(),
        forall|k: int| 0 <= k < rules.len() ==> (#[trigger] rules[k]).open_at(now) is None,
    ensures
        blocked_by(rules, now, end) == Some(
            ScheduleBlock::OutsideAllowed { next: next_opening(rules, now) },
        ),
{
    lemma_first_denying(rules, now, 0);
    lemma_first_allowing(rules, now, 0);
}

/// Every occurrence starts on one of the candidate days, at the rule's local start time, and ends
/// at its local end time, on that day or the next.
pub proof fn windows_keep_local_times(rule: Rule, today: Date, zone: Zone, n: nat, i: int)
    requires
        today.valid(),
        0 <= i < rule.occurrences(today, zone, n).len(),
    ensures
        exists|date: Date| #[trigger]
            rule.occurrence(date, zone) == Some(rule.occurrences(today, zone, n)[i]) && date.valid()
                && today.epoch_day() - 1 <= date.epoch_day() <= today.epoch_day() + n - 2,
    decreases n,
{
    let before = rule.occurrences(today, zone, (n - 1) as nat);
    if i < before.len() {
        windows_keep_local_times(rule, today, zone, (n - 1) as nat, i);
    } else {
        let date = candidate(today, (n - 1) as nat)->0;
        if n == 1 {
            calendar::next_day_is_one_day_later(date);
        } else {
            calendar::later_counts_days(today, (n - 2) as nat);
        }
        assert(rule.occurrence(date, zone) == Some(rule.occurrences(today, zone, n)[i]));
    }
}

// ---------------------------------------------------------------------------------------------
// Times of day
// ---------------------------------------------------------------------------------------------

/// `HH:MM`: two digits of an hour of the day, a colon, two digits of a minute of the hour. White
/// space at the ends does not count.
pub open spec fn time_of(raw: Seq<char>) -> Option<int> {
    let s = text::trim(raw);
    if s.len() == 5 && text::is_digit(s[0]) && text::is_digit(s[1]) && s[2] == ':'
        && text::is_digit(s[3]) && text::is_digit(s[4]) {
        let hour = 10 * text::digit_value(s[0]) + text::digit_value(s[1]);
        let minute = 10 * text::digit_value(s[3]) + text::digit_value(s[4]);
        if hour < 24 && minute < 60 {
            Some(60 * hour + minute)
        } else {
            None
        }
    } else {
        None
    }
}

fn digit(c: char) -> (r: u16)
    requires
        text::is_digit(c),
    ensures
        r == text::digit_value(c),
        r <= 9,
{
    (c as u32 - '0' as u32) as u16
}

/// `HH:MM`, 24-hour.
pub fn parse_time(raw: &str) -> (r: Option<u16>)
    ensures
        r matches Some(t) ==> time_of(raw@) == Some(t as int) && t < 1440,
        r is None ==> time_of(raw@) is None,
{
    let trimmed: String = text::trim_str(raw);
    let s = text::chars(trimmed.as_str());
    if s.len() != 5 || !text::char_is_digit(s[0]) || !text::char_is_digit(s[1]) || s[2] != ':'
        || !text::char_is_digit(s[3]) || !text::char_is_digit(s[4]) {
        return None;
    }
    let hour: u16 = 10 * digit(s[0]) + digit(s[1]);
    let minute: u16 = 10 * digit(s[3]) + digit(s[4]);
    if hour < 24 && minute < 60 {
        Some(60 * hour + minute)
    } else {
        None
    }
}

pub open spec fn time_text(minute: nat) -> Seq<char> {
    text::padded(minute / 60) + seq![':'] + text::padded(minute % 60)
}

pub fn format_time(minute: u16) -> (r: String)
    ensures
        r@ == time_text(minute as nat),
{
    let mut out = String::new();
    text::push_padded(&mut out, (minute / 60) as u64);
    out.push(':');
    text::push_padded(&mut out, (minute % 60) as u64);
    assert(out@ =~= time_text(minute as nat));
    out
}

proof fn lemma_padded(n: nat)
    requires
        n < 100,
    ensures
        text::padded(n) == seq![
            text::digit_char((n / 10) as int),
            text::digit_char((n % 10) as int),
        ],
{
    reveal_with_fuel(text::decimal, 3);
    assert(text::padded(n) =~= seq![
        text::digit_char((n / 10) as int),
        text::digit_char((n % 10) as int),
    ]);
}

/// A time of day is read back from the way it is written.
pub proof fn times_read_back(minute: nat)
    requires
        minute < 1440,
    ensures
        time_of(time_text(minute)) == Some(minute as int),
{
    let s = time_text(minute);
    lemma_padded(minute / 60);
    lemma_padded(minute % 60);
    assert(s.len() == 5 && s[2] == ':');
    text::lemma_trim_is_identity(s);
}

/// Only five characters are a time of day, and it is written no other way: from the time, the
/// text follows.
pub proof fn times_have_one_spelling(raw: Seq<char>)
    requires
        time_of(raw) is Some,
    ensures
        0 <= time_of(raw)->0 < 1440,
        text::trim(raw) == time_text(time_of(raw)->0 as nat),
{
    let s = text::trim(raw);
    let t = time_of(raw)->0 as nat;
    lemma_padded(t / 60);
    lemma_padded(t % 60);
    assert(s =~= time_text(t));
}

pub const DAY_NAMES: [&'static str; 7] = ["Mon", "Tue", "Wed", "Thu", "Fri", "Sat", "Sun"];

// ---------------------------------------------------------------------------------------------
// The table
// ---------------------------------------------------------------------------------------------

/// A rule that is on record.
#[derive(Debug, PartialEq, Eq)]
pub struct RuleRecord {
    pub id: i64,
    pub rule: Rule,
    pub created_at: i64,
}

/// The rules on record.
#[derive(Debug)]
pub struct Rules {
    pub rules: Vec<RuleRecord>,
}

/// Allowing rules first, then by when they start; of two that start alike, the older first.
pub open spec fn rule_order() -> spec_fn((i64, Rule), (i64, Rule)) -> bool {
    |a: (i64, Rule), b: (i64, Rule)|
        {
            if a.1.kind != b.1.kind {
                a.1.kind == RuleKind::Allow
            } else if a.1.start_minute != b.1.start_minute {
                a.1.start_minute < b.1.start_minute
            } else {
                a.0 <= b.0
            }
        }
}

pub open spec fn listed() -> spec_fn(RuleRecord) -> (i64, Rule) {
    |record: RuleRecord| (record.id, record.rule)
}

fn copy_rule(rule: &Rule) -> (r: Rule)
    ensures
        r == *rule,
{
    Rule {
        kind: rule.kind,
        days: rule.days,
        start_minute: rule.start_minute,
        end_minute: rule.end_minute,
        must_finish_before: rule.must_finish_before,
        label: rule.label.clone(),
    }
}

/// The rules with their ids, in the order in which they are shown.
pub fn rules(db: &Rules) -> (r: Vec<(i64, Rule)>)
    ensures
        r@ == order::sorted(db.rules@.map_values(listed()), rule_order()),
{
    let mut all: Vec<(i64, Rule)> = Vec::new();
    let mut i: usize = 0;
    assert(all@ =~= db.rules@.take(0).map_values(listed()));
    while i < db.rules.len()
        invariant
            i <= db.rules@.len(),
            all@ == db.rules@.take(i as int).map_values(listed()),
        decreases db.rules.len() - i,
    {
        all.push((db.rules[i].id, copy_rule(&db.rules[i].rule)));
        assert(all@ =~= db.rules@.take(i + 1).map_values(listed()));
        i += 1;
    }
    assert(db.rules@.take(i as int) =~= db.rules@);
    let before = |a: &(i64, Rule), b: &(i64, Rule)| -> (r: bool)
        ensures
            r == rule_order()(*a, *b),
        {
            if a.1.kind != b.1.kind {
                a.1.kind == RuleKind::Allow
            } else if a.1.start_minute != b.1.start_minute {
                a.1.start_minute < b.1.start_minute
            } else {
                a.0 <= b.0
            }
        };
    order::sort_by(all, before, Ghost(rule_order()))
}

/// One more than the largest id, and at least 1.
pub open spec fn next_rule_id(rules: Seq<RuleRecord>) -> int
    decreases rules.len(),
{
    if rules.len() == 0 {
        1
    } else {
        let before = next_rule_id(rules.drop_last());
        if rules.last().id >= before {
            rules.last().id + 1
        } else {
            before
        }
    }
}

proof fn lemma_next_rule_id(rules: Seq<RuleRecord>, i: int)
    requires
        0 <= i <= rules.len(),
    ensures
        1 <= next_rule_id(rules.take(i)) <= next_rule_id(rules),
        forall|k: int| 0 <= k < i ==> (#[trigger] rules[k]).id < next_rule_id(rules),
    decreases rules.len(), rules.len() - i,
{
    if i < rules.len() {
        lemma_next_rule_id(rules, i + 1);
        assert(rules.take(i + 1).drop_last() =~= rules.take(i));
        lemma_next_rule_id(rules.drop_last(), i);
        assert(rules.drop_last().take(i) =~= rules.take(i));
    } else {
        assert(rules.take(i) =~= rules);
        if rules.len() > 0 {
            lemma_next_rule_id(rules.drop_last(), rules.len() - 1);
            assert(rules.drop_last().take(rules.len() - 1) =~= rules.drop_last());
            assert forall|k: int| 0 <= k < i implies (#[trigger] rules[k]).id < next_rule_id(
                rules,
            ) by {
                if k < rules.len() - 1 {
                    assert(rules.drop_last()[k] == rules[k]);
                }
            }
        }
    }
}

pub fn add_rule(db: &mut Rules, rule: Rule, now: i64) -> (r: i64)
    requires
        next_rule_id(old(db).rules@) <= i64::MAX,
    ensures
        r == next_rule_id(old(db).rules@),
        final(db).rules@ == old(db).rules@.push(RuleRecord { id: r, rule, created_at: now }),
{
    let mut id: i64 = 1;
    let mut i: usize = 0;
    while i < db.rules.len()
        invariant
            i <= db.rules@.len(),
            *db == *old(db),
            next_rule_id(db.rules@) <= i64::MAX,
            id == next_rule_id(db.rules@.take(i as int)),
        decreases db.rules.len() - i,
    {
        proof {
            lemma_next_rule_id(db.rules@, i + 1);
            assert(db.rules@.take(i + 1).drop_last() =~= db.rules@.take(i as int));
        }
        if db.rules[i].id >= id {
            id = db.rules[i].id + 1;
        }
        i += 1;
    }
    assert(db.rules@.take(i as int) =~= db.rules@);
    db.rules.push(RuleRecord { id, rule, created_at: now });
    id
}

pub open spec fn with_other_id(id: i64) -> spec_fn(RuleRecord) -> bool {
    |record: RuleRecord| record.id != id
}

pub fn delete_rule(db: &mut Rules, id: i64)
    ensures
        final(db).rules@ == old(db).rules@.filter(with_other_id(id)),
{
    let ghost all = db.rules@;
    let ghost p = with_other_id(id);
    proof {
        crate::lists::lemma_filter_ends(all, p);
    }
    let mut left: Vec<RuleRecord> = Vec::new();
    let mut i: usize = 0;
    while i < db.rules.len()
        invariant
            i <= db.rules@.len(),
            db.rules@ == all,
            p == with_other_id(id),
            left@ == all.take(i as int).filter(p),
        decreases db.rules.len() - i,
    {
        proof {
            crate::lists::lemma_filter_step(all, p, i as int);
        }
        if db.rules[i].id != id {
            left.push(
                RuleRecord {
                    id: db.rules[i].id,
                    rule: copy_rule(&db.rules[i].rule),
                    created_at: db.rules[i].created_at,
                },
            );
        }
        i += 1;
    }
    db.rules = left;
}

/// A rule that was added can be taken away again, and then the table is what it was.
pub proof fn deleting_undoes_adding(rules: Seq<RuleRecord>, rule: Rule, now: i64)
    requires
        next_rule_id(rules) <= i64::MAX,
    ensures
        rules.push(
            RuleRecord { id: next_rule_id(rules) as i64, rule, created_at: now },
        ).filter(with_other_id(next_rule_id(rules) as i64)) == rules,
{
    let id = next_rule_id(rules) as i64;
    let added = RuleRecord { id, rule, created_at: now };
    let p = with_other_id(id);
    lemma_next_rule_id(rules, rules.len() as int);
    lemma_filter_keeps_all(rules, p);
    reveal(Seq::filter);
    assert(rules.push(added).drop_last() =~= rules);
}

proof fn lemma_filter_keeps_all(rules: Seq<RuleRecord>, p: spec_fn(RuleRecord) -> bool)
    requires
        forall|k: int| 0 <= k < rules.len() ==> p(#[trigger] rules[k]),
    ensures
        rules.filter(p) == rules,
    decreases rules.len(),
{
    reveal(Seq::filter);
    if rules.len() > 0 {
        assert forall|k: int| 0 <= k < rules.len() - 1 implies p(
            #[trigger] rules.drop_last()[k],
        ) by {
            assert(rules.drop_last()[k] == rules[k]);
        }
        lemma_filter_keeps_all(rules.drop_last(), p);
        assert(rules.drop_last().push(rules.last()) =~= rules);
    } else {
        assert(rules.filter(p) =~= rules);
    }
}

// ---------------------------------------------------------------------------------------------
// Days and windows
// ---------------------------------------------------------------------------------------------

pub proof fn lemma_bits(days: u8, weekday: u8)
    requires
        weekday < 7,
    ensures
        days & (1u8 << weekday) != 0 <==> days as int / vstd::arithmetic::power2::pow2(
            weekday as nat,
        ) as int % 2 == 1,
{
    vstd::arithmetic::power2::lemma2_to64();
    assert(weekday == 0 ==> (days & (1u8 << weekday) != 0 <==> days / 1 % 2 == 1)) by (bit_vector);
    assert(weekday == 1 ==> (days & (1u8 << weekday) != 0 <==> days / 2 % 2 == 1)) by (bit_vector);
    assert(weekday == 2 ==> (days & (1u8 << weekday) != 0 <==> days / 4 % 2 == 1)) by (bit_vector);
    assert(weekday == 3 ==> (days & (1u8 << weekday) != 0 <==> days / 8 % 2 == 1)) by (bit_vector);
    assert(weekday == 4 ==> (days & (1u8 << weekday) != 0 <==> days / 16 % 2 == 1)) by (bit_vector);
    assert(weekday == 5 ==> (days & (1u8 << weekday) != 0 <==> days / 32 % 2 == 1)) by (bit_vector);
    assert(weekday == 6 ==> (days & (1u8 << weekday) != 0 <==> days / 64 % 2 == 1)) by (bit_vector);
}

/// A rule falls on the days whose bits are set, Monday's bit 0 to Sunday's bit 6. On such a day
/// it begins at its local start time, and it ends at its local end time on that day, or on the
/// next where it does not end after it begins.
pub proof fn a_rule_falls_on_the_days_of_its_bits(rule: Rule, date: Date, zone: Zone)
    requires
        date.valid(),
        rule.start_minute < 1440,
        rule.end_minute < 1440,
    ensures
        ({
            let weekday = (date.epoch_day() + 3) % 7;
            let chosen = rule.days as int / vstd::arithmetic::power2::pow2(weekday as nat) as int
                % 2 == 1;
            let last = if rule.start_minute < rule.end_minute {
                Some(date)
            } else {
                date.next_day()
            };
            let start = zone.instant_at(date, rule.start_minute as int);
            let end = zone.instant_at(last->0, rule.end_minute as int);
            &&& rule.occurrence(date, zone) is Some <==> chosen && last is Some && start is Some
                && end is Some
            &&& rule.occurrence(date, zone) matches Some(window) ==> window.start == start->0 as i64
                && window.end == end->0 as i64
        }),
{
    let weekday = (date.epoch_day() + 3) % 7;
    lemma_bits(rule.days, weekday as u8);
}

/// No day from yesterday to a week ahead is passed over: what a rule has on it is among its
/// windows.
pub proof fn no_day_of_the_week_is_passed_over(rule: Rule, today: Date, date: Date, zone: Zone)
    requires
        today.valid(),
        date.valid(),
        today.epoch_day() - 1 <= date.epoch_day() <= today.epoch_day() + 7,
        rule.occurrence(date, zone) is Some,
    ensures
        rule.windows(today, zone).contains(rule.occurrence(date, zone)->0),
{
    let n = (date.epoch_day() - today.epoch_day() + 1) as nat;
    lemma_candidate(today, date, n);
    lemma_occurs(rule, today, zone, date, n, 9);
}

proof fn lemma_candidate(today: Date, date: Date, n: nat)
    requires
        today.valid(),
        date.valid(),
        date.epoch_day() == today.epoch_day() - 1 + n,
    ensures
        candidate(today, n) == Some(date),
    decreases n,
{
    if n == 0 {
        calendar::previous_day_is_one_day_earlier(today);
        calendar::dates_order_as_their_days(date, today);
        if let Some(before) = today.previous_day() {
            calendar::dates_order_as_their_days(before, date);
        }
    } else if n == 1 {
        calendar::dates_order_as_their_days(today, date);
    } else {
        calendar::previous_day_is_one_day_earlier(date);
        calendar::dates_order_as_their_days(today, date);
        let before = date.previous_day()->0;
        lemma_candidate(today, before, (n - 1) as nat);
        assert(before.next_day() == Some(date));
    }
}

proof fn lemma_occurs(rule: Rule, today: Date, zone: Zone, date: Date, n: nat, m: nat)
    requires
        n < m,
        candidate(today, n) == Some(date),
        rule.occurrence(date, zone) is Some,
    ensures
        rule.occurrences(today, zone, m).contains(rule.occurrence(date, zone)->0),
    decreases m,
{
    let window = rule.occurrence(date, zone)->0;
    let before = rule.occurrences(today, zone, (m - 1) as nat);
    let after = rule.occurrences(today, zone, m);
    if n == m - 1 {
        assert(after[before.len() as int] == window);
    } else {
        lemma_occurs(rule, today, zone, date, n, (m - 1) as nat);
        let k = choose|k: int| 0 <= k < before.len() && before[k] == window;
        assert(after[k] == window);
    }
}

proof fn lemma_open_window(windows: Seq<Window>, now: i64, i: int)
    requires
        0 <= i <= windows.len(),
    ensures
        open_window(windows, now, i) is None <==> forall|k: int|
            i <= k < windows.len() ==> !((#[trigger] windows[k]).start <= now < windows[k].end),
        open_window(windows, now, i) matches Some(window) ==> exists|k: int|
            i <= k < windows.len() && #[trigger] windows[k] == window && window.start <= now
                < window.end && forall|m: int|
                i <= m < k ==> !((#[trigger] windows[m]).start <= now < windows[m].end),
    decreases windows.len() - i,
{
    if i < windows.len() {
        lemma_open_window(windows, now, i + 1);
        if windows[i].start <= now && now < windows[i].end {
            assert(windows[i] == open_window(windows, now, i)->0);
        } else if let Some(window) = open_window(windows, now, i + 1) {
            let k = choose|k: int|
                i + 1 <= k < windows.len() && #[trigger] windows[k] == window && window.start <= now
                    < window.end && forall|m: int|
                    i + 1 <= m < k ==> !((#[trigger] windows[m]).start <= now < windows[m].end);
            assert(windows[k] == window);
        }
    }
}

/// A window is open from its start up to but not at its end; a rule's open window is the first of
/// its windows that is open.
pub proof fn windows_are_open_until_they_end(rule: Ruled, now: i64)
    ensures
        rule.open_at(now) is None <==> forall|k: int|
            0 <= k < rule.windows.len() ==> !((#[trigger] rule.windows[k]).start <= now
                < rule.windows[k].end),
        rule.open_at(now) matches Some(window) ==> exists|k: int|
            0 <= k < rule.windows.len() && #[trigger] rule.windows[k] == window && window.start
                <= now < window.end && forall|m: int|
                0 <= m < k ==> !((#[trigger] rule.windows[m]).start <= now < rule.windows[m].end),
{
    lemma_open_window(rule.windows, now, 0);
}

/// The next time a rule opens is the earliest of its starts that lie ahead.
pub proof fn the_next_opening_is_the_earliest_ahead(windows: Seq<Window>, now: i64)
    ensures
        next_start(windows, now) is None <==> forall|k: int|
            0 <= k < windows.len() ==> (#[trigger] windows[k]).start <= now,
        next_start(windows, now) matches Some(start) ==> {
            &&& start > now
            &&& exists|k: int| 0 <= k < windows.len() && (#[trigger] windows[k]).start == start
            &&& forall|k: int|
                0 <= k < windows.len() && (#[trigger] windows[k]).start > now ==> start
                    <= windows[k].start
        },
    decreases windows.len(),
{
    if windows.len() > 0 {
        let front = windows.drop_last();
        the_next_opening_is_the_earliest_ahead(front, now);
        let last = windows.len() - 1;
        assert forall|k: int| 0 <= k < last implies #[trigger] front[k] == windows[k] by {}
        if next_start(windows, now) is None {
            assert forall|k: int| 0 <= k < windows.len() implies (#[trigger] windows[k]).start
                <= now by {
                if k < last {
                    assert(front[k] == windows[k]);
                }
            }
        } else {
            let start = next_start(windows, now)->0;
            assert forall|k: int|
                0 <= k < windows.len() && (#[trigger] windows[k]).start > now implies start
                <= windows[k].start by {
                if k < last {
                    assert(front[k] == windows[k]);
                }
            }
            if windows[last].start == start {
            } else {
                let k = choose|k: int| 0 <= k < front.len() && (#[trigger] front[k]).start == start;
                assert(windows[k].start == start);
            }
        }
    }
}

proof fn lemma_next_opening(rules: Seq<Ruled>, now: i64)
    ensures
        next_opening(rules, now) is None <==> forall|i: int, k: int|
            0 <= i < rules.len() && (#[trigger] rules[i]).rule.kind == RuleKind::Allow && 0 <= k
                < rules[i].windows.len() ==> (#[trigger] rules[i].windows[k]).start <= now,
        next_opening(rules, now) matches Some(start) ==> {
            &&& start > now
            &&& exists|i: int, k: int|
                0 <= i < rules.len() && (#[trigger] rules[i]).rule.kind == RuleKind::Allow && 0 <= k
                    < rules[i].windows.len() && (#[trigger] rules[i].windows[k]).start == start
            &&& forall|i: int, k: int|
                0 <= i < rules.len() && (#[trigger] rules[i]).rule.kind == RuleKind::Allow && 0 <= k
                    < rules[i].windows.len() && (#[trigger] rules[i].windows[k]).start > now
                    ==> start <= rules[i].windows[k].start
        },
    decreases rules.len(),
{
    if rules.len() > 0 {
        let front = rules.drop_last();
        let last = rules.len() - 1;
        lemma_next_opening(front, now);
        the_next_opening_is_the_earliest_ahead(rules[last].windows, now);
        assert forall|i: int| 0 <= i < last implies #[trigger] front[i] == rules[i] by {}
        assert forall|i: int, k: int|
            0 <= i < rules.len() && (#[trigger] rules[i]).rule.kind == RuleKind::Allow && 0 <= k
                < rules[i].windows.len() && (#[trigger] rules[i].windows[k]).start > now implies
            next_opening(rules, now) is Some && next_opening(rules, now)->0
            <= rules[i].windows[k].start by {
            if i < last {
                assert(front[i].windows[k] == rules[i].windows[k]);
            }
        }
        if let Some(start) = next_opening(rules, now) {
            if next_opening(front, now) == Some(start) {
                let (i, k) = choose|i: int, k: int|
                    0 <= i < front.len() && (#[trigger] front[i]).rule.kind == RuleKind::Allow && 0
                        <= k < front[i].windows.len() && (#[trigger] front[i].windows[k]).start
                        == start;
                assert(rules[i].windows[k].start == start);
            } else {
                let k = choose|k: int|
                    0 <= k < rules[last].windows.len() && (
                    #[trigger] rules[last].windows[k]).start == start;
                assert(rules[last].windows[k].start == start);
            }
        }
    }
}

/// A job may start at `now` exactly when no window of a deny rule is open; where there are allow
/// rules, the open window of one of them lasts long enough (or the rule does not ask); and the
/// job is over before any window of a deny rule begins that asks for that.
pub proof fn a_start_is_judged_by_the_windows(rules: Seq<Ruled>, now: i64, end: Option<i64>)
    ensures
        blocked_by(rules, now, end) is None <==> {
            &&& forall|i: int, k: int|
                0 <= i < rules.len() && (#[trigger] rules[i]).rule.kind == RuleKind::Deny && 0 <= k
                    < rules[i].windows.len() ==> !((#[trigger] rules[i].windows[k]).start <= now
                    < rules[i].windows[k].end)
            &&& (exists|i: int|
                0 <= i < rules.len() && (#[trigger] rules[i]).rule.kind == RuleKind::Allow)
                ==> exists|i: int, k: int|
                {
                    &&& 0 <= i < rules.len()
                    &&& (#[trigger] rules[i]).rule.kind == RuleKind::Allow
                    &&& 0 <= k < rules[i].windows.len()
                    &&& (#[trigger] rules[i].windows[k]).start <= now < rules[i].windows[k].end
                    &&& forall|m: int|
                        0 <= m < k ==> !((#[trigger] rules[i].windows[m]).start <= now
                            < rules[i].windows[m].end)
                    &&& !rules[i].rule.must_finish_before || end is Some && end->0
                        <= rules[i].windows[k].end
                }
            &&& forall|i: int, k: int|
                0 <= i < rules.len() && (#[trigger] rules[i]).rule.kind == RuleKind::Deny
                    && rules[i].rule.must_finish_before && 0 <= k < rules[i].windows.len() && (
                #[trigger] rules[i].windows[k]).start > now ==> end is Some && end->0
                    <= rules[i].windows[k].start
        },
{
    a_start_is_allowed_exactly_when_every_rule_agrees(rules, now, end);
    assert forall|i: int| 0 <= i < rules.len() implies {
        &&& (#[trigger] rules[i]).allows() <==> rules[i].rule.kind == RuleKind::Allow
        &&& rules[i].open_at(now) is None <==> forall|k: int|
            0 <= k < rules[i].windows.len() ==> !((#[trigger] rules[i].windows[k]).start <= now
                < rules[i].windows[k].end)
        &&& (rules[i].opens_after(now) is Some ==> end is Some && end->0 <= rules[i].opens_after(
            now,
        )->0) <==> forall|k: int|
            0 <= k < rules[i].windows.len() && (#[trigger] rules[i].windows[k]).start > now ==> end
                is Some && end->0 <= rules[i].windows[k].start
    } by {
        windows_are_open_until_they_end(rules[i], now);
        the_next_opening_is_the_earliest_ahead(rules[i].windows, now);
    }
    if exists|j: int| 0 <= j < rules.len() && (#[trigger] rules[j]).fits(now, end) {
        let j = choose|j: int| 0 <= j < rules.len() && (#[trigger] rules[j]).fits(now, end);
        windows_are_open_until_they_end(rules[j], now);
        let window = rules[j].open_at(now)->0;
        let k = choose|k: int|
            0 <= k < rules[j].windows.len() && #[trigger] rules[j].windows[k] == window
                && window.start <= now < window.end && forall|m: int|
                0 <= m < k ==> !((#[trigger] rules[j].windows[m]).start <= now
                    < rules[j].windows[m].end);
        assert(rules[j].windows[k] == window);
    }
    if exists|i: int, k: int|
        {
            &&& 0 <= i < rules.len()
            &&& (#[trigger] rules[i]).rule.kind == RuleKind::Allow
            &&& 0 <= k < rules[i].windows.len()
            &&& (#[trigger] rules[i].windows[k]).start <= now < rules[i].windows[k].end
            &&& forall|m: int|
                0 <= m < k ==> !((#[trigger] rules[i].windows[m]).start <= now
                    < rules[i].windows[m].end)
            &&& !rules[i].rule.must_finish_before || end is Some && end->0
                <= rules[i].windows[k].end
        } {
        let (i, k) = choose|i: int, k: int|
            {
                &&& 0 <= i < rules.len()
                &&& (#[trigger] rules[i]).rule.kind == RuleKind::Allow
                &&& 0 <= k < rules[i].windows.len()
                &&& (#[trigger] rules[i].windows[k]).start <= now < rules[i].windows[k].end
                &&& forall|m: int|
                    0 <= m < k ==> !((#[trigger] rules[i].windows[m]).start <= now
                        < rules[i].windows[m].end)
                &&& !rules[i].rule.must_finish_before || end is Some && end->0
                    <= rules[i].windows[k].end
            };
        windows_are_open_until_they_end(rules[i], now);
        let window = rules[i].open_at(now)->0;
        let j = choose|j: int|
            0 <= j < rules[i].windows.len() && #[trigger] rules[i].windows[j] == window
                && window.start <= now < window.end && forall|m: int|
                0 <= m < j ==> !((#[trigger] rules[i].windows[m]).start <= now
                    < rules[i].windows[m].end);
        assert(j == k) by {
            if j < k {
                assert(rules[i].windows[j].start <= now < rules[i].windows[j].end);
            }
            if k < j {
                assert(rules[i].windows[k].start <= now < rules[i].windows[k].end);
            }
        }
        assert(rules[i].fits(now, end));
    }
}

proof fn lemma_first_denying_is(rules: Seq<Ruled>, now: i64, i: int)
    requires
        0 <= i <= rules.len(),
    ensures
        first_denying(rules, now, i) matches Some(denying) ==> exists|k: int|
            i <= k < rules.len() && #[trigger] rules[k] == denying && denying.rule.kind
                == RuleKind::Deny && denying.open_at(now) is Some,
    decreases rules.len() - i,
{
    if i < rules.len() {
        lemma_first_denying_is(rules, now, i + 1);
        if !rules[i].allows() && rules[i].open_at(now) is Some {
            assert(rules[i] == first_denying(rules, now, i)->0);
        } else if let Some(denying) = first_denying(rules, now, i + 1) {
            let k = choose|k: int|
                i + 1 <= k < rules.len() && #[trigger] rules[k] == denying && denying.rule.kind
                    == RuleKind::Deny && denying.open_at(now) is Some;
            assert(rules[k] == denying);
        }
    }
}

proof fn lemma_first_allowing_is(rules: Seq<Ruled>, now: i64, i: int)
    requires
        0 <= i <= rules.len(),
    ensures
        first_allowing(rules, now, i) matches Some(allowing) ==> exists|k: int|
            i <= k < rules.len() && #[trigger] rules[k] == allowing && allowing.rule.kind
                == RuleKind::Allow && allowing.open_at(now) is Some,
    decreases rules.len() - i,
{
    if i < rules.len() {
        lemma_first_allowing_is(rules, now, i + 1);
        if rules[i].allows() && rules[i].open_at(now) is Some {
            assert(rules[i] == first_allowing(rules, now, i)->0);
        } else if let Some(allowing) = first_allowing(rules, now, i + 1) {
            let k = choose|k: int|
                i + 1 <= k < rules.len() && #[trigger] rules[k] == allowing && allowing.rule.kind
                    == RuleKind::Allow && allowing.open_at(now) is Some;
            assert(rules[k] == allowing);
        }
    }
}

proof fn lemma_first_overrun_is(rules: Seq<Ruled>, now: i64, end: Option<i64>, i: int)
    requires
        0 <= i <= rules.len(),
    ensures
        first_overrun(rules, now, end, i) matches Some(denying) ==> exists|k: int|
            i <= k < rules.len() && #[trigger] rules[k] == denying && denying.runs_into(now, end),
    decreases rules.len() - i,
{
    if i < rules.len() {
        lemma_first_overrun_is(rules, now, end, i + 1);
        if rules[i].runs_into(now, end) {
            assert(rules[i] == first_overrun(rules, now, end, i)->0);
        } else if let Some(denying) = first_overrun(rules, now, end, i + 1) {
            let k = choose|k: int|
                i + 1 <= k < rules.len() && #[trigger] rules[k] == denying && denying.runs_into(
                    now,
                    end,
                );
            assert(rules[k] == denying);
        }
    }
}

/// Where a deny rule is said to be in force, it is, until then; where every allow rule is said to
/// be closed, none is open, and the next to open is said; and a job that is said to take too long
/// ends after the deadline, which is the end of an open allow window or the start of a deny
/// window ahead.
pub proof fn the_schedule_says_what_is_so(rules: Seq<Ruled>, now: i64, end: Option<i64>)
    ensures
        match blocked_by(rules, now, end) {
            None => true,
            Some(ScheduleBlock::DenyActive { label, until }) => exists|i: int, k: int|
                {
                    &&& 0 <= i < rules.len()
                    &&& (#[trigger] rules[i]).rule.kind == RuleKind::Deny
                    &&& rules[i].rule.label == label
                    &&& 0 <= k < rules[i].windows.len()
                    &&& (#[trigger] rules[i].windows[k]).start <= now < rules[i].windows[k].end
                    &&& rules[i].windows[k].end == until
                },
            Some(ScheduleBlock::OutsideAllowed { next }) => {
                &&& forall|i: int, k: int|
                    0 <= i < rules.len() && 0 <= k < (#[trigger] rules[i]).windows.len() ==> !((
                    #[trigger] rules[i].windows[k]).start <= now < rules[i].windows[k].end)
                &&& next is None <==> forall|i: int, k: int|
                    0 <= i < rules.len() && (#[trigger] rules[i]).rule.kind == RuleKind::Allow && 0
                        <= k < rules[i].windows.len() ==> (#[trigger] rules[i].windows[k]).start
                        <= now
                &&& next matches Some(start) ==> start > now && forall|i: int, k: int|
                    0 <= i < rules.len() && (#[trigger] rules[i]).rule.kind == RuleKind::Allow && 0
                        <= k < rules[i].windows.len() && (#[trigger] rules[i].windows[k]).start
                        > now ==> start <= rules[i].windows[k].start
            },
            Some(ScheduleBlock::WouldOverrun { label, deadline }) => end is Some && end->0
                > deadline && exists|i: int, k: int|
                {
                    &&& 0 <= i < rules.len()
                    &&& (#[trigger] rules[i]).rule.must_finish_before
                    &&& rules[i].rule.label == label
                    &&& 0 <= k < rules[i].windows.len()
                    &&& rules[i].rule.kind == RuleKind::Allow ==> (
                    #[trigger] rules[i].windows[k]).start <= now < rules[i].windows[k].end
                        && rules[i].windows[k].end == deadline
                    &&& rules[i].rule.kind == RuleKind::Deny ==> now < rules[i].windows[k].start
                        && rules[i].windows[k].start == deadline
                },
            Some(ScheduleBlock::NoEstimate { label }) => end is None && exists|i: int|
                0 <= i < rules.len() && (#[trigger] rules[i]).rule.must_finish_before
                    && rules[i].rule.label == label,
        },
{
    lemma_first_denying(rules, now, 0);
    lemma_first_denying_is(rules, now, 0);
    lemma_first_allowing(rules, now, 0);
    lemma_first_allowing_is(rules, now, 0);
    lemma_first_overrun_is(rules, now, end, 0);
    lemma_next_opening(rules, now);
    assert forall|i: int| 0 <= i < rules.len() implies {
        &&& (#[trigger] rules[i]).open_at(now) is None <==> forall|k: int|
            0 <= k < rules[i].windows.len() ==> !((#[trigger] rules[i].windows[k]).start <= now
                < rules[i].windows[k].end)
        &&& rules[i].open_at(now) matches Some(window) ==> exists|k: int|
            0 <= k < rules[i].windows.len() && #[trigger] rules[i].windows[k] == window
                && window.start <= now < window.end
        &&& rules[i].opens_after(now) matches Some(start) ==> exists|k: int|
            0 <= k < rules[i].windows.len() && (#[trigger] rules[i].windows[k]).start == start
                && start > now
    } by {
        windows_are_open_until_they_end(rules[i], now);
        the_next_opening_is_the_earliest_ahead(rules[i].windows, now);
    }
    match first_denying(rules, now, 0) {
        Some(denying) => {
            let i = choose|k: int|
                0 <= k < rules.len() && #[trigger] rules[k] == denying && denying.rule.kind
                    == RuleKind::Deny && denying.open_at(now) is Some;
            let window = rules[i].open_at(now)->0;
            let k = choose|k: int|
                0 <= k < rules[i].windows.len() && #[trigger] rules[i].windows[k] == window
                    && window.start <= now < window.end;
            assert(rules[i].windows[k].end == window.end);
        },
        None => {
            let narrow = exists|i: int| 0 <= i < rules.len() && (#[trigger] rules[i]).allows() && !(
            exists|j: int| 0 <= j < rules.len() && (#[trigger] rules[j]).fits(now, end));
            if narrow {
                if let Some(allowing) = first_allowing(rules, now, 0) {
                    let i = choose|k: int|
                        0 <= k < rules.len() && #[trigger] rules[k] == allowing
                            && allowing.rule.kind == RuleKind::Allow && allowing.open_at(now) is Some;
                    assert(!rules[i].fits(now, end));
                    let window = rules[i].open_at(now)->0;
                    let k = choose|k: int|
                        0 <= k < rules[i].windows.len() && #[trigger] rules[i].windows[k] == window
                            && window.start <= now < window.end;
                    assert(rules[i].windows[k].end == window.end);
                }
            } else if let Some(denying) = first_overrun(rules, now, end, 0) {
                let i = choose|k: int|
                    0 <= k < rules.len() && #[trigger] rules[k] == denying && denying.runs_into(
                        now,
                        end,
                    );
                let start = rules[i].opens_after(now)->0;
                let k = choose|k: int|
                    0 <= k < rules[i].windows.len() && (#[trigger] rules[i].windows[k]).start
                        == start && start > now;
                assert(rules[i].windows[k].start == start);
            }
        },
    }
}

/// Rules that allow are listed before those that deny, and each by their start.
pub proof fn allowing_rules_are_listed_first(a: (i64, Rule), b: (i64, Rule))
    ensures
        a.1.kind == RuleKind::Allow && b.1.kind == RuleKind::Deny ==> rule_order()(a, b)
            && !rule_order()(b, a),
        a.1.kind == b.1.kind && a.1.start_minute < b.1.start_minute ==> rule_order()(a, b)
            && !rule_order()(b, a),
        a.1.kind == b.1.kind && a.1.start_minute == b.1.start_minute && a.0 < b.0 ==> rule_order()(
            a,
            b,
        ) && !rule_order()(b, a),
{
}

} // verus!

use printhub::schedule::{
    self, check, format_time, parse_time, Rule, RuleKind, Rules, ScheduleBlock,
};
use printhub::web::schedule::{
    add_rule, day_summary, delete_rule, schedule_view, Outcome, RuleForm,
};
use printhub::zone::Zone;

const EVERY_DAY: u8 = 0b111_1111;

const BERLIN: &str = "CET-1CEST,M3.5.0,M10.5.0/3";

/// A zone file without transitions: the rule at its end holds for all times.
fn zone(name: &str, abbreviation: &str, offset: i32, rule: &str) -> Zone {
    let mut block: Vec<u8> = Vec::new();
    block.extend_from_slice(b"TZif2");
    block.extend_from_slice(&[0; 15]);
    for count in [0u32, 0, 0, 0, 1, abbreviation.len() as u32 + 1] {
        block.extend_from_slice(&count.to_be_bytes());
    }
    block.extend_from_slice(&offset.to_be_bytes());
    block.extend_from_slice(&[0, 0]);
    block.extend_from_slice(abbreviation.as_bytes());
    block.push(0);
    let mut data = block.clone();
    data.extend_from_slice(&block);
    data.extend_from_slice(format!("\n{rule}\n").as_bytes());
    Zone::new(name.to_string(), data).unwrap()
}

fn berlin() -> Zone {
    zone("Europe/Berlin", "CET", 3600, BERLIN)
}

/// A local Berlin time.
fn at(raw: &str) -> i64 {
    raw.parse::<jiff::civil::DateTime>()
        .unwrap()
        .to_zoned(jiff::tz::TimeZone::posix(BERLIN).unwrap())
        .unwrap()
        .timestamp()
        .as_second()
}

fn utc(raw: &str) -> i64 {
    raw.parse::<jiff::Timestamp>().unwrap().as_second()
}

fn rule(kind: RuleKind, days: u8, start: &str, end: &str, finish: bool) -> Rule {
    Rule {
        kind,
        days,
        start_minute: parse_time(start).unwrap(),
        end_minute: parse_time(end).unwrap(),
        must_finish_before: finish,
        label: format!("{} {start}-{end}", kind.as_str()),
    }
}

fn check_at(rules: &[Rule], now: &str, end: Option<&str>) -> Result<(), ScheduleBlock> {
    check(rules, at(now), end.map(at), &berlin())
}

#[test]
fn no_rules_allow_anything() {
    assert_eq!(check_at(&[], "2026-09-15T03:00", None), Ok(()));
}

#[test]
fn overnight_deny_is_active_after_midnight() {
    // Friday 22:00 to Saturday 07:00.
    let quiet = [rule(RuleKind::Deny, 1 << 4, "22:00", "07:00", false)];
    assert_eq!(check_at(&quiet, "2026-09-18T21:59", None), Ok(()));
    assert_eq!(
        check_at(&quiet, "2026-09-19T03:00", None),
        Err(ScheduleBlock::DenyActive {
            label: "deny 22:00-07:00".into(),
            until: at("2026-09-19T07:00"),
        })
    );
    assert_eq!(check_at(&quiet, "2026-09-19T07:00", None), Ok(()));
    // Saturday night itself is not a Friday.
    assert_eq!(check_at(&quiet, "2026-09-19T23:00", None), Ok(()));
}

#[test]
fn allow_rules_close_everything_else() {
    let weekdays = [rule(RuleKind::Allow, 0b001_1111, "08:00", "20:00", false)];
    assert_eq!(check_at(&weekdays, "2026-09-15T12:00", None), Ok(()));
    // Friday evening: the next window is Monday morning.
    assert_eq!(
        check_at(&weekdays, "2026-09-18T21:00", None),
        Err(ScheduleBlock::OutsideAllowed {
            next: Some(at("2026-09-21T08:00"))
        })
    );
}

#[test]
fn deny_wins_over_an_overlapping_allow() {
    let rules = [
        rule(RuleKind::Allow, EVERY_DAY, "06:00", "23:00", false),
        rule(RuleKind::Deny, EVERY_DAY, "12:00", "13:00", false),
    ];
    assert!(matches!(
        check_at(&rules, "2026-09-15T12:30", None),
        Err(ScheduleBlock::DenyActive { .. })
    ));
    assert_eq!(check_at(&rules, "2026-09-15T13:30", None), Ok(()));
}

#[test]
fn deny_toggle_requires_finishing_before_the_next_start() {
    let off = [rule(RuleKind::Deny, EVERY_DAY, "22:00", "07:00", false)];
    let on = [rule(RuleKind::Deny, EVERY_DAY, "22:00", "07:00", true)];
    let now = "2026-09-15T20:00";
    assert_eq!(check_at(&on, now, Some("2026-09-15T21:59")), Ok(()));
    assert_eq!(
        check_at(&on, now, Some("2026-09-15T22:30")),
        Err(ScheduleBlock::WouldOverrun {
            label: "deny 22:00-07:00".into(),
            deadline: at("2026-09-15T22:00"),
        })
    );
    assert_eq!(check_at(&off, now, Some("2026-09-16T05:00")), Ok(()));
    assert_eq!(
        check_at(&on, now, None),
        Err(ScheduleBlock::NoEstimate {
            label: "deny 22:00-07:00".into()
        })
    );
}

#[test]
fn allow_toggle_requires_finishing_inside_the_window() {
    let on = [rule(RuleKind::Allow, EVERY_DAY, "08:00", "18:00", true)];
    let off = [rule(RuleKind::Allow, EVERY_DAY, "08:00", "18:00", false)];
    let now = "2026-09-15T17:00";
    assert_eq!(check_at(&on, now, Some("2026-09-15T18:00")), Ok(()));
    assert_eq!(
        check_at(&on, now, Some("2026-09-15T18:30")),
        Err(ScheduleBlock::WouldOverrun {
            label: "allow 08:00-18:00".into(),
            deadline: at("2026-09-15T18:00"),
        })
    );
    assert_eq!(check_at(&off, now, Some("2026-09-15T23:00")), Ok(()));
}

#[test]
fn windows_keep_local_times_across_dst_changes() {
    // Berlin springs forward on 2026-03-29 at 02:00 and falls back on 2026-10-25 at 03:00.
    let night = [rule(RuleKind::Deny, EVERY_DAY, "01:00", "05:00", false)];
    let Err(ScheduleBlock::DenyActive { until, .. }) = check_at(&night, "2026-03-29T04:30", None)
    else {
        panic!("the window is open at 04:30 local time");
    };
    assert_eq!(until, utc("2026-03-29T03:00:00Z"));
    assert_eq!(check_at(&night, "2026-10-25T05:00", None), Ok(()));
    assert!(check_at(&night, "2026-10-25T04:59", None).is_err());

    // 02:30 does not exist on the spring-forward day.
    let gap = [rule(RuleKind::Allow, EVERY_DAY, "02:30", "06:00", false)];
    assert_eq!(
        check_at(&gap, "2026-03-29T01:00", None),
        Err(ScheduleBlock::OutsideAllowed {
            next: Some(utc("2026-03-29T01:30:00Z"))
        })
    );
}

#[test]
fn times() {
    assert_eq!(parse_time("07:05"), Some(425));
    assert_eq!(parse_time("23:59"), Some(1439));
    assert_eq!(parse_time("24:00"), None);
    assert_eq!(parse_time("7:05"), None);
    assert_eq!(format_time(425), "07:05");
}

#[test]
fn a_zone_needs_a_zone_file() {
    assert!(Zone::new("UTC".to_string(), b"no zone".to_vec()).is_none());
    let berlin = berlin();
    assert_eq!(berlin.time(utc("2026-09-15T12:34:56Z")), (14, 34));
    let date = berlin.date(utc("2026-09-15T22:00:00Z"));
    assert_eq!((date.year, date.month, date.day), (2026, 9, 16));
    assert_eq!(berlin.instant(date, 0), Some(utc("2026-09-15T22:00:00Z")));
}

#[test]
fn day_summaries() {
    assert_eq!(day_summary(0b111_1111), "Every day");
    assert_eq!(day_summary(0b001_1111), "Weekdays");
    assert_eq!(day_summary(0b110_0000), "Weekends");
    assert_eq!(day_summary(0b000_0101), "Mon, Wed");
}

#[test]
fn rule_form_validation() {
    let form = RuleForm {
        kind: "deny".into(),
        start: "22:00".into(),
        end: "07:00".into(),
        day4: Some("on".into()),
        day5: Some("on".into()),
        must_finish_before: Some("on".into()),
        ..RuleForm::default()
    };
    let rule = form.rule().unwrap();
    assert_eq!(rule.days, 0b011_0000);
    assert_eq!((rule.start_minute, rule.end_minute), (1320, 420));
    assert!(rule.must_finish_before);
    assert_eq!(rule.label, "Deny 22:00–07:00");

    assert!(RuleForm {
        day4: None,
        day5: None,
        ..form
    }
    .rule()
    .is_err());
}

fn form() -> RuleForm {
    RuleForm {
        kind: "allow".into(),
        label: " Daytime ".into(),
        start: "08:00".into(),
        end: "20:00".into(),
        day0: Some("on".into()),
        ..RuleForm::default()
    }
}

#[test]
fn what_is_wrong_with_a_rule_is_said() {
    let said = |form: RuleForm| form.rule().err().unwrap();
    assert_eq!(said(RuleForm { kind: "maybe".into(), ..form() }), "Choose allow or deny.");
    assert_eq!(said(RuleForm { day0: None, ..form() }), "Tick at least one day.");
    assert_eq!(said(RuleForm { start: "8".into(), ..form() }), "Enter the start as HH:MM.");
    assert_eq!(said(RuleForm { end: "25:00".into(), ..form() }), "Enter the end as HH:MM.");
    assert_eq!(
        said(RuleForm { label: "x".repeat(65), ..form() }),
        "Names are limited to 64 characters."
    );
    assert_eq!(form().rule().unwrap().label, "Daytime");
}

#[test]
fn rules_are_added_shown_and_deleted() {
    let mut db = Rules { rules: Vec::new() };
    assert_eq!(add_rule(&mut db, &form(), 5), Ok("/admin/schedule?done=added"));
    assert_eq!(
        add_rule(&mut db, &RuleForm::default(), 6),
        Err("Choose allow or deny.".to_string())
    );
    let (status, page) = schedule_view(&db, &berlin(), None, None);
    assert_eq!(status, 200);
    assert_eq!(page.timezone, "Europe/Berlin");
    assert_eq!(page.rules.len(), 1);
    assert_eq!(page.rules[0].kind, "Allow");
    assert_eq!(page.rules[0].hours, "08:00–20:00");
    assert_eq!(page.rules[0].days, "Mon");
    let (status, _) = schedule_view(&db, &berlin(), None, Some("x".to_string()));
    assert_eq!(status, 400);
    let id = schedule::rules(&db)[0].0;
    assert_eq!(delete_rule(&mut db, id), "/admin/schedule?done=deleted");
    assert!(db.rules.is_empty());
    let notice = |code: &str| Outcome { done: Some(code.to_string()) }.notice();
    assert_eq!(notice("added"), Some("Rule added."));
    assert_eq!(notice("<b>"), None);
}

#[test]
fn a_time_is_two_digits_a_colon_and_two_digits() {
    for raw in ["7:005", "+7:05", "007:5", "07:5", "07:+5", "0705", "07: 05", "", "07:60", "٠٧:٠٥"] {
        assert_eq!(parse_time(raw), None, "{raw}");
    }
    assert_eq!(parse_time("00:00"), Some(0));
}

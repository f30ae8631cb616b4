use printhub::accounts::{self, Accounts, Role};
use printhub::calendar::Date;
use printhub::inventory::{self, ConsumptionKind, Inventory, SpoolFields};
use printhub::jobs::{JobState, Jobs};
use printhub::stats::{
    balances, can_be_added, can_be_netted, delete_settlement, load, record_settlement,
    settlements, summarize, uses_can_be_added, Debt, Granularity, Ledger, Payments, Period,
    Print, Settlement, Unaccounted, Use, Whose,
};
use printhub::web::chart::{slot, stacked, ticks, BarInput, Series};
use printhub::web::stats::{
    bar_input, can_be_written, money, people_can_be_drawn, percent, weight, whose_can_be_drawn,
};
use printhub::zone::Zone;

/// A zone file without transitions: the rule at its end holds for all times.
fn zone(name: &str, abbreviation: &str, offset: i32, rule: &str) -> Zone {
    let mut block: Vec<u8> = Vec::new();
    block.extend_from_slice(b"TZif2");
    block.extend_from_slice(&[0; 15]);
    for count in [0u32, 0, 0, 0, 1, abbreviation.len() as u32 + 1] {
        block.extend_from_slice(&count.to_be_bytes());
    }
    block.extend_from_slice(&offset.to_be_bytes());
    block.extend_from_slice(&[0, 0]);
    block.extend_from_slice(abbreviation.as_bytes());
    block.push(0);
    let mut data = block.clone();
    data.extend_from_slice(&block);
    data.extend_from_slice(format!("\n{rule}\n").as_bytes());
    Zone::new(name.to_string(), data).unwrap()
}

fn utc() -> Zone {
    zone("UTC", "UTC", 0, "UTC0")
}

fn berlin() -> Zone {
    zone("Europe/Berlin", "CET", 3600, "CET-1CEST,M3.5.0,M10.5.0/3")
}

fn unix(raw: &str) -> i64 {
    raw.parse::<jiff::civil::DateTime>()
        .unwrap()
        .to_zoned(jiff::tz::TimeZone::UTC)
        .unwrap()
        .timestamp()
        .as_second()
}

/// Two cents a gram, where the spool is somebody's.
fn used(user: i64, owner: Option<i64>, kind: ConsumptionKind, mg: i64, at: &str) -> Use {
    Use {
        user_id: Some(user),
        owner_id: owner,
        kind,
        mg,
        value: owner.map(|_| mg as i128 * 2),
        material: "PLA".into(),
        at: unix(at),
    }
}

fn payment(from: i64, to: i64, amount_cents: i64) -> Settlement {
    Settlement {
        id: 0,
        from: (from, String::new()),
        to: (to, String::new()),
        amount_cents,
        recorded_by: None,
        created_at: 0,
    }
}

const SAM: i64 = 1;
const ALEX: i64 = 2;

#[test]
fn filament_is_split_by_whose_spool_it_came_from() {
    let print = |state, seconds| Print {
        owner_id: Some(ALEX),
        state,
        seconds,
        finished_at: unix("2026-03-01T12:00:00"),
    };
    let at = "2026-03-01T12:00:00";
    let mut pla = used(ALEX, None, ConsumptionKind::Print, 5_000, at);
    pla.material = " pla ".into();
    let ledger = Ledger {
        uses: vec![
            used(ALEX, Some(ALEX), ConsumptionKind::Print, 10_000, at),
            pla,
            used(ALEX, Some(SAM), ConsumptionKind::Estimate, 20_000, at),
            used(SAM, Some(SAM), ConsumptionKind::Print, 1_000, at),
            used(SAM, Some(SAM), ConsumptionKind::WeighIn, 7_000, at),
        ],
        prints: vec![print(JobState::Done, 3600), print(JobState::Cancelled, 60)],
    };
    let now = unix("2026-03-02T00:00:00");
    let summary = summarize(&ledger, Period::AllTime, 0, now, &utc());

    let alex = &summary.people[0];
    assert_eq!(alex.user_id, ALEX, "most filament first");
    assert_eq!(
        (alex.own_mg, alex.shared_mg, alex.others_mg),
        (10_000, 5_000, 20_000)
    );
    assert_eq!((alex.others_value, alex.wasted_mg), (40_000, 20_000));
    assert_eq!((alex.done, alex.cancelled, alex.print_seconds), (1, 1, 3660));
    assert_eq!(summary.people[1].grams(), 1_000, "a weigh-in is not a print");

    assert_eq!(
        summary
            .pairs
            .iter()
            .map(|p| (p.user_id, p.owner_id, p.mg, p.value))
            .collect::<Vec<_>>(),
        [
            (SAM, Some(SAM), 1_000, Some(2_000)),
            (ALEX, Some(SAM), 20_000, Some(40_000)),
            (ALEX, Some(ALEX), 10_000, Some(20_000)),
            (ALEX, None, 5_000, None),
        ]
    );
    assert_eq!(summary.materials, [("PLA".to_owned(), 36_000)]);
    assert_eq!(
        summary.unaccounted,
        [Unaccounted {
            owner_id: Some(SAM),
            mg: 7_000,
            value: Some(14_000)
        }]
    );
    assert_eq!(summary.buckets.len(), 1);
    assert_eq!(summary.buckets[0].whose(Whose::Others), 20_000);
}

#[test]
fn buckets_follow_the_local_calendar() {
    let tz = berlin();
    // 23:30 UTC on 31 January is already February in Berlin.
    let ledger = Ledger {
        uses: vec![used(
            SAM,
            None,
            ConsumptionKind::Print,
            4_000,
            "2026-01-31T23:30:00",
        )],
        prints: Vec::new(),
    };
    let now = unix("2026-03-15T12:00:00");
    let since = Period::Last12Months.since(now, &tz);
    assert_eq!(
        since,
        unix("2025-03-31T22:00:00"),
        "1 April 2025, Berlin summer time"
    );
    let date = |year, month, day| Date { year, month, day };
    let summary = summarize(&ledger, Period::Last12Months, since, now, &tz);
    let months: Vec<Date> = summary.buckets.iter().map(|bucket| bucket.start).collect();
    assert_eq!(months.len(), 12);
    assert_eq!(*months.first().unwrap(), date(2025, 4, 1));
    assert_eq!(*months.last().unwrap(), date(2026, 3, 1));
    let february = &summary.buckets[10];
    assert_eq!(february.start, date(2026, 2, 1));
    assert_eq!(february.by_user, [(SAM, 4_000)]);

    let days = summarize(
        &ledger,
        Period::Last30Days,
        Period::Last30Days.since(now, &tz),
        now,
        &tz,
    );
    assert_eq!(days.buckets.len(), 31);
    assert!(days.people.iter().all(|p| p.user_id == SAM));
}

#[test]
fn balances_net_both_directions_and_payments() {
    assert_eq!(
        balances(&[(ALEX, SAM, 500_000), (SAM, ALEX, 120_400)], &[]),
        [Debt {
            debtor: ALEX,
            creditor: SAM,
            cents: 380
        }]
    );
    assert_eq!(
        balances(&[(ALEX, SAM, 500_000)], &[payment(ALEX, SAM, 500)]),
        [],
        "paid in full"
    );
    assert_eq!(
        balances(&[(ALEX, SAM, 500_000)], &[payment(ALEX, SAM, 700)]),
        [Debt {
            debtor: SAM,
            creditor: ALEX,
            cents: 200
        }],
        "overpaid"
    );
    assert_eq!(balances(&[(SAM, SAM, 1_000)], &[]), []);
}

#[test]
fn the_ledger_keeps_owner_and_value_from_when_filament_was_used() {
    let mut people = Accounts::new();
    let mut add = |name: &str| {
        accounts::create_user(&mut people, name.to_string(), "h".to_string(), Role::Member, 1)
            .unwrap()
    };
    let sam = add("sam");
    let alex = add("alex");
    let fields = |price_cents: i64| SpoolFields {
        material: "PLA".into(),
        brand: String::new(),
        color_name: String::new(),
        color_hex: "#000000".into(),
        price_cents: Some(price_cents),
        initial_mg: 1_000_000,
        notes: String::new(),
    };
    let mut db = Inventory::new();
    let spool =
        inventory::create_spool(&mut db, fields(2000), Some((sam, "sam".to_string())), 1);
    inventory::weigh_in(&mut db, spool, alex, 900_000, 2).unwrap();
    inventory::update_spool(&mut db, spool, fields(9000), Some((alex, "alex".to_string())))
        .unwrap();

    let ledger = load(&db, &Jobs::new(), 0);
    assert_eq!(ledger.uses.len(), 1);
    assert_eq!(ledger.uses[0].owner_id, Some(sam));
    assert_eq!(ledger.uses[0].value, Some(200_000));

    let mut payments = Payments { rows: Vec::new() };
    let id = record_settlement(&mut payments, alex, sam, 150, sam, 3);
    let paid = settlements(&payments, &people);
    assert_eq!(paid[0].from, (alex, "alex".to_owned()));
    assert_eq!(
        balances(&[(alex, sam, 200_000)], &paid),
        [Debt {
            debtor: alex,
            creditor: sam,
            cents: 50
        }]
    );
    assert!(delete_settlement(&mut payments, id));
    assert!(!delete_settlement(&mut payments, id));
}

// Values are in grams here; the chart hands a thousand times as much to the format.

fn bar(values: &[i128]) -> BarInput {
    BarInput {
        short_label: "Mar".into(),
        label: "March 2026".into(),
        values: values.to_vec(),
    }
}

fn series(names: &[&str]) -> Vec<Series> {
    names
        .iter()
        .enumerate()
        .map(|(index, name)| Series {
            name: (*name).to_owned(),
            slot: slot(index).unwrap(),
        })
        .collect()
}

fn grams(value: i128) -> String {
    format!("{} g", value / 1000)
}

#[test]
fn ticks_are_round_and_cover_the_maximum() {
    assert_eq!(ticks(412_000), (200_000, 3));
    assert_eq!(ticks(1_000_000), (250_000, 4));
    assert_eq!(ticks(3_000), (1_000, 3));
}

#[test]
fn only_the_top_segment_is_rounded_and_segments_are_gapped() {
    let chart = stacked(
        String::new(),
        series(&["sam", "alex", "kim"]),
        vec![bar(&[100, 0, 100]), bar(&[0, 0, 0])],
        grams,
    )
    .unwrap();
    let segments = &chart.bars[0].segments;
    assert_eq!(segments.len(), 2, "zero values draw nothing");
    assert!(segments[0].path.ends_with('Z') && !segments[0].path.contains('Q'));
    assert!(segments[1].path.contains('Q'));
    assert_eq!(segments[1].slot, "series-3", "the slot follows the series");
    assert_eq!(segments[1].title, "kim, March 2026: 100 g");
    assert!(chart.bars[1].segments.is_empty());

    // Two bands of 442 centre the bars at x 273; 200 g fills the 218 high plot, so 100 g
    // is 109, and the upper segment starts 2 above the lower one's top.
    assert_eq!(segments[0].path, "M273 121H297V230H273Z");
    assert_eq!(
        segments[1].path,
        "M273 119V16Q273 12 277 12H293Q297 12 297 16V119Z"
    );

    let names: Vec<&str> = chart.legend.iter().map(|item| item.name.as_str()).collect();
    assert_eq!(names, ["sam", "kim"], "series without values stay out");
    assert_eq!(chart.table_head, ["", "sam", "kim"]);
    assert_eq!(chart.table_rows[1], ["March 2026", "0 g", "0 g"]);
}

#[test]
fn empty_charts_and_single_series_legends_are_left_out() {
    assert!(stacked(String::new(), series(&["sam"]), vec![bar(&[0])], grams).is_none());
    let single = stacked(String::new(), series(&["sam"]), vec![bar(&[5])], grams).unwrap();
    assert!(single.legend.is_empty());
    assert_eq!(single.bars[0].segments[0].title, "March 2026: 5 g");
}

#[test]
fn labels_thin_out_on_long_ranges() {
    let bars = (0..31).map(|_| bar(&[1])).collect();
    let chart = stacked(String::new(), series(&["sam"]), bars, grams).unwrap();
    let labelled = chart.bars.iter().filter(|bar| bar.label.is_some()).count();
    assert_eq!(labelled, 11, "every third of 31");
}

#[test]
fn amounts_read_naturally() {
    assert_eq!(weight(412_400), "412 g");
    assert_eq!(weight(200), "0 g");
    assert_eq!(weight(1_250_000), "1.25 kg");
    assert_eq!(weight(2_000_000), "2 kg");
    assert_eq!(money(419_600), "4.20");
    assert_eq!(money(-150_000), "-1.50");
    assert_eq!(percent(1, 3), "33%");
    assert_eq!(percent(1, 0), "–");
}

#[test]
fn bar_labels_name_the_year_where_it_changes() {
    let label = |year, month, day, granularity, first| {
        let bar = bar_input(Date { year, month, day }, granularity, first, Vec::new());
        (bar.short_label, bar.label)
    };
    assert_eq!(
        label(2026, 3, 1, Granularity::Month, false),
        ("Mar".to_owned(), "March 2026".to_owned())
    );
    assert_eq!(label(2026, 1, 1, Granularity::Month, false).0, "Jan 2026");
    assert_eq!(label(2025, 11, 1, Granularity::Month, true).0, "Nov 2025");
    assert_eq!(
        label(2026, 3, 5, Granularity::Day, false),
        ("5 Mar".to_owned(), "5 March 2026".to_owned())
    );
}

#[test]
fn paying_one_debt_leaves_the_others() {
    let kim = 77;
    let owed = [(ALEX, SAM, 500_000), (kim, SAM, 300_400), (ALEX, kim, 20_000)];
    let others = [
        Debt { debtor: kim, creditor: SAM, cents: 300 },
        Debt { debtor: ALEX, creditor: kim, cents: 20 },
    ];
    let before = balances(&owed, &[]);
    assert_eq!(before.len(), 3);
    let after = balances(&owed, &[payment(ALEX, SAM, 500)]);
    assert_eq!(after.len(), 2);
    for debt in &others {
        assert!(before.contains(debt) && after.contains(debt));
    }
}

#[test]
fn figures_that_do_not_fit_are_told_apart() {
    let now = unix("2026-03-31T12:00");
    let spent = used(SAM, Some(ALEX), ConsumptionKind::WeighIn, 1_000, "2026-03-30T12:00");
    let uses = vec![spent.clone()];
    assert!(uses_can_be_added(&uses));
    let huge = Use { value: Some(i128::MAX), ..spent.clone() };
    assert!(!uses_can_be_added(&vec![huge, spent]));
    assert!(can_be_added(&Vec::new()));
    assert!(can_be_netted(&[(ALEX, SAM, 500_000)], &[payment(ALEX, SAM, 500)]));
    assert!(!can_be_netted(&[(ALEX, SAM, i128::MAX), (SAM, ALEX, 1)], &[]));

    let ledger = Ledger { uses, prints: Vec::new() };
    let summary = summarize(&ledger, Period::Last30Days, now - 2_592_000, now, &utc());
    assert!(can_be_written(&summary));
    assert!(people_can_be_drawn(&summary) && whose_can_be_drawn(&summary));
}

#[test]
fn many_bars_and_large_values_are_drawn() {
    let many = (0..10_100).map(|_| bar(&[1])).collect();
    let chart = stacked(String::new(), series(&["sam"]), many, grams).unwrap();
    assert_eq!(chart.bars.len(), 10_100);
    let large = 1_000_000_000_000_000_000_000;
    let chart =
        stacked(String::new(), series(&["sam"]), vec![bar(&[large]), bar(&[large / 2])], grams);
    assert_eq!(chart.unwrap().bars.len(), 2);
}

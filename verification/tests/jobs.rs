use printhub::accounts::{self, Accounts, Role, User};
use printhub::cc2::client::{LinkState, PrinterSnapshot};
use printhub::cc2::methods::SlotMapEntry;
use printhub::cc2::model::{Canvas, CanvasInfo, MachineStatus, StatusView, Tray};
use printhub::config::Nozzle;
use printhub::gcode::{GcodeInfo, ToolUse};
use printhub::inventory::{self, Binding, ConsumptionKind, Inventory, Spool, SpoolFields};
use printhub::jobs::{
    self, bed_clear, check_start, choose_spools, create, finish, get, in_state, mounted_nozzle,
    move_queued, set_bed_clear, set_mounted_nozzle, store_gcode_info, tools, transition,
    BlockReason, Job, JobError, JobState, JobTool, Jobs, MountedNozzle, NewJob, NozzleRecord,
    Source, StartContext,
};
use printhub::schedule::{Rule, RuleKind, ScheduleBlock};
use printhub::stats;
use printhub::zone::Zone;

/// A zone file without transitions: the rule at its end holds for all times.
fn utc() -> Zone {
    let mut block: Vec<u8> = Vec::new();
    block.extend_from_slice(b"TZif2");
    block.extend_from_slice(&[0; 15]);
    for count in [0u32, 0, 0, 0, 1, 4] {
        block.extend_from_slice(&count.to_be_bytes());
    }
    block.extend_from_slice(&[0, 0, 0, 0, 0, 0]);
    block.extend_from_slice(b"UTC\0");
    let mut data = block.clone();
    data.extend_from_slice(&block);
    data.extend_from_slice(b"\nUTC0\n");
    Zone::new("UTC".to_string(), data).unwrap()
}

fn people() -> (Accounts, i64) {
    let mut people = Accounts::new();
    let sam = accounts::create_user(
        &mut people,
        "sam".to_string(),
        "h".to_string(),
        Role::Member,
        1,
    )
    .unwrap();
    (people, sam)
}

fn gcode_job(owner: i64) -> NewJob {
    NewJob {
        owner: (owner, "sam".to_string()),
        name: "cube.gcode".to_string(),
        source: Source::Gcode,
        process_profile: None,
        filament_profile: None,
        supports: None,
        infill_percent: None,
        scale_percent: None,
    }
}

fn queued_job(db: &mut Jobs, owner: i64) -> i64 {
    let id = create(db, gcode_job(owner), 10);
    transition(db, id, JobState::AwaitingConfirm, JobState::Queued, None, 11).unwrap();
    id
}

#[test]
fn state_names_round_trip() {
    for state in [
        JobState::Slicing,
        JobState::AwaitingConfirm,
        JobState::Queued,
        JobState::Uploading,
        JobState::Printing,
        JobState::Done,
        JobState::Failed,
        JobState::Cancelled,
    ] {
        assert_eq!(JobState::parse(state.as_str()), Some(state));
        assert!(
            !state.can_become(JobState::Slicing),
            "nothing goes back to slicing"
        );
    }
    assert!(!JobState::Done.can_become(JobState::Queued));
    assert!(JobState::Failed.can_become(JobState::Queued));
}

#[test]
fn transitions_apply_only_from_the_expected_state() {
    let (_, sam) = people();
    let mut db = Jobs::new();
    let id = queued_job(&mut db, sam);

    assert!(matches!(
        transition(&mut db, id, JobState::Queued, JobState::Done, None, 12),
        Err(JobError::IllegalTransition { .. })
    ));
    transition(&mut db, id, JobState::Queued, JobState::Uploading, None, 12).unwrap();
    assert!(matches!(
        transition(&mut db, id, JobState::Queued, JobState::Cancelled, None, 13),
        Err(JobError::StateChanged { .. })
    ));
    transition(&mut db, id, JobState::Uploading, JobState::Printing, None, 14).unwrap();
    let job = get(&db, id).unwrap();
    assert_eq!((job.state, job.started_at), (JobState::Printing, Some(14)));
    assert!(matches!(
        transition(&mut db, 99, JobState::Queued, JobState::Cancelled, None, 13),
        Err(JobError::NotFound | JobError::StateChanged { .. })
    ));
    assert_eq!(
        JobError::IllegalTransition { from: JobState::Done, to: JobState::Queued }.message(),
        "a job cannot go from Done to Queued"
    );
}

#[test]
fn queue_order_moves_and_requeues_go_to_the_back() {
    let (_, sam) = people();
    let mut db = Jobs::new();
    let a = queued_job(&mut db, sam);
    let b = queued_job(&mut db, sam);
    let c = queued_job(&mut db, sam);
    let order = |db: &Jobs| {
        in_state(db, JobState::Queued)
            .iter()
            .map(|job| job.id)
            .collect::<Vec<_>>()
    };
    assert_eq!(order(&db), [a, b, c]);

    assert!(move_queued(&mut db, c, true));
    assert!(!move_queued(&mut db, a, true), "already first");
    assert_eq!(order(&db), [a, c, b]);

    // A failed upload returns to its place; a retried failure goes to the back.
    transition(&mut db, a, JobState::Queued, JobState::Uploading, None, 20).unwrap();
    transition(
        &mut db,
        a,
        JobState::Uploading,
        JobState::Queued,
        Some("busy".to_string()),
        21,
    )
    .unwrap();
    assert_eq!(order(&db), [a, c, b]);
    transition(&mut db, a, JobState::Queued, JobState::Uploading, None, 22).unwrap();
    transition(
        &mut db,
        a,
        JobState::Uploading,
        JobState::Failed,
        Some("refused".to_string()),
        23,
    )
    .unwrap();
    transition(&mut db, a, JobState::Failed, JobState::Queued, Some(String::new()), 24).unwrap();
    assert_eq!(order(&db), [c, b, a]);
}

fn fields(price_cents: Option<i64>) -> SpoolFields {
    SpoolFields {
        material: "PLA".into(),
        brand: String::new(),
        color_name: String::new(),
        color_hex: "#000000".into(),
        price_cents,
        initial_mg: 1_000_000,
        notes: String::new(),
    }
}

fn info(mg: &[i64]) -> GcodeInfo {
    GcodeInfo {
        generator: String::new(),
        printer_model: String::new(),
        nozzle: String::new(),
        plate: String::new(),
        estimated_seconds: Some(600),
        layers: Some(10),
        tools: mg
            .iter()
            .enumerate()
            .map(|(i, mg)| ToolUse {
                index: i as u32,
                material: "PLA".into(),
                color: "#000000".into(),
                mg: *mg,
                profile: String::new(),
            })
            .collect(),
    }
}

#[test]
fn finishing_deducts_filament() {
    let (people, sam) = people();
    let mut db = Jobs::new();
    let mut store = Inventory::new();
    let red = inventory::create_spool(&mut store, fields(None), None, 1);
    let blue = inventory::create_spool(&mut store, fields(None), None, 1);

    let done = queued_job(&mut db, sam);
    store_gcode_info(&mut db, done, &info(&[0, 30_000, 10_000]), None);
    assert_eq!(tools(&db, done).len(), 2, "unused tools are dropped");
    choose_spools(&mut db, done, &[(1, red), (2, blue)]);
    let owner = Some((sam, "sam".to_string()));
    inventory::update_spool(&mut store, blue, fields(Some(2000)), owner).unwrap();
    transition(&mut db, done, JobState::Queued, JobState::Uploading, None, 2).unwrap();
    transition(&mut db, done, JobState::Uploading, JobState::Printing, None, 3).unwrap();
    let job = get(&db, done).unwrap();
    finish(&mut db, &mut store, &job, JobState::Done, 100, None, 4).unwrap();

    let stopped = queued_job(&mut db, sam);
    store_gcode_info(&mut db, stopped, &info(&[50_000]), Some(red));
    transition(&mut db, stopped, JobState::Queued, JobState::Uploading, None, 5).unwrap();
    transition(&mut db, stopped, JobState::Uploading, JobState::Printing, None, 6).unwrap();
    let job = get(&db, stopped).unwrap();
    finish(&mut db, &mut store, &job, JobState::Cancelled, 40, None, 7).unwrap();

    let left = |store: &Inventory, id: i64| inventory::spool(store, id).unwrap().remaining_mg;
    assert_eq!(left(&store, red), 1_000_000 - 30_000 - 20_000);
    assert_eq!(left(&store, blue), 990_000);
    let history = inventory::history(&store, &people, red);
    assert_eq!(
        history.iter().map(|entry| entry.kind).collect::<Vec<_>>(),
        [ConsumptionKind::Estimate, ConsumptionKind::Print]
    );
    assert_eq!(history[0].note, "cube.gcode");

    inventory::update_spool(&mut store, blue, fields(Some(9900)), None).unwrap();
    let blue_use = stats::load(&store, &db, 0)
        .uses
        .into_iter()
        .find(|entry| entry.mg == 10_000)
        .unwrap();
    assert_eq!(
        (blue_use.owner_id, blue_use.value),
        (Some(sam), Some(20_000)),
        "the entry keeps the owner and price from when the print finished"
    );
    assert!(matches!(
        finish(&mut db, &mut store, &job, JobState::Done, 100, None, 8),
        Err(JobError::StateChanged { .. })
    ));
}

#[test]
fn bed_starts_not_clear() {
    let (_, sam) = people();
    let mut db = Jobs::new();
    assert!(!bed_clear(&db));
    set_bed_clear(&mut db, true, Some(sam), 5);
    assert!(bed_clear(&db));
}

fn snapshot(machine_status: i64, trays: &[(u32, i64)]) -> PrinterSnapshot {
    PrinterSnapshot {
        link: LinkState::Registered,
        status: Some(StatusView {
            machine_status: MachineStatus {
                status: machine_status,
                ..MachineStatus::default()
            },
            ..StatusView::default()
        }),
        canvas: Some(CanvasInfo {
            canvas_list: vec![Canvas {
                canvas_id: 0,
                connected: 1,
                tray_list: trays
                    .iter()
                    .map(|(tray_id, status)| Tray {
                        tray_id: *tray_id,
                        status: *status,
                        ..Tray::default()
                    })
                    .collect(),
            }],
            ..CanvasInfo::default()
        }),
        attributes: None,
    }
}

fn binding(spool_id: i64, tray_id: i64, remaining_mg: i64) -> Binding {
    Binding {
        canvas_id: 0,
        tray_id,
        spool: Spool {
            id: spool_id,
            material: "PLA".into(),
            brand: String::new(),
            color_name: String::new(),
            color_hex: "#000000".into(),
            owner: None,
            price_cents: None,
            initial_mg: 1_000_000,
            remaining_mg,
            notes: String::new(),
            archived: false,
            created_at: 0,
        },
    }
}

fn job(estimated_seconds: Option<i64>) -> Job {
    Job {
        id: 1,
        owner: None,
        name: "cube.gcode".into(),
        source: Source::Gcode,
        state: JobState::Queued,
        position: 1,
        process_profile: None,
        filament_profile: None,
        supports: None,
        infill_percent: None,
        scale_percent: None,
        estimated_seconds,
        layers: None,
        printer_task_uuid: None,
        progress: 0,
        error: String::new(),
        created_at: 0,
        started_at: None,
        finished_at: None,
        nozzle_um: None,
        plate: None,
    }
}

fn tool(index: u32, mg: i64, spool_id: Option<i64>) -> JobTool {
    JobTool {
        tool_index: index,
        material: "PLA".into(),
        color_hex: "#000000".into(),
        mg,
        spool_id,
        canvas_id: None,
        tray_id: None,
    }
}

#[test]
fn start_checks_in_order() {
    let tz = utc();
    let now = "2026-09-15T12:00:00Z"
        .parse::<jiff::Timestamp>()
        .unwrap()
        .as_second();
    let idle = snapshot(1, &[(0, 1), (1, 1), (2, 0)]);
    let bindings = vec![
        binding(10, 0, 500_000),
        binding(11, 1, 20_000),
        binding(12, 2, 900_000),
    ];
    let quiet = vec![Rule {
        kind: RuleKind::Deny,
        days: 0b111_1111,
        start_minute: 13 * 60,
        end_minute: 14 * 60,
        must_finish_before: true,
        label: "lunch".into(),
    }];
    let check = |job: &Job,
                 tools: &[JobTool],
                 snapshot: &PrinterSnapshot,
                 bed_clear: bool,
                 other_job_active: bool| {
        check_start(
            job,
            tools,
            &StartContext {
                snapshot,
                bindings: &bindings,
                bed_clear,
                nozzle: Nozzle::Mm04,
                other_job_active,
                rules: &quiet,
                now,
                tz: &tz,
                estimate_margin: 1_500_000,
            },
        )
    };
    let one_hour = job(Some(3600));
    let half_hour = job(Some(30 * 60));
    let ok_tools = [
        tool(0, 100_000, Some(10)),
        tool(1, 15_000, Some(11)),
        tool(2, 0, None),
    ];

    let offline = PrinterSnapshot {
        link: LinkState::Connecting,
        ..snapshot(1, &[(0, 1), (1, 1), (2, 0)])
    };
    let printing = snapshot(2, &[]);
    assert_eq!(
        check(&half_hour, &ok_tools, &offline, true, false),
        Err(BlockReason::PrinterOffline)
    );
    assert_eq!(
        check(&half_hour, &ok_tools, &idle, true, true),
        Err(BlockReason::AnotherJobActive)
    );
    assert_eq!(
        check(&half_hour, &ok_tools, &printing, true, false),
        Err(BlockReason::PrinterBusy)
    );
    let for_other_nozzle = Job {
        nozzle_um: Some(600),
        ..half_hour.clone()
    };
    assert_eq!(
        check(&for_other_nozzle, &ok_tools, &idle, false, false),
        Err(BlockReason::NozzleMismatch {
            sliced_um: 600,
            mounted: Nozzle::Mm04
        })
    );
    assert_eq!(
        check(&half_hour, &ok_tools, &idle, false, false),
        Err(BlockReason::BedNotClear)
    );
    assert_eq!(
        check(&half_hour, &[tool(0, 5_000, None)], &idle, true, false),
        Err(BlockReason::SpoolNotChosen { tool: 0 })
    );
    assert_eq!(
        check(&half_hour, &[tool(0, 5_000, Some(99))], &idle, true, false),
        Err(BlockReason::SpoolNotLoaded { tool: 0 })
    );
    assert_eq!(
        check(&half_hour, &[tool(3, 5_000, Some(12))], &idle, true, false),
        Err(BlockReason::TrayEmpty {
            tool: 3,
            canvas_id: 0,
            tray_id: 2
        })
    );
    assert_eq!(
        check(
            &half_hour,
            &[tool(0, 15_000, Some(11)), tool(1, 10_000, Some(11))],
            &idle,
            true,
            false
        ),
        Err(BlockReason::NotEnoughFilament {
            tool: 1,
            needed: 25_000,
            left: 20_000
        }),
        "tools sharing a spool add up"
    );
    // 30 minutes × 1.5 ends 12:45, before lunch; an hour × 1.5 does not.
    assert_eq!(
        check(&half_hour, &ok_tools, &idle, true, false),
        Ok(vec![
            SlotMapEntry { t: 0, canvas_id: 0, tray_id: 0 },
            SlotMapEntry { t: 1, canvas_id: 0, tray_id: 1 },
        ])
    );
    assert!(matches!(
        check(&one_hour, &ok_tools, &idle, true, false),
        Err(BlockReason::Schedule(ScheduleBlock::WouldOverrun { .. }))
    ));
    assert_eq!(
        BlockReason::TrayEmpty {
            tool: 3,
            canvas_id: 0,
            tray_id: 2
        }
        .describe(&tz),
        "Tray A3 for filament 4 is empty."
    );
}

#[test]
fn the_nozzle_is_assumed_until_recorded_and_jobs_keep_theirs() {
    let (people, sam) = people();
    let mut db = Jobs::new();
    assert_eq!(
        mounted_nozzle(&db, &people, Nozzle::Mm04),
        MountedNozzle {
            nozzle: Nozzle::Mm04,
            recorded: None
        }
    );
    set_mounted_nozzle(&mut db, Nozzle::Mm06, sam, 50);
    assert_eq!(
        mounted_nozzle(&db, &people, Nozzle::Mm04),
        MountedNozzle {
            nozzle: Nozzle::Mm06,
            recorded: Some(NozzleRecord {
                by: Some("sam".into()),
                at: 50
            })
        }
    );

    let id = create(&mut db, gcode_job(sam), 60);
    let sliced = GcodeInfo {
        nozzle: "0.4".into(),
        plate: "High Temp Plate".into(),
        ..info(&[5_000])
    };
    store_gcode_info(&mut db, id, &sliced, None);
    let job = get(&db, id).unwrap();
    assert_eq!(job.nozzle_um, Some(400));
    assert_eq!(job.plate.as_deref(), Some("High Temp Plate"));
}

#[test]
fn names_on_the_printer_are_plain() {
    let mut odd = job(None);
    odd.name = "Größe & Co.v2.gcode".into();
    let name = odd.printer_filename();
    assert!(name.is_ascii());
    assert!(name.ends_with("-1.gcode"), "{name}");
    odd.name = ".gcode".into();
    assert_eq!(odd.printer_filename(), "printhub-1.gcode");
    assert_eq!(jobs::gcode_path("/data", 7), "/data/jobs/7/job.gcode");
    assert_eq!(jobs::preview_path("/data/", 7), "/data/jobs/7/preview.png");
}

#[test]
fn only_those_who_may_can_stop_a_job() {
    let user = |id: i64, role: Role| User {
        id,
        username: "x".to_string(),
        role,
        disabled: false,
        created_at: 0,
    };
    let mut print = job(None);
    print.owner = Some((1, "sam".to_string()));
    print.state = JobState::Printing;
    assert!(print.cancellable_by(&user(1, Role::Member), false));
    assert!(!print.cancellable_by(&user(2, Role::Member), false));
    assert!(print.cancellable_by(&user(2, Role::Member), true));
    assert!(print.cancellable_by(&user(3, Role::Admin), false));
    print.state = JobState::Done;
    assert!(!print.cancellable_by(&user(1, Role::Member), false));
}

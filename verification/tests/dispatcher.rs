use printhub::cc2::client::{CommandError, LinkState, PrinterSnapshot};
use printhub::cc2::methods;
use printhub::cc2::model::{FileDetail, MachineStatus, PrintStatus, StatusView};
use printhub::cc2::upload::UploadError;
use printhub::decimal::Decimal;
use printhub::dispatcher::{
    begin, command_error, conclude, end, file_layers, follow, layer_total, recorded_outcome,
    recover, refresh_file_layers, settle, slice_job, slice_result, FileLayers, Follow,
    HistoryTask, LayerStep, StartError, TASK_COMPLETED,
};
use printhub::gcode::{GcodeInfo, ToolUse};
use printhub::inventory::Inventory;
use printhub::jobs::{self, Job, JobState, Jobs, NewJob, Source};
use printhub::json::Json;
use printhub::probe::{describe_frame, Probe, Report, Step, TASKS_ASKED};

fn add(db: &mut Jobs, source: Source) -> i64 {
    jobs::create(
        db,
        NewJob {
            owner: (1, "sam".to_string()),
            name: "cube.gcode".to_string(),
            source,
            process_profile: None,
            filament_profile: None,
            supports: None,
            infill_percent: None,
            scale_percent: None,
        },
        1,
    )
}

fn queued(db: &mut Jobs) -> i64 {
    let id = add(db, Source::Gcode);
    jobs::transition(db, id, JobState::AwaitingConfirm, JobState::Queued, None, 2).unwrap();
    id
}

fn state(db: &Jobs, id: i64) -> JobState {
    jobs::get(db, id).unwrap().state
}

fn snapshot(status: i64, sub_status: i64, progress: i64, filename: &str) -> PrinterSnapshot {
    PrinterSnapshot {
        link: LinkState::Registered,
        status: Some(StatusView {
            machine_status: MachineStatus {
                status,
                sub_status,
                progress,
                ..MachineStatus::default()
            },
            print_status: PrintStatus {
                filename: filename.to_string(),
                uuid: "task-1".to_string(),
                ..PrintStatus::default()
            },
            ..StatusView::default()
        }),
        canvas: None,
        attributes: None,
    }
}

fn info(mg: i64) -> GcodeInfo {
    GcodeInfo {
        generator: String::new(),
        printer_model: String::new(),
        nozzle: String::new(),
        plate: String::new(),
        estimated_seconds: None,
        layers: None,
        tools: vec![ToolUse {
            index: 0,
            material: "PLA".to_string(),
            color: String::new(),
            mg,
            profile: String::new(),
        }],
    }
}

#[test]
fn what_hung_when_the_server_stopped_goes_on() {
    let mut db = Jobs::new();
    let slicing = add(&mut db, Source::Stl);
    let sending = queued(&mut db);
    assert!(begin(&mut db, sending, 3));
    assert_eq!(state(&db, sending), JobState::Uploading);
    recover(&mut db, 4);
    assert_ne!(state(&db, slicing), JobState::Slicing);
    assert_eq!(state(&db, sending), JobState::Queued);
}

#[test]
fn a_start_that_may_work_later_is_tried_again() {
    let mut db = Jobs::new();
    let id = queued(&mut db);
    assert!(begin(&mut db, id, 3));
    assert!(!begin(&mut db, id, 3), "only a queued job starts");
    conclude(&mut db, id, &[], Err(StartError::not_connected()), 4).unwrap();
    assert_eq!(state(&db, id), JobState::Queued);
    assert!(begin(&mut db, id, 5));
    conclude(&mut db, id, &[], Err(StartError::missing_file("gone")), 6).unwrap();
    assert_eq!(state(&db, id), JobState::Failed);
    assert_eq!(jobs::get(&db, id).unwrap().error, "The G-code file is missing: gone");
    let other = queued(&mut db);
    assert!(begin(&mut db, other, 7));
    conclude(&mut db, other, &[], Ok(()), 8).unwrap();
    assert_eq!(state(&db, other), JobState::Printing);
}

#[test]
fn busy_printers_are_asked_again() {
    let refused = |code: i64| command_error("Starting", &CommandError::Printer { method: 1020, code });
    assert!(matches!(refused(1009), StartError::Retry(_)));
    assert!(matches!(refused(1010), StartError::Fatal(_)));
    assert!(matches!(StartError::upload_failed(&UploadError::Busy), StartError::Retry(_)));
    assert!(matches!(StartError::upload_failed(&UploadError::AccessDenied), StartError::Fatal(_)));
}

fn printing() -> (Jobs, Job) {
    let mut db = Jobs::new();
    let id = queued(&mut db);
    begin(&mut db, id, 3);
    conclude(&mut db, id, &[], Ok(()), 10).unwrap();
    let job = jobs::get(&db, id).unwrap();
    (db, job)
}

#[test]
fn a_print_is_followed_to_its_end() {
    let (mut db, job) = printing();
    let name = job.printer_filename();
    let offline = PrinterSnapshot {
        link: LinkState::Connecting,
        ..snapshot(2, 2075, 40, &name)
    };
    assert_eq!(follow(&job, &offline, false, 20), Follow::Wait);
    assert_eq!(
        follow(&job, &snapshot(2, 2075, 40, &name), false, 20),
        Follow::Printing { progress: Some(40), task: Some("task-1".to_string()) }
    );
    assert_eq!(
        follow(&job, &snapshot(1, 2077, 100, &name), true, 30),
        Follow::Ended(JobState::Done)
    );
    assert_eq!(follow(&job, &snapshot(1, 0, 0, ""), true, 30), Follow::Unclear);
    assert_eq!(
        follow(&job, &snapshot(1, 0, 0, ""), false, 30),
        Follow::Wait,
        "the printer may still report idle for a while"
    );
    let mut store = Inventory::new();
    end(&mut db, &mut store, &job, JobState::Done, None, 40).unwrap();
    assert_eq!(state(&db, job.id), JobState::Done);
}

#[test]
fn the_history_tells_how_a_print_ended() {
    let (_, job) = printing();
    let task = |name: &str, status: i64, end_time: i64| HistoryTask {
        task_id: String::new(),
        task_name: name.to_string(),
        task_status: status,
        end_time,
    };
    let name = job.printer_filename();
    let history = vec![
        task(&name, 3, 10),
        task(&name, TASK_COMPLETED, 20),
        task("other.gcode", 3, 30),
    ];
    assert_eq!(recorded_outcome(&history, &job), Some(TASK_COMPLETED));
    assert_eq!(settle(Some(TASK_COMPLETED)), (JobState::Done, None));
    assert_eq!(
        settle(None),
        (JobState::Failed, Some("The printer stopped without finishing the print."))
    );
    assert_eq!(recorded_outcome(&Vec::new(), &job), None);
}

#[test]
fn layers_are_asked_for_once_per_file() {
    let seen = snapshot(2, 2075, 1, "a.gcode");
    assert_eq!(refresh_file_layers(&seen, &None), LayerStep::Ask("a.gcode".to_string()));
    let detail = FileDetail {
        filename: "a.gcode".to_string(),
        size: 0,
        layer: Some(7),
        total_layers: None,
        total_layer: None,
        print_time: 0,
        total_filament_used: Decimal { negative: false, digits: 0, power: 0 },
        color_map: Vec::new(),
    };
    let known = file_layers("a.gcode".to_string(), &detail);
    assert_eq!(
        known,
        Some(FileLayers { filename: "a.gcode".to_string(), layers: 7 })
    );
    assert_eq!(refresh_file_layers(&seen, &known), LayerStep::Keep);
    assert_eq!(layer_total(&seen, &known, Some(3)), Some(7));
    assert_eq!(layer_total(&seen, &None, Some(3)), Some(3));
    assert_eq!(refresh_file_layers(&snapshot(1, 0, 0, ""), &known), LayerStep::Forget);
}

#[test]
fn a_slice_without_filament_fails() {
    assert_eq!(
        slice_result(Ok(info(0))),
        Err("The slicer reported no filament use.".to_string())
    );
    let mut db = Jobs::new();
    let good = add(&mut db, Source::Stl);
    slice_job(&mut db, good, Ok(info(5_000)), 3, 2);
    assert_eq!(state(&db, good), JobState::AwaitingConfirm);
    assert_eq!(jobs::tools(&db, good)[0].spool_id, Some(3));
    let bad = add(&mut db, Source::Stl);
    slice_job(&mut db, bad, Err("no such profile".to_string()), 3, 2);
    assert_eq!(state(&db, bad), JobState::Failed);
}

#[test]
fn a_report_fails_where_one_check_failed() {
    let mut report = Report::new();
    report.ok("resolve", "1.2.3.4".to_string());
    assert!(!report.failed);
    report.fail("mqtt", "refused".to_string());
    report.warn("camera", "off".to_string());
    assert!(report.failed);
    assert_eq!(report.lines[1].text(), "FAIL  mqtt                 refused");
    assert!(describe_frame(&[0xFF, 0xD8, 0, 0]).contains("4"));
}

#[test]
fn an_entry_with_the_task_id_beats_a_later_one_with_the_name() {
    let (_, mut job) = printing();
    job.printer_task_uuid = Some("task-1".to_string());
    let task = |id: &str, name: &str, status: i64, end_time: i64| HistoryTask {
        task_id: id.to_string(),
        task_name: name.to_string(),
        task_status: status,
        end_time,
    };
    let name = job.printer_filename();
    let mut history = vec![
        task("task-1", "renamed.gcode", TASK_COMPLETED, 10),
        task("task-9", &name, 3, 20),
    ];
    assert_eq!(recorded_outcome(&history, &job), Some(TASK_COMPLETED));
    history.remove(0);
    assert_eq!(recorded_outcome(&history, &job), Some(3), "only then does the name count");
}

#[test]
fn a_camera_that_is_off_is_reported_and_left_off() {
    let mut probe = Probe::start();
    probe.step = Step::Camera;
    assert!(probe.request().is_none());
    probe.camera(Err("connection refused".to_string()));
    assert!(matches!(probe.step, Step::Finished));
    assert_eq!(probe.report.lines.len(), 1);
    assert!(probe.report.lines[0].text().contains("connection refused"));
    assert!(probe.request().is_none(), "nothing is sent to switch it on");
}

#[test]
fn the_probe_asks_with_reading_methods_only() {
    let mut probe = Probe::start();
    probe.printing_file = "a.gcode".to_string();
    let mut asked = Vec::new();
    for step in [
        Step::Resolve,
        Step::Discover,
        Step::UploadPort,
        Step::Register,
        Step::Attributes,
        Step::Status,
        Step::FileDetail,
        Step::TaskList,
        Step::Canvas,
        Step::Camera,
        Step::Finished,
    ] {
        probe.step = step;
        if let Some((method, params)) = probe.request() {
            if method == methods::PRINT_TASK_LIST {
                assert_eq!(params.get("page_size"), Some(&Json::Unsigned(TASKS_ASKED as u64)));
            }
            if method == methods::GET_FILE_DETAIL {
                assert_eq!(params.get("filename"), Some(&Json::Text("a.gcode".to_string())));
            }
            asked.push(method);
        }
    }
    assert!(asked.contains(&methods::GET_ATTRIBUTES));
    assert!(asked.contains(&methods::PRINT_TASK_LIST));
    for writing in [methods::START_PRINT, methods::SET_LIGHT, methods::VIDEO_STREAM, methods::DELETE_FILE] {
        assert!(!asked.contains(&writing));
    }
}

//! What people do with PrintHub from the first click to the last, against the stand-in printer.

use printhub::accounts::{self, Accounts, Role, User};
use printhub::app::emptied_trays;
use printhub::cc2::client::{
    answer, registration, route, CommandError, Link, LinkState, Outcome as Reply, RegisterOutcome,
    Route, Timing, Topics,
};
use printhub::cc2::methods::{
    register_message, Empty, Envelope, Request, StartPrint, TaskPage, GET_ATTRIBUTES,
    GET_CANVAS_STATUS, GET_STATUS, PRINT_TASK_LIST, START_PRINT,
};
use printhub::cc2::upload::{content_range, first_chunk, md5_hex, next_chunk};
use printhub::config::Nozzle;
use printhub::dispatcher::{
    self, begin, conclude, follow, next_start, recorded_outcome, settle, Follow, HistoryTask,
    Readiness,
};
use printhub::fakeprinter::{FakePrinter, Message, Options};
use printhub::gcode::{self, GcodeInfo, ToolUse};
use printhub::inventory::{self, Inventory};
use printhub::jobs::{self, JobState, Jobs, MountedNozzle, NewJob, Source};
use printhub::json::Json;
use printhub::schedule::{self, Rules};
use printhub::slicer::{Plate, ProfileLibrary, Slicer};
use printhub::stats::{self, Payments, Period};
use printhub::web::error::AppError;
use printhub::web::filament::{
    self, bind_tray, inventory_page, refresh_trays, BindForm, InventoryQuery, Saved, SpoolForm,
};
use printhub::web::forms::Fields;
use printhub::web::pages;
use printhub::web::queue::{
    self, cancel_job, confirm_job, job_detail, jobs_page, mark_bed_clear, Cancelled, Confirmed,
    Surroundings,
};
use printhub::web::schedule::{add_rule, delete_rule, schedule_view, RuleForm};
use printhub::web::session::{AdminUser, CurrentUser};
use printhub::web::stats::{
    delete_payment, record_payment, stats_page, user_stats_page, PaymentForm, People, StatsQuery,
    RECENT_PRINTS,
};
use printhub::web::upload::{
    create_gcode_job, create_stl_job, new_job_form, upload_kind, user_problem, Problem, Profiles,
};
use printhub::web::views::PrinterCard;
use printhub::zone::Zone;

const PROCESS: &str = "0.20mm Standard @Elegoo CC2 0.4 nozzle";
const MARGIN: u64 = 1_100_000;
const NOW: i64 = 1_760_000_000;

/// A cube as OrcaSlicer leaves it: settings in comments around the moves.
const CUBE: &str = "; HEADER_BLOCK_START
; generated by OrcaSlicer 2.4.2 on 2026-01-02 at 03:04:05
; total layer number: 100
; HEADER_BLOCK_END
G28
G1 X10 Y10 E1
; filament used [g] = 3.54
; estimated printing time (normal mode) = 17m 24s
; printer_model = Elegoo Centauri Carbon 2
; nozzle_diameter = 0.4
; curr_bed_type = Cool Plate
; filament_type = PLA
; filament_colour = #F2754E
; filament_settings_id = \"Elegoo PLA @ECC2\"
";

/// A client that talks to a printer in the same process.
struct Client {
    printer: FakePrinter,
    link: Link,
    topics: Topics,
    now: u64,
}

impl Client {
    fn new() -> Client {
        let printer = FakePrinter::new(Options::default());
        let topics = Topics::new(&printer.serial, "0cli1", "req1");
        Client { printer, link: Link::new(0), topics, now: 0 }
    }

    fn register(&mut self) -> Result<(), String> {
        let replies = self.printer.handle(&self.topics.register, &register_message("0cli1", "req1"));
        let said = match replies[0].payload.get("error") {
            Some(Json::Text(said)) => said.clone(),
            other => panic!("no answer to the registration: {other:?}"),
        };
        let done = registration(RegisterOutcome::Answered(said), &Timing::default());
        match &done {
            Ok(()) => self.link.on_registered(self.now),
            Err(reason) => {
                self.link.set_link(LinkState::Rejected(reason.clone()));
            }
        }
        done
    }

    /// Takes in what the printer published; the answer to a request, if it is among it.
    fn take(&mut self, messages: Vec<Message>, id: u64) -> Option<Envelope> {
        let mut answered = None;
        for message in messages {
            let topic = format!("elegoo/{}/{}", self.printer.serial, message.suffix);
            let envelope = Envelope::read(&message.payload).unwrap();
            match route(&self.topics, &topic) {
                Route::Response => {
                    if self.link.on_response(&envelope, self.now) == Some(id) {
                        answered = Some(envelope);
                    }
                }
                Route::Status => {
                    self.link.on_status_event(envelope);
                }
                other => panic!("a message on {other:?}"),
            }
        }
        answered
    }

    fn request(&mut self, method: u32, params: Json) -> Result<Envelope, CommandError> {
        let id = self.link.begin_request()?;
        let message = Request { id, method, params }.message();
        let replies = self.printer.handle(&self.topics.request, &message);
        let outcome = match self.take(replies, id) {
            Some(envelope) => Reply::Answered(envelope),
            None => Reply::TimedOut,
        };
        answer(method, outcome)
    }

    fn connect() -> Client {
        let mut client = Client::new();
        client.register().unwrap();
        for method in [GET_ATTRIBUTES, GET_STATUS, GET_CANVAS_STATUS] {
            client.request(method, Empty {}.params()).unwrap();
        }
        client
    }
}

fn utc() -> Zone {
    let mut block: Vec<u8> = Vec::new();
    block.extend_from_slice(b"TZif2");
    block.extend_from_slice(&[0; 15]);
    for count in [0u32, 0, 0, 0, 1, 4] {
        block.extend_from_slice(&count.to_be_bytes());
    }
    block.extend_from_slice(&[0, 0, 0, 0, 0, 0]);
    block.extend_from_slice(b"UTC\0");
    let mut data = block.clone();
    data.extend_from_slice(&block);
    data.extend_from_slice(b"\nUTC0\n");
    Zone::new("UTC".to_string(), data).unwrap()
}

fn add_user(db: &mut Accounts, name: &str, role: Role) -> User {
    let id = accounts::create_user(db, name.to_string(), "h".to_string(), role, 0).unwrap();
    accounts::user(db, id).unwrap()
}

fn spool_form(material: &str, color_name: &str, color_hex: &str) -> SpoolForm {
    SpoolForm {
        material: material.to_string(),
        brand: "Elegoo".to_string(),
        color_name: color_name.to_string(),
        color_hex: color_hex.to_string(),
        initial_grams: "1000".to_string(),
        price: "19,99".to_string(),
        ..SpoolForm::default()
    }
}

/// The id at the end of a path like `/spools/3?done=created`.
fn id_of(path: &str) -> i64 {
    path.split('?').next().unwrap().rsplit('/').next().unwrap().parse().unwrap()
}

fn add_spool(
    store: &mut Inventory,
    people: &Accounts,
    user: &User,
    form: &SpoolForm,
    client: &Client,
) -> i64 {
    match filament::create_spool(store, people, user, form, &client.link.snapshot, NOW) {
        Saved::Done(path) => id_of(&path),
        other => panic!("no spool: {other:?}"),
    }
}

fn readiness(db: &Jobs, store: &Inventory, client: &Client) -> Readiness {
    Readiness::load(
        db,
        Vec::new(),
        client.link.snapshot.clone(),
        inventory::bindings(store),
        Nozzle::Mm04,
    )
}

fn query() -> InventoryQuery {
    InventoryQuery { archived: false, done: None, problem: None }
}

#[test]
fn comments_of_a_file_are_read() {
    let info = gcode::read(CUBE.as_bytes());
    assert_eq!(info.generator, "OrcaSlicer 2.4.2 on 2026-01-02 at 03:04:05");
    assert_eq!(info.printer_model, "Elegoo Centauri Carbon 2");
    assert_eq!((info.nozzle.as_str(), info.nozzle_um()), ("0.4", Some(400)));
    assert_eq!(info.plate, "Cool Plate");
    assert_eq!(info.estimated_seconds, Some(17 * 60 + 24));
    assert_eq!(info.layers, Some(100));
    assert_eq!(
        info.tools,
        [ToolUse {
            index: 0,
            material: "PLA".to_string(),
            color: "#F2754E".to_string(),
            mg: 3_540,
            profile: "Elegoo PLA @ECC2".to_string(),
        }]
    );
    let two = gcode::read(
        b"; filament used [g] = 1.2345, 0.00\r\n; filament_type = PLA;PETG\r\n\
          ; estimated printing time (normal mode) = 1d 2h 3m 4s\r\n",
    );
    assert_eq!(two.tools.len(), 2);
    assert_eq!((two.tools[0].mg, two.tools[1].material.as_str()), (1_235, "PETG"));
    assert_eq!(two.used_tools().len(), 1);
    assert_eq!(two.estimated_seconds, Some(93_784));
    let none = gcode::read(b"G28\nG1 X10\n; estimated printing time (normal mode) = soon\n");
    assert_eq!((none.estimated_seconds, none.layers), (None, None));
    assert!(none.tools.is_empty());
}

#[test]
fn tray_spools_show_on_the_card_and_unbind_when_emptied() {
    let mut people = Accounts::new();
    let admin = add_user(&mut people, "admin", Role::Admin);
    let mut client = Client::connect();
    let mut store = Inventory::new();
    let petg = spool_form("PETG", "Red", "#FF0000");
    let petg = add_spool(&mut store, &people, &admin, &petg, &client);
    let pla = spool_form("PLA", "White", "#FFFFFF");
    let pla = add_spool(&mut store, &people, &admin, &pla, &client);

    let bind = |store: &mut Inventory, client: &Client, tray: i64, spool_id: i64| {
        bind_tray(store, &client.link.snapshot, 0, tray, BindForm { spool_id }, NOW)
    };
    assert_eq!(bind(&mut store, &client, 1, pla), Ok("/inventory?done=bound"));
    assert_eq!(bind(&mut store, &client, 0, petg), Ok("/inventory?done=bound"));
    assert_eq!(
        bind(&mut store, &client, 3, petg),
        Err(AppError::BadRequest("That tray has no filament in it.".to_string()))
    );

    let bindings = inventory::bindings(&store);
    let page = inventory_page(&query(), &client.link.snapshot, &bindings, &store);
    let spools: Vec<_> = page.trays.iter().filter_map(|row| row.tray.spool.as_ref()).collect();
    assert_eq!(spools[0].name, "Elegoo PETG Red");
    assert_eq!(spools.iter().filter(|spool| spool.mismatch).count(), 1);

    let mounted = MountedNozzle { nozzle: Nozzle::Mm04, recorded: None };
    let card = PrinterCard::new(&client.link.snapshot, true, &bindings, &mounted, None, &utc());
    assert_eq!(card.link, "Connected");
    assert_eq!(card.state, "Idle");
    assert_eq!(card.trays[1].spool.as_ref().unwrap().name, "Elegoo PLA White");

    client.printer.set_tray(1, "", "", 0);
    let refreshed = client.request(GET_CANVAS_STATUS, Empty {}.params()).is_ok();
    assert_eq!(refresh_trays(refreshed), "/inventory?done=refreshed");
    let emptied = emptied_trays(&client.link.snapshot, &bindings);
    assert_eq!(emptied, [(0, 1)]);
    inventory::unbind_trays(&mut store, &emptied);
    let left = inventory::bindings(&store);
    assert_eq!(left.len(), 1);
    assert_eq!(left[0].spool.material, "PETG");
}

#[test]
fn the_spool_list_shows_prices() {
    let mut people = Accounts::new();
    let admin = add_user(&mut people, "admin", Role::Admin);
    let client = Client::connect();
    let mut store = Inventory::new();
    add_spool(&mut store, &people, &admin, &spool_form("PLA", "Blue", "#2850DF"), &client);
    let page = inventory_page(&query(), &client.link.snapshot, &Vec::new(), &store);
    assert_eq!(page.spools[0].price, "19.99");
}

/// What the printer's history holds.
fn history(client: &mut Client) -> Vec<HistoryTask> {
    let page = TaskPage { page: 1, page_size: dispatcher::HISTORY_PAGE };
    let reply = client.request(PRINT_TASK_LIST, page.params()).unwrap();
    let Some(Json::List(tasks)) = reply.result.get("history_task_list") else {
        panic!("no history");
    };
    let text = |task: &Json, key: &str| match task.get(key) {
        Some(Json::Text(value)) => value.clone(),
        other => panic!("{key} is {other:?}"),
    };
    let int = |task: &Json, key: &str| task.get(key).and_then(|value| value.as_i64()).unwrap();
    tasks
        .iter()
        .map(|task| HistoryTask {
            task_id: text(task, "task_id"),
            task_name: text(task, "task_name"),
            task_status: int(task, "task_status"),
            end_time: int(task, "end_time"),
        })
        .collect()
}

#[test]
fn gcode_job_prints_from_its_spool_and_deducts_filament() {
    let mut people = Accounts::new();
    let admin = add_user(&mut people, "admin", Role::Admin);
    let mut client = Client::connect();
    let mut store = Inventory::new();
    let orange = spool_form("PLA", "Orange", "#F2754E");
    let spool = add_spool(&mut store, &people, &admin, &orange, &client);
    bind_tray(&mut store, &client.link.snapshot, 0, 0, BindForm { spool_id: spool }, NOW).unwrap();

    assert_eq!(
        upload_kind("notes.txt"),
        Err("Upload an .stl model or a .gcode file sliced for the Centauri Carbon 2.".to_string())
    );
    assert_eq!(upload_kind("raw.gcode"), Ok(Source::Gcode));
    let not_sliced = gcode::read(b"G28\nG1 X10\n");
    assert!(create_gcode_job(&not_sliced, &admin, "raw.gcode").is_err());
    assert_eq!(user_problem("no"), Problem::User("no".to_string()));

    let info = gcode::read(CUBE.as_bytes());
    let mut db = Jobs::new();
    let id = jobs::create(&mut db, create_gcode_job(&info, &admin, "cube.gcode").unwrap(), NOW);
    jobs::store_gcode_info(&mut db, id, &info, None);
    let zone = utc();
    let ready = readiness(&db, &store, &client);
    let around = Surroundings {
        readiness: &ready,
        inventory: &store,
        zone: &zone,
        estimate_margin: MARGIN,
        now: NOW,
        user: &admin,
        control_any: true,
    };
    let (status, page) = job_detail(&db, id, false, true, &around, None, None).unwrap();
    assert_eq!(status, 200);
    assert_eq!((page.tools[0].label.as_str(), page.tools[0].material.as_str()), ("Filament 1", "PLA"));
    assert!(page.confirm);

    let mut fields = Fields::new();
    fields.insert("spool_0".to_string(), spool.to_string());
    assert_eq!(
        confirm_job(&mut db, &store, &admin, id, &fields, NOW),
        Confirmed::Queued("/jobs?done=queued")
    );
    let listed = jobs::list(&db, queue::RECENT_FINISHED);
    let outcome = queue::Outcome { done: None };
    let page = jobs_page(&db, &listed, &vec![true], &around, true, &outcome);
    assert_eq!(page.rows[0].detail, "Nobody has confirmed that the bed is clear.");
    let (front, total) = queue::upcoming(&db, 3);
    assert_eq!((front[0].id, total), (id, 1));
    let mounted = MountedNozzle { nozzle: Nozzle::Mm04, recorded: None };
    let bindings = inventory::bindings(&store);
    let card = PrinterCard::new(&client.link.snapshot, true, &bindings, &mounted, None, &zone);
    let grants = accounts::Grants { list: Vec::new() };
    let home = pages::dashboard(
        &db,
        &front,
        total,
        &vec![true],
        &around,
        card,
        true,
        &grants,
        &mounted,
    );
    assert_eq!((home.rows[0].id, home.rows[0].position), (id, Some(1)));
    assert_eq!(home.rows[0].filament[0].label, "A1 PLA");

    let queued = jobs::in_state(&db, JobState::Queued);
    let tools = vec![jobs::tools(&db, id)];
    assert_eq!(
        next_start(&ready, &zone, MARGIN, NOW, &queued, &tools),
        None,
        "nothing starts before the bed is clear"
    );
    mark_bed_clear(&mut db, &admin, NOW);
    let ready = readiness(&db, &store, &client);
    let (first, slot_map) = next_start(&ready, &zone, MARGIN, NOW, &queued, &tools).unwrap();
    assert_eq!(first, 0);

    assert!(begin(&mut db, id, NOW));
    let name = jobs::get(&db, id).unwrap().printer_filename();
    assert_eq!(name, format!("cube-{id}.gcode"));
    let data = CUBE.as_bytes();
    let mut next = Some(first_chunk(data.len()).unwrap());
    while let Some(chunk) = next {
        let (status, reply) = client.printer.upload(
            Some(name.clone()),
            Some(content_range(chunk, data.len())),
            Some(md5_hex(data)),
            &data[chunk.offset..=chunk.end],
        );
        let code = reply.get("error_code").and_then(|code| code.as_i64());
        next = next_chunk(data.len(), chunk, status, code).unwrap();
    }
    assert_eq!(client.printer.uploads[0].bytes, data);
    let start = StartPrint::local(&name, slot_map.clone());
    client.request(START_PRINT, start.params()).unwrap();
    conclude(&mut db, id, &slot_map, Ok(()), NOW).unwrap();
    let started = &client.printer.started[0];
    assert_eq!(started.get("filename"), Some(&Json::Text(name)));
    assert_eq!(
        started.get("config").and_then(|config| config.get("slot_map")),
        Some(&Json::List(vec![Json::Object(vec![
            ("t".to_string(), Json::Unsigned(0)),
            ("canvas_id".to_string(), Json::Unsigned(0)),
            ("tray_id".to_string(), Json::Unsigned(0)),
        ])]))
    );
    assert!(!jobs::bed_clear(&db), "a started print leaves the bed not clear");

    let job = jobs::get(&db, id).unwrap();
    let task = match follow(&job, &client.link.snapshot, false, NOW + 1) {
        Follow::Printing { task, .. } => task,
        other => panic!("not printing: {other:?}"),
    };
    jobs::record_start(&mut db, id, &slot_map, task);
    let ready = readiness(&db, &store, &client);
    assert!(ready.printer_busy(), "the bed cannot be cleared under a running print");

    let pushed = client.printer.complete_print();
    client.take(vec![pushed], 0);
    let job = jobs::get(&db, id).unwrap();
    assert_eq!(follow(&job, &client.link.snapshot, true, NOW + 2), Follow::Unclear);
    let (ended, error) = settle(recorded_outcome(&history(&mut client), &job));
    assert_eq!((ended, error), (JobState::Done, None));
    dispatcher::end(&mut db, &mut store, &job, ended, error, NOW + 2).unwrap();
    assert_eq!(jobs::get(&db, id).unwrap().state, JobState::Done);
    assert_eq!(inventory::spool(&store, spool).unwrap().remaining_mg, 1_000_000 - 3_540);
}

fn text(value: &str) -> Json {
    Json::Text(value.to_string())
}

fn slicer() -> Slicer {
    let machine = "Elegoo Centauri Carbon 2 0.4 nozzle";
    let mut library = ProfileLibrary::new();
    for (name, kind) in [(machine, "machine"), (PROCESS, "process"), ("Elegoo PLA @ECC2", "filament")]
    {
        library.insert(Json::Object(vec![
            ("name".to_string(), text(name)),
            ("type".to_string(), text(kind)),
            ("instantiation".to_string(), text("true")),
            ("compatible_printers".to_string(), Json::List(vec![text(machine)])),
        ]));
    }
    Slicer { binary: "orca-slicer".to_string(), library, timeout: 10 }
}

#[test]
fn stl_uploads_are_sliced_for_the_chosen_spool() {
    let slicer = slicer();
    let mut people = Accounts::new();
    let admin = add_user(&mut people, "admin", Role::Admin);
    let sam = add_user(&mut people, "sam", Role::Member);
    let kim = add_user(&mut people, "kim", Role::Member);
    let client = Client::connect();
    let mut store = Inventory::new();
    let blue = spool_form("PLA", "Blue", "#2850DF");
    let spool = add_spool(&mut store, &people, &admin, &blue, &client);
    let profiles = Some(Profiles {
        nozzle: Nozzle::Mm04,
        processes: slicer.processes(Nozzle::Mm04),
        filaments: slicer.filaments(Nozzle::Mm04),
    });

    let (status, form) =
        new_job_form(&Fields::new(), Nozzle::Mm04, &profiles, 1_000_000, &store, None);
    assert_eq!(status, 200);
    assert!(form.processes.iter().any(|choice| choice.name == PROCESS));
    let plate = form.plates.iter().find(|choice| choice.selected).unwrap();
    assert_eq!(plate.value, "Textured PEI Plate");

    let mut fields = Fields::new();
    fields.insert("process".to_string(), PROCESS.to_string());
    fields.insert("infill".to_string(), "20".to_string());
    assert!(create_stl_job(&fields, &profiles, &store).is_err(), "no spool");
    fields.insert("spool_id".to_string(), spool.to_string());
    let no_plate = create_stl_job(&fields, &profiles, &store).err();
    assert_eq!(no_plate.as_deref(), Some("Choose the build plate."));
    fields.insert("plate".to_string(), "High Temp Plate".to_string());
    fields.insert("filament".to_string(), String::new());
    fields.insert("supports".to_string(), "on".to_string());
    let order = create_stl_job(&fields, &profiles, &store).unwrap();
    let mut db = Jobs::new();
    let id = jobs::create(&mut db, order.job(&sam, "cube.stl"), NOW);
    assert_eq!(jobs::get(&db, id).unwrap().state, JobState::Slicing);

    let plan = slicer.slice("/data/jobs/1/model.stl", "/data/jobs/1", &order.settings).unwrap();
    let file = |end: &str| {
        let found = plan.files.iter().find(|(path, _)| path.ends_with(end));
        &found.unwrap().1
    };
    assert_eq!(
        file("filament.json").get("filament_colour"),
        Some(&Json::List(vec![text("#2850DF")]))
    );
    assert_eq!(file("process.json").get("curr_bed_type"), Some(&text("High Temp Plate")));
    assert_eq!(order.settings.plate, Plate::HighTemp);

    dispatcher::slice_job(&mut db, id, Ok(gcode::read(CUBE.as_bytes())), order.spool_id, NOW);
    let job = jobs::get(&db, id).unwrap();
    assert_eq!(job.state, JobState::AwaitingConfirm);
    assert_eq!(
        job.filament_profile.as_deref(),
        Some("Elegoo PLA @ECC2"),
        "chosen by the spool's material"
    );
    assert_eq!((job.supports, job.infill_percent), (Some(true), Some(20)));
    let tools = jobs::tools(&db, id);
    assert_eq!(tools.len(), 1);
    assert_eq!(tools[0].spool_id, Some(spool));
    assert_eq!(job.plate.as_deref(), Some("Cool Plate"), "read from the G-code");

    assert_eq!(
        cancel_job(&mut db, &kim, false, id, NOW),
        Cancelled::Refused(AppError::Forbidden)
    );
    assert_eq!(cancel_job(&mut db, &sam, false, id, NOW), Cancelled::Done("/jobs?done=cancelled"));
    assert_eq!(jobs::get(&db, id).unwrap().state, JobState::Cancelled);
}

#[test]
fn a_slicing_job_polls_until_it_can_be_confirmed() {
    let mut people = Accounts::new();
    let sam = add_user(&mut people, "sam", Role::Member);
    let client = Client::connect();
    let store = Inventory::new();
    let mut db = Jobs::new();
    let id = jobs::create(
        &mut db,
        NewJob {
            owner: (sam.id, sam.username.clone()),
            name: "cube.stl".to_string(),
            source: Source::Stl,
            process_profile: Some(PROCESS.to_string()),
            filament_profile: Some("Elegoo PLA @ECC2".to_string()),
            supports: Some(false),
            infill_percent: Some(20),
            scale_percent: None,
        },
        NOW,
    );
    let zone = utc();
    let ready = readiness(&db, &store, &client);
    let around = Surroundings {
        readiness: &ready,
        inventory: &store,
        zone: &zone,
        estimate_margin: MARGIN,
        now: NOW,
        user: &sam,
        control_any: false,
    };
    let (_, page) = job_detail(&db, id, true, false, &around, None, None).unwrap();
    assert!(page.job.slicing, "a slicing job reloads itself");
    jobs::transition(&mut db, id, JobState::Slicing, JobState::AwaitingConfirm, None, NOW).unwrap();
    let (_, page) = job_detail(&db, id, true, true, &around, None, None).unwrap();
    assert!(!page.job.slicing, "and stops once it is confirmable");
}

#[test]
fn print_windows_are_admin_only() {
    let mut people = Accounts::new();
    let admin = add_user(&mut people, "admin", Role::Admin);
    let sam = add_user(&mut people, "sam", Role::Member);
    let as_admin =
        |user: &User| AdminUser::from_current(CurrentUser { user: user.clone(), token_hash: vec![1] });
    assert_eq!(as_admin(&sam).err(), Some(AppError::Forbidden));
    assert!(as_admin(&admin).is_ok());

    let mut db = Rules { rules: Vec::new() };
    let on = Some("on".to_string());
    let mut form = RuleForm {
        kind: "deny".to_string(),
        start: "22:00".to_string(),
        end: "07:00".to_string(),
        ..RuleForm::default()
    };
    let no_days = add_rule(&mut db, &form, NOW).unwrap_err();
    assert_eq!(schedule_view(&db, &utc(), None, Some(no_days)).0, 400);

    form.label = "Quiet hours".to_string();
    form.day0 = on.clone();
    form.must_finish_before = on;
    assert_eq!(add_rule(&mut db, &form, NOW), Ok("/admin/schedule?done=added"));
    let (status, page) = schedule_view(&db, &utc(), None, None);
    assert_eq!(status, 200);
    assert_eq!((page.rules[0].kind, page.rules[0].label.as_str()), ("Deny", "Quiet hours"));
    assert_eq!(page.rules[0].hours, "22:00\u{2013}07:00");

    let rules = schedule::rules(&db);
    assert_eq!(rules.len(), 1);
    assert!(rules[0].1.must_finish_before);
    assert_eq!(delete_rule(&mut db, rules[0].0), "/admin/schedule?done=deleted");
    assert!(schedule::rules(&db).is_empty());
}

#[test]
fn statistics_show_whose_filament_was_used_and_what_is_owed() {
    let mut people = Accounts::new();
    let admin = add_user(&mut people, "admin", Role::Admin);
    let sam = add_user(&mut people, "sam", Role::Member);
    let alex = add_user(&mut people, "alex", Role::Member);
    let client = Client::connect();
    let mut store = Inventory::new();
    let blue = spool_form("PLA", "Blue", "#2850DF");
    let spool = add_spool(&mut store, &people, &sam, &blue, &client);

    // Alex prints 100 g from Sam's spool, which cost 19.99 for 1000 g.
    let mut db = Jobs::new();
    let job = jobs::create(
        &mut db,
        NewJob {
            owner: (alex.id, alex.username.clone()),
            name: "benchy.gcode".to_string(),
            source: Source::Gcode,
            process_profile: None,
            filament_profile: None,
            supports: None,
            infill_percent: None,
            scale_percent: None,
        },
        NOW - 3600,
    );
    let info = GcodeInfo {
        generator: String::new(),
        printer_model: String::new(),
        nozzle: String::new(),
        plate: String::new(),
        estimated_seconds: Some(1800),
        layers: Some(10),
        tools: vec![ToolUse {
            index: 0,
            material: "PLA".to_string(),
            color: "#2850DF".to_string(),
            mg: 100_000,
            profile: String::new(),
        }],
    };
    jobs::store_gcode_info(&mut db, job, &info, Some(spool));
    for (from, to) in [
        (JobState::AwaitingConfirm, JobState::Queued),
        (JobState::Queued, JobState::Uploading),
        (JobState::Uploading, JobState::Printing),
    ] {
        jobs::transition(&mut db, job, from, to, None, NOW - 1800).unwrap();
    }
    let printing = jobs::get(&db, job).unwrap();
    jobs::finish(&mut db, &mut store, &printing, JobState::Done, 100, None, NOW).unwrap();

    // Handing the spool to everyone and repricing it later does not rewrite the print.
    let shared = SpoolForm {
        price: "99".to_string(),
        owner_id: Some(String::new()),
        ..spool_form("PLA", "Blue", "#2850DF")
    };
    let edited = filament::update_spool(&mut store, &people, &admin, spool, &shared);
    assert!(matches!(edited, Saved::Done(_)));
    assert_eq!(inventory::spool(&store, spool).unwrap().owner, None);

    let zone = utc();
    let mut payments = Payments { rows: Vec::new() };
    let everyone = People::load(&people);
    let show = |viewer: &User, payments: &Payments| {
        let asked = StatsQuery { period: None, done: None, problem: None };
        let period = asked.period();
        let since = period.since(NOW, &zone);
        let ledger = stats::load(&store, &db, since);
        let summary = stats::summarize(&ledger, period, since, NOW, &zone);
        let paid = stats::settlements(payments, &people);
        let debts = stats::balances(&stats::owed(&store), &paid);
        stats_page(&summary, &everyone, &paid, &debts, viewer, &asked, &zone)
    };
    let page = show(&alex, &payments);
    assert_eq!(page.people[0].name, "alex");
    assert_eq!(page.people[0].others, "100 g (100%)");
    assert_eq!(page.matrix.owners, ["sam"]);
    assert_eq!(page.matrix.rows[0].cells, ["100 g (2.00)"]);
    assert_eq!(page.debts.len(), 1);
    assert_eq!((page.debts[0].debtor.as_str(), page.debts[0].creditor.as_str()), ("alex", "sam"));
    assert_eq!(page.debts[0].amount, "2.00");
    let drawn: Vec<&str> = page
        .chart
        .as_ref()
        .unwrap()
        .bars
        .iter()
        .flat_map(|bar| bar.segments.iter().map(|segment| segment.slot))
        .collect();
    assert_eq!(drawn, ["series-3"], "alex holds the third account's colour");
    assert!(!page.debts[0].can_record, "a debtor is not offered to record their payment");

    let mut payment = PaymentForm {
        from_user: alex.id.to_string(),
        to_user: sam.id.to_string(),
        amount: "2".to_string(),
    };
    assert_eq!(
        record_payment(&mut payments, &people, &alex, &payment, NOW),
        Err(AppError::Forbidden)
    );
    assert!(show(&sam, &payments).debts[0].can_record);
    payment.amount = "0".to_string();
    assert_eq!(
        record_payment(&mut payments, &people, &sam, &payment, NOW),
        Ok("/stats?problem=payment-amount#balances")
    );
    payment.amount = "2".to_string();
    assert_eq!(
        record_payment(&mut payments, &people, &sam, &payment, NOW),
        Ok("/stats?done=paid#balances")
    );
    let settled = show(&sam, &payments);
    assert!(settled.debts.is_empty());
    assert_eq!(
        (settled.payments[0].from.as_str(), settled.payments[0].to.as_str()),
        ("alex", "sam")
    );

    let period = Period::parse("30d").unwrap();
    let since = period.since(NOW, &zone);
    let ledger = stats::load(&store, &db, since);
    let summary = stats::summarize(&ledger, period, since, NOW, &zone);
    let own = stats::summarize(&ledger.of_user(alex.id), period, since, NOW, &zone);
    let recent = stats::recent_prints(&store, &db, alex.id, since, RECENT_PRINTS);
    let theirs = user_stats_page(
        &alex,
        &summary,
        &own,
        &everyone,
        &[],
        &recent,
        period,
        &zone,
    );
    assert_eq!(theirs.name, "alex");
    assert_eq!(theirs.prints[0].name, "benchy.gcode");
    let used = &theirs.used[0];
    assert_eq!(
        (used.label.as_str(), used.grams.as_str(), used.value.as_str()),
        ("sam", "100 g", "2.00")
    );
    assert_eq!(accounts::user(&people, 9999), None);

    let paid = stats::settlements(&payments, &people)[0].id;
    assert_eq!(
        delete_payment(&mut payments, paid),
        Ok("/stats?done=payment-deleted#balances")
    );
    assert_eq!(delete_payment(&mut payments, paid), Err(AppError::NotFound));
    let reopened = show(&sam, &payments);
    assert_eq!(reopened.debts[0].debtor, "alex");
    assert!(!reopened.can_delete_payments);
    assert!(show(&admin, &payments).can_delete_payments);
}

//! The client against the stand-in printer, with messages handed over directly.

use printhub::camera::{is_jpeg, MjpegParser};
use printhub::cc2::client::{
    answer, registration, route, CommandError, Link, LinkState, Outcome, PrinterSnapshot,
    RegisterOutcome, Route, Timing, Topics,
};
use printhub::cc2::methods::{
    error_code, register_message, Empty, Envelope, FileRef, Request, SlotMapEntry, StartPrint,
    TaskPage, GET_ATTRIBUTES, GET_CANVAS_STATUS, GET_FILE_DETAIL, GET_STATUS, PAUSE_PRINT,
    PRINT_TASK_LIST, RESUME_PRINT, START_PRINT,
};
use printhub::cc2::model::{printing_sub_status, FileDetail, MachineState, TrayState};
use printhub::cc2::upload::{content_range, first_chunk, md5_hex, next_chunk, CHUNK_SIZE};
use printhub::fakeprinter::{camera_part, FakePrinter, Message, Options, CAMERA_BOUNDARY};
use printhub::json::Json;

/// A client that talks to a printer in the same process.
struct Client {
    printer: FakePrinter,
    link: Link,
    topics: Topics,
    now: u64,
}

impl Client {
    fn new() -> Client {
        let printer = FakePrinter::new(Options::default());
        let topics = Topics::new(&printer.serial, "0cli1", "req1");
        Client { printer, link: Link::new(0), topics, now: 0 }
    }

    fn register(&mut self) -> Result<(), String> {
        let replies = self.printer.handle(&self.topics.register, &register_message("0cli1", "req1"));
        let said = match replies[0].payload.get("error") {
            Some(Json::Text(said)) => said.clone(),
            other => panic!("no answer to the registration: {other:?}"),
        };
        let done = registration(RegisterOutcome::Answered(said), &Timing::default());
        match &done {
            Ok(()) => self.link.on_registered(self.now),
            Err(reason) => {
                self.link.set_link(LinkState::Rejected(reason.clone()));
            }
        }
        done
    }

    /// Takes in what the printer published; the answer to a request, if it is among it.
    fn take(&mut self, messages: Vec<Message>, id: u64) -> Option<Envelope> {
        let mut answered = None;
        for message in messages {
            let topic = format!("elegoo/{}/{}", self.printer.serial, message.suffix);
            let envelope = Envelope::read(&message.payload).unwrap();
            match route(&self.topics, &topic) {
                Route::Response => {
                    if self.link.on_response(&envelope, self.now) == Some(id) {
                        answered = Some(envelope);
                    }
                }
                Route::Status => {
                    self.link.on_status_event(envelope);
                }
                other => panic!("a message on {other:?}"),
            }
        }
        answered
    }

    fn request(&mut self, method: u32, params: Json) -> Result<Envelope, CommandError> {
        let id = self.link.begin_request()?;
        let message = Request { id, method, params }.message();
        let replies = self.printer.handle(&self.topics.request, &message);
        let outcome = match self.take(replies, id) {
            Some(envelope) => Outcome::Answered(envelope),
            None => Outcome::TimedOut,
        };
        answer(method, outcome)
    }

    fn connect() -> Client {
        let mut client = Client::new();
        client.register().unwrap();
        for method in [GET_ATTRIBUTES, GET_STATUS, GET_CANVAS_STATUS] {
            client.request(method, Empty {}.params()).unwrap();
        }
        client
    }
}

fn machine(snapshot: &PrinterSnapshot) -> (MachineState, i64, i64) {
    let machine = &snapshot.status.as_ref().unwrap().machine_status;
    (machine.state(), machine.sub_status, machine.progress)
}

#[test]
fn registers_and_loads_initial_state() {
    let client = Client::connect();
    let snapshot = client.link.snapshot;
    assert_eq!(snapshot.link, LinkState::Registered);
    assert_eq!(machine(&snapshot).0, MachineState::Idle);
    assert_eq!(snapshot.attributes.unwrap().sn, client.printer.serial);
    let trays = &snapshot.canvas.unwrap().canvas_list[0].tray_list;
    assert_eq!(trays[0].filament_type, "PLA");
    assert_eq!(trays[0].filament_color, "#FFFFFF");
    assert_eq!(trays[0].state(), TrayState::Loaded);
    assert_eq!(trays[3].state(), TrayState::Empty);
}

#[test]
fn a_refused_client_asks_for_nothing() {
    let mut client = Client::new();
    client.printer.set_registration_reply("too many clients");
    assert_eq!(client.register(), Err("too many clients".to_string()));
    assert_eq!(
        client.link.snapshot.link,
        LinkState::Rejected("too many clients".to_string())
    );
    assert_eq!(
        client.request(GET_STATUS, Empty {}.params()),
        Err(CommandError::NotRegistered)
    );
    client.printer.set_registration_reply("ok");
    assert_eq!(client.register(), Ok(()));
}

#[test]
fn print_lifecycle_updates_snapshot() {
    let mut client = Client::connect();
    client.printer.add_file("cube.gcode", b"G28\n");

    let slot_map = vec![SlotMapEntry { t: 0, canvas_id: 0, tray_id: 1 }];
    let start = StartPrint::local("cube.gcode", slot_map);
    client.request(START_PRINT, start.params()).unwrap();
    assert_eq!(machine(&client.link.snapshot).0, MachineState::Printing);
    let started = client.printer.started[0].get("config").and_then(|config| config.get("slot_map"));
    assert_eq!(
        started,
        Some(&Json::List(vec![Json::Object(vec![
            ("t".to_string(), Json::Unsigned(0)),
            ("canvas_id".to_string(), Json::Unsigned(0)),
            ("tray_id".to_string(), Json::Unsigned(1)),
        ])]))
    );

    let pushed = client.printer.set_progress(42);
    client.take(vec![pushed], 0);
    assert_eq!(machine(&client.link.snapshot).2, 42);

    client.request(PAUSE_PRINT, Empty {}.params()).unwrap();
    assert_eq!(machine(&client.link.snapshot).1, printing_sub_status::PAUSED);
    client.request(RESUME_PRINT, Empty {}.params()).unwrap();

    // A finished print leaves plain idle and an empty filename: only the history tells.
    let pushed = client.printer.complete_print();
    client.take(vec![pushed], 0);
    let (state, sub_status, _) = machine(&client.link.snapshot);
    assert_eq!((state, sub_status), (MachineState::Idle, 0));
    assert_eq!(client.link.snapshot.status.as_ref().unwrap().print_status.filename, "");
    let history =
        client.request(PRINT_TASK_LIST, TaskPage { page: 1, page_size: 10 }.params()).unwrap();
    let tasks = match history.result.get("history_task_list") {
        Some(Json::List(tasks)) => tasks,
        other => panic!("no history: {other:?}"),
    };
    assert_eq!(tasks.len(), 1);
    assert_eq!(tasks[0].get("task_name"), Some(&Json::Text("cube.gcode".to_string())));
    assert_eq!(tasks[0].get("task_status"), Some(&Json::Unsigned(1)));
}

#[test]
fn a_missing_file_is_refused() {
    let mut client = Client::connect();
    let refused = client
        .request(GET_FILE_DETAIL, FileRef::local("nope.gcode").params())
        .unwrap_err();
    assert_eq!(refused.printer_code(), Some(error_code::PRINT_FILE_NOT_FOUND));
}

#[test]
fn chunked_upload_then_file_detail() {
    let mut client = Client::connect();
    let data: Vec<u8> = (0..(CHUNK_SIZE * 2 + 12_345)).map(|i| (i * 31 % 251) as u8).collect();
    let md5 = md5_hex(&data);
    let mut next = Some(first_chunk(data.len()).unwrap());
    while let Some(chunk) = next {
        let (status, reply) = client.printer.upload(
            Some("big.gcode".to_string()),
            Some(content_range(chunk, data.len())),
            Some(md5.clone()),
            &data[chunk.offset..=chunk.end],
        );
        let code = reply.get("error_code").and_then(|code| code.as_i64());
        next = next_chunk(data.len(), chunk, status, code).unwrap();
    }

    let uploads = &client.printer.uploads;
    assert_eq!(uploads.len(), 1);
    assert_eq!(uploads[0].filename, "big.gcode");
    assert_eq!(uploads[0].bytes, data);
    assert_eq!(uploads[0].md5_header.as_deref(), Some(md5.as_str()));

    let answered = client.request(GET_FILE_DETAIL, FileRef::local("big.gcode").params()).unwrap();
    let detail = FileDetail::read(&answered.result).unwrap();
    assert_eq!(detail.size as usize, data.len());
}

#[test]
fn camera_frame_from_fake() {
    let content_type = format!("multipart/x-mixed-replace; boundary={CAMERA_BOUNDARY}");
    let mut parser = MjpegParser::from_content_type(&content_type).unwrap();
    let frames = parser.push(&camera_part(3));
    assert_eq!(frames.len(), 1);
    assert!(is_jpeg(&frames[0]));
}

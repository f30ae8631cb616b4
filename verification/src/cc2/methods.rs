//! MQTT method codes and request payloads, as used by Elegoo's `elegoo-link` SDK.

use vstd::prelude::*;

use crate::json::{self, Json, Value};
use crate::text;

pub mod error_code;

verus! {

pub const GET_ATTRIBUTES: u32 = 1001;

pub const GET_STATUS: u32 = 1002;

pub const START_PRINT: u32 = 1020;

pub const PAUSE_PRINT: u32 = 1021;

pub const STOP_PRINT: u32 = 1022;

pub const RESUME_PRINT: u32 = 1023;

pub const SET_LIGHT: u32 = 1029;

pub const PRINT_TASK_LIST: u32 = 1036;

pub const VIDEO_STREAM: u32 = 1042;

pub const GET_FILE_LIST: u32 = 1044;

pub const GET_FILE_THUMBNAIL: u32 = 1045;

pub const GET_FILE_DETAIL: u32 = 1046;

pub const DELETE_FILE: u32 = 1047;

pub const GET_CANVAS_STATUS: u32 = 2005;

/// Page of the print history; one page is enough to find a print that just ended.
#[derive(Debug, Clone, Copy, PartialEq, Eq, Structural)]
pub struct TaskPage {
    pub page: i64,
    pub page_size: i64,
}

pub const EVENT_STATUS: u32 = 6000;

pub const EVENT_ATTRIBUTES: u32 = 6008;

pub const STORAGE_LOCAL: &'static str = "local";

#[derive(Debug, Clone, Copy, PartialEq, Eq)]
pub struct Request<P> {
    pub id: u64,
    pub method: u32,
    pub params: P,
}

/// Anything the printer publishes: command responses, status events, and heartbeat replies,
/// which carry only `type`.
#[derive(Debug, PartialEq, Eq)]
pub struct Envelope {
    pub id: Option<u64>,
    pub method: Option<u32>,
    pub result: Json,
    pub kind: Option<String>,
}

impl Envelope {
    pub open spec fn code(self) -> Option<i64> {
        match self.result.value().get("error_code"@) {
            Some(code) => json::number_i64(code),
            None => None,
        }
    }

    pub open spec fn pong(self) -> bool {
        self.kind matches Some(kind) && kind@ == "PONG"@
    }

    /// The printer did what it was asked to.
    pub open spec fn succeeded(self) -> bool {
        self.code() is None || self.code() == Some(error_code::SUCCESS)
    }

    pub fn error_code(&self) -> (r: Option<i64>)
        ensures
            r == self.code(),
    {
        match self.result.get("error_code") {
            Some(code) => code.as_i64(),
            None => None,
        }
    }

    pub fn is_pong(&self) -> (r: bool)
        ensures
            r == self.pong(),
    {
        match &self.kind {
            Some(kind) => text::same(kind.as_str(), "PONG"),
            None => false,
        }
    }
}

#[derive(Debug, Clone, Copy, PartialEq, Eq, Structural)]
pub struct Empty {}

#[derive(Debug, Clone, Copy, PartialEq, Eq)]
pub struct FileRef<'a> {
    pub storage_media: &'a str,
    pub filename: &'a str,
}

impl<'a> FileRef<'a> {
    pub fn local(filename: &'a str) -> (r: FileRef<'a>)
        ensures
            r.storage_media@ == "local"@,
            r.filename@ == filename@,
    {
        FileRef { storage_media: STORAGE_LOCAL, filename }
    }
}

#[derive(Debug, Clone, Copy, PartialEq, Eq)]
pub struct FileList<'a> {
    pub storage_media: &'a str,
    pub path: &'a str,
    pub page: u32,
    pub page_size: u32,
}

#[derive(Debug, Clone, Copy, PartialEq, Eq, Structural)]
pub struct VideoStream {
    pub enable: bool,
}

#[derive(Debug, Clone, PartialEq, Eq)]
pub struct StartPrint<'a> {
    pub storage_media: &'a str,
    pub filename: &'a str,
    pub config: StartConfig,
}

#[derive(Debug, Clone, PartialEq, Eq)]
pub struct StartConfig {
    pub delay_video: bool,
    /// Auto bed leveling (about three minutes) before the print. ElegooSlicer sends `true` on
    /// every job; with `false` the printer only levels when it decides to itself.
    pub printer_check: bool,
    pub print_layout: &'static str,
    pub bedlevel_force: bool,
    /// Empty leaves the tray choice to the printer.
    pub slot_map: Vec<SlotMapEntry>,
}

impl<'a> StartPrint<'a> {
    pub fn local(filename: &'a str, slot_map: Vec<SlotMapEntry>) -> (r: StartPrint<'a>)
        ensures
            r.storage_media@ == "local"@,
            r.filename@ == filename@,
            !r.config.delay_video,
            r.config.printer_check,
            r.config.print_layout@ == "A"@,
            !r.config.bedlevel_force,
            r.config.slot_map@ == slot_map@,
    {
        StartPrint {
            storage_media: STORAGE_LOCAL,
            filename,
            config: StartConfig {
                delay_video: false,
                printer_check: true,
                print_layout: "A",
                bedlevel_force: false,
                slot_map,
            },
        }
    }
}

/// Routes one G-code tool to a physical CANVAS tray. The printer does not validate `tray_id`:
/// an out-of-range tray is acknowledged and silently printed from tray 0.
#[derive(Debug, Clone, Copy, PartialEq, Eq, Structural)]
pub struct SlotMapEntry {
    pub t: u32,
    pub canvas_id: u32,
    pub tray_id: u32,
}

// ---------------------------------------------------------------------------------------------
// Messages
// ---------------------------------------------------------------------------------------------

pub open spec fn request_value(id: u64, method: u32, params: Value) -> Value {
    Value::Object(
        seq![
            ("id"@, Value::Unsigned(id)),
            ("method"@, Value::Unsigned(method as u64)),
            ("params"@, params),
        ],
    )
}

impl Request<Json> {
    /// The message that carries the request.
    pub fn message(self) -> (r: Json)
        ensures
            r.value() == request_value(self.id, self.method, self.params.value()),
    {
        let mut members: Vec<(String, Json)> = Vec::new();
        json::put(&mut members, "id", Json::Unsigned(self.id));
        json::put(&mut members, "method", Json::Unsigned(self.method as u64));
        json::put(&mut members, "params", self.params);
        let message = Json::Object(members);
        assert(json::members_value(members@) =~= seq![
            ("id"@, Value::Unsigned(self.id)),
            ("method"@, Value::Unsigned(self.method as u64)),
            ("params"@, self.params.value()),
        ]);
        message
    }
}

/// What registers a client; the printer answers on a topic with `request_id` in it.
pub open spec fn register_value(client_id: Seq<char>, request_id: Seq<char>) -> Value {
    Value::Object(
        seq![("client_id"@, Value::Text(client_id)), ("request_id"@, Value::Text(request_id))],
    )
}

pub fn register_message(client_id: &str, request_id: &str) -> (r: Json)
    ensures
        r.value() == register_value(client_id@, request_id@),
{
    let mut members: Vec<(String, Json)> = Vec::new();
    json::put_text(&mut members, "client_id", client_id);
    json::put_text(&mut members, "request_id", request_id);
    assert(json::members_value(members@) =~= seq![
        ("client_id"@, Value::Text(client_id@)),
        ("request_id"@, Value::Text(request_id@)),
    ]);
    Json::Object(members)
}

/// The heartbeat.
pub fn ping_message() -> (r: Json)
    ensures
        r.value() == json::single("type"@, Value::Text("PING"@)),
{
    json::single_object("type", Json::Text("PING".to_string()))
}

impl Empty {
    pub fn params(self) -> (r: Json)
        ensures
            r.value() == Value::Object(seq![]),
    {
        let members: Vec<(String, Json)> = Vec::new();
        assert(json::members_value(members@) =~= seq![]);
        Json::Object(members)
    }
}

impl TaskPage {
    pub fn params(self) -> (r: Json)
        ensures
            r.value() == Value::Object(
                seq![
                    ("page"@, json::whole(self.page as int)),
                    ("page_size"@, json::whole(self.page_size as int)),
                ],
            ),
    {
        let mut members: Vec<(String, Json)> = Vec::new();
        json::put(&mut members, "page", json::whole_number(self.page));
        json::put(&mut members, "page_size", json::whole_number(self.page_size));
        assert(json::members_value(members@) =~= seq![
            ("page"@, json::whole(self.page as int)),
            ("page_size"@, json::whole(self.page_size as int)),
        ]);
        Json::Object(members)
    }
}

impl<'a> FileRef<'a> {
    pub fn params(self) -> (r: Json)
        ensures
            r.value() == Value::Object(
                seq![
                    ("storage_media"@, Value::Text(self.storage_media@)),
                    ("filename"@, Value::Text(self.filename@)),
                ],
            ),
    {
        let mut members: Vec<(String, Json)> = Vec::new();
        json::put_text(&mut members, "storage_media", self.storage_media);
        json::put_text(&mut members, "filename", self.filename);
        assert(json::members_value(members@) =~= seq![
            ("storage_media"@, Value::Text(self.storage_media@)),
            ("filename"@, Value::Text(self.filename@)),
        ]);
        Json::Object(members)
    }
}

impl VideoStream {
    pub fn params(self) -> (r: Json)
        ensures
            r.value() == json::single("enable"@, Value::Bool(self.enable)),
    {
        json::single_object("enable", Json::Bool(self.enable))
    }
}

impl SlotMapEntry {
    pub open spec fn value(self) -> Value {
        Value::Object(
            seq![
                ("t"@, Value::Unsigned(self.t as u64)),
                ("canvas_id"@, Value::Unsigned(self.canvas_id as u64)),
                ("tray_id"@, Value::Unsigned(self.tray_id as u64)),
            ],
        )
    }

    fn entry(self) -> (r: Json)
        ensures
            r.value() == self.value(),
    {
        let mut members: Vec<(String, Json)> = Vec::new();
        json::put(&mut members, "t", Json::Unsigned(self.t as u64));
        json::put(&mut members, "canvas_id", Json::Unsigned(self.canvas_id as u64));
        json::put(&mut members, "tray_id", Json::Unsigned(self.tray_id as u64));
        assert(json::members_value(members@) =~= seq![
            ("t"@, Value::Unsigned(self.t as u64)),
            ("canvas_id"@, Value::Unsigned(self.canvas_id as u64)),
            ("tray_id"@, Value::Unsigned(self.tray_id as u64)),
        ]);
        Json::Object(members)
    }
}

impl StartConfig {
    pub open spec fn value(self) -> Value {
        Value::Object(
            seq![
                ("delay_video"@, Value::Bool(self.delay_video)),
                ("printer_check"@, Value::Bool(self.printer_check)),
                ("print_layout"@, Value::Text(self.print_layout@)),
                ("bedlevel_force"@, Value::Bool(self.bedlevel_force)),
                (
                    "slot_map"@,
                    Value::List(self.slot_map@.map_values(|slot: SlotMapEntry| slot.value())),
                ),
            ],
        )
    }

    fn params(&self) -> (r: Json)
        ensures
            r.value() == self.value(),
    {
        let ghost slots = self.slot_map@.map_values(|slot: SlotMapEntry| slot.value());
        let mut list: Vec<Json> = Vec::new();
        let mut i: usize = 0;
        while i < self.slot_map.len()
            invariant
                i <= self.slot_map@.len(),
                list@.len() == i,
                slots == self.slot_map@.map_values(|slot: SlotMapEntry| slot.value()),
                forall|k: int| 0 <= k < i ==> (#[trigger] list@[k]).value() == slots[k],
            decreases self.slot_map.len() - i,
        {
            list.push(self.slot_map[i].entry());
            i += 1;
        }
        proof {
            json::lemma_items_value(list@);
            assert(json::items_value(list@) =~= slots);
        }
        let mut members: Vec<(String, Json)> = Vec::new();
        json::put(&mut members, "delay_video", Json::Bool(self.delay_video));
        json::put(&mut members, "printer_check", Json::Bool(self.printer_check));
        json::put_text(&mut members, "print_layout", self.print_layout);
        json::put(&mut members, "bedlevel_force", Json::Bool(self.bedlevel_force));
        json::put(&mut members, "slot_map", Json::List(list));
        assert(json::members_value(members@) =~= seq![
            ("delay_video"@, Value::Bool(self.delay_video)),
            ("printer_check"@, Value::Bool(self.printer_check)),
            ("print_layout"@, Value::Text(self.print_layout@)),
            ("bedlevel_force"@, Value::Bool(self.bedlevel_force)),
            ("slot_map"@, Value::List(slots)),
        ]);
        Json::Object(members)
    }
}

impl<'a> StartPrint<'a> {
    pub fn params(&self) -> (r: Json)
        ensures
            r.value() == Value::Object(
                seq![
                    ("storage_media"@, Value::Text(self.storage_media@)),
                    ("filename"@, Value::Text(self.filename@)),
                    ("config"@, self.config.value()),
                ],
            ),
    {
        let mut members: Vec<(String, Json)> = Vec::new();
        json::put_text(&mut members, "storage_media", self.storage_media);
        json::put_text(&mut members, "filename", self.filename);
        json::put(&mut members, "config", self.config.params());
        assert(json::members_value(members@) =~= seq![
            ("storage_media"@, Value::Text(self.storage_media@)),
            ("filename"@, Value::Text(self.filename@)),
            ("config"@, self.config.value()),
        ]);
        Json::Object(members)
    }
}

/// An answer is taken for a success where it has no error code, or the code 0.
pub proof fn answers_succeed_without_an_error(envelope: Envelope)
    ensures
        envelope.succeeded() <==> envelope.code() is None || envelope.code() == Some(0i64),
        envelope.pong() <==> envelope.kind is Some && envelope.kind->0@ == "PONG"@,
{
}

} // verus!
